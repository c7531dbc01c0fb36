//! Configuration: the plugins to run, how often, and how to print.

use vstd::prelude::*;
use crate::plugin::PluginConfig;
use crate::strings::{str_eq, owned};

verus! {

/// Main configuration.
#[derive(Debug)]
pub struct Config {
    /// Path of the file being processed.
    pub path: Option<String>,
    /// Plugin configurations, in the order they run.
    pub plugins: Vec<PluginConfig>,
    /// Multi-pass optimization.
    pub multipass: bool,
    /// Output formatting options.
    pub js2svg: Js2SvgOptions,
    /// Data URI output format.
    pub datauri: Option<DataUriFormat>,
    /// Parser options.
    pub parser: ParserOptions,
}

/// Output formatting options.
#[derive(Debug)]
pub struct Js2SvgOptions {
    /// Pretty-print the output.
    pub pretty: bool,
    /// Indentation for pretty-printing, in spaces.
    pub indent: usize,
    /// Use self-closing tags for empty elements.
    pub self_closing: bool,
    /// How to quote attributes.
    pub quote_attrs: QuoteAttrsStyle,
    /// Line ending style.
    pub eol: LineEnding,
    /// Ensure a final newline.
    pub final_newline: bool,
}

/// Data URI output formats.
#[derive(Debug, Clone, Copy, PartialEq, Eq, Structural)]
pub enum DataUriFormat {
    Base64,
    Enc,
    Unenc,
}

/// Attribute quoting styles.
#[derive(Debug, Clone, Copy, PartialEq, Eq, Structural)]
pub enum QuoteAttrsStyle {
    Always,
    Never,
    Auto,
}

/// Line ending style.
#[derive(Debug, Clone, Copy, PartialEq, Eq, Structural)]
pub enum LineEnding {
    Lf,
    Crlf,
}

/// Parser options.
#[derive(Debug)]
pub struct ParserOptions {
    /// Preserve whitespace in text content.
    pub preserve_whitespace: bool,
    /// Preserve comments.
    pub preserve_comments: bool,
}

impl Default for LineEnding {
    fn default() -> (r: LineEnding)
        ensures
            r == LineEnding::Lf,
    {
        LineEnding::Lf
    }
}

impl LineEnding {
    /// The characters of the line ending.
    pub fn as_str(&self) -> (r: &'static str)
        ensures
            r@ == (match *self {
                LineEnding::Lf => "\n"@,
                LineEnding::Crlf => "\r\n"@,
            }),
    {
        match self {
            LineEnding::Lf => "\n",
            LineEnding::Crlf => "\r\n",
        }
    }
}

impl Default for Js2SvgOptions {
    fn default() -> (r: Js2SvgOptions)
        ensures
            !r.pretty,
            r.indent == 2,
            r.self_closing,
            r.quote_attrs == QuoteAttrsStyle::Auto,
            r.eol == LineEnding::Lf,
            !r.final_newline,
    {
        Js2SvgOptions {
            pretty: false,
            indent: 2,
            self_closing: true,
            quote_attrs: QuoteAttrsStyle::Auto,
            eol: LineEnding::default(),
            final_newline: false,
        }
    }
}

impl Default for ParserOptions {
    fn default() -> (r: ParserOptions)
        ensures
            !r.preserve_whitespace,
            r.preserve_comments,
    {
        ParserOptions { preserve_whitespace: false, preserve_comments: true }
    }
}

impl Default for Config {
    fn default() -> (r: Config)
        ensures
            r.path is None,
            r.plugins@.len() == 0,
            !r.multipass,
            r.datauri is None,
            !r.js2svg.pretty,
            r.js2svg.indent == 2,
            r.parser.preserve_comments,
            !r.parser.preserve_whitespace,
    {
        Config {
            path: None,
            plugins: Vec::new(),
            multipass: false,
            js2svg: Js2SvgOptions::default(),
            datauri: None,
            parser: ParserOptions::default(),
        }
    }
}

/// The names of configured plugins, in order.
pub open spec fn plugin_names(p: Seq<PluginConfig>) -> Seq<Seq<char>> {
    p.map_values(|c: PluginConfig| c.name@)
}

/// Index of the first plugin configuration named `name`, or `-1`.
pub open spec fn plugin_index(p: Seq<PluginConfig>, name: Seq<char>) -> int
    decreases p.len(),
{
    if p.len() == 0 {
        -1
    } else if p[0].name@ == name {
        0
    } else {
        let r = plugin_index(p.subrange(1, p.len() as int), name);
        if r < 0 { -1 } else { r + 1 }
    }
}

/// The configurations whose name is not `name`, in order.
pub open spec fn plugins_without(p: Seq<PluginConfig>, name: Seq<char>) -> Seq<PluginConfig>
    decreases p.len(),
{
    if p.len() == 0 {
        p
    } else if p.last().name@ == name {
        plugins_without(p.drop_last(), name)
    } else {
        plugins_without(p.drop_last(), name).push(p.last())
    }
}

pub proof fn lemma_plugin_index(p: Seq<PluginConfig>, name: Seq<char>)
    ensures
        -1 <= plugin_index(p, name) < p.len(),
        plugin_index(p, name) >= 0 ==> p[plugin_index(p, name)].name@ == name,
        plugin_index(p, name) >= 0 ==> forall|j: int| 0 <= j < plugin_index(p, name) ==> p[j].name@ != name,
        plugin_index(p, name) < 0 <==> forall|j: int| 0 <= j < p.len() ==> p[j].name@ != name,
    decreases p.len(),
{
    if p.len() > 0 {
        let t = p.subrange(1, p.len() as int);
        lemma_plugin_index(t, name);
        if p[0].name@ != name {
            assert forall|j: int| 1 <= j < p.len() implies p[j] == t[j - 1] by {}
            if plugin_index(t, name) < 0 {
                assert forall|j: int| 0 <= j < p.len() implies p[j].name@ != name by {
                    if j > 0 { assert(p[j] == t[j - 1]); }
                }
            }
        }
    }
}

pub proof fn lemma_plugins_without(p: Seq<PluginConfig>, name: Seq<char>)
    ensures
        forall|j: int| 0 <= j < plugins_without(p, name).len() ==> (#[trigger] plugins_without(p, name)[j]).name@ != name,
    decreases p.len(),
{
    if p.len() > 0 {
        lemma_plugins_without(p.drop_last(), name);
    }
}

impl Config {
    /// A new configuration without plugins.
    pub fn new() -> (r: Config)
        ensures
            r.path is None,
            r.plugins@.len() == 0,
            !r.multipass,
            r.datauri is None,
            !r.js2svg.pretty,
            r.js2svg.indent == 2,
    {
        Config::default()
    }

    /// Adds a plugin configuration at the end.
    pub fn add_plugin(&mut self, plugin: PluginConfig)
        ensures
            final(self).plugins@ == old(self).plugins@.push(plugin),
            final(self).multipass == old(self).multipass,
            final(self).path == old(self).path,
            final(self).js2svg == old(self).js2svg,
            final(self).datauri == old(self).datauri,
    {
        self.plugins.push(plugin);
    }

    /// Removes every plugin configuration with the given name.
    pub fn remove_plugin(&mut self, name: &str)
        ensures
            final(self).plugins@ == plugins_without(old(self).plugins@, name@),
            final(self).multipass == old(self).multipass,
            final(self).path == old(self).path,
    {
        let mut old_p: Vec<PluginConfig> = Vec::new();
        std::mem::swap(&mut old_p, &mut self.plugins);
        let ghost orig = old_p@;
        let n = old_p.len();
        let mut i: usize = 0;
        while i < n
            invariant
                n == orig.len(), i <= n,
                old_p@ == orig.subrange(i as int, n as int),
                self.plugins@ == plugins_without(orig.take(i as int), name@),
                self.multipass == old(self).multipass,
                self.path == old(self).path,
            decreases n - i,
        {
            let p = old_p.remove(0);
            assert(p == orig[i as int]);
            assert(orig.take(i + 1).drop_last() =~= orig.take(i as int));
            if !str_eq(p.name.as_str(), name) {
                self.plugins.push(p);
            }
            i = i + 1;
        }
        assert(orig.take(n as int) =~= orig);
    }

    /// The first plugin configuration with the given name.
    pub fn get_plugin(&self, name: &str) -> (r: Option<&PluginConfig>)
        ensures
            match r {
                Some(p) => plugin_index(self.plugins@, name@) >= 0 && *p == self.plugins@[plugin_index(self.plugins@, name@)],
                None => plugin_index(self.plugins@, name@) < 0,
            },
    {
        match self.find_plugin(name) {
            Some(i) => Some(&self.plugins[i]),
            None => None,
        }
    }

    /// The position of the first plugin configuration with the given name.
    fn find_plugin(&self, name: &str) -> (r: Option<usize>)
        ensures
            match r {
                Some(i) => i as int == plugin_index(self.plugins@, name@) && i < self.plugins@.len(),
                None => plugin_index(self.plugins@, name@) < 0,
            },
    {
        proof { lemma_plugin_index(self.plugins@, name@); }
        let mut i: usize = 0;
        while i < self.plugins.len()
            invariant
                i <= self.plugins@.len(),
                forall|j: int| 0 <= j < i ==> self.plugins@[j].name@ != name@,
                -1 <= plugin_index(self.plugins@, name@) < self.plugins@.len(),
                plugin_index(self.plugins@, name@) >= 0 ==> self.plugins@[plugin_index(self.plugins@, name@)].name@ == name@,
                plugin_index(self.plugins@, name@) >= 0 ==> forall|j: int| 0 <= j < plugin_index(self.plugins@, name@) ==> self.plugins@[j].name@ != name@,
                plugin_index(self.plugins@, name@) < 0 <==> forall|j: int| 0 <= j < self.plugins@.len() ==> self.plugins@[j].name@ != name@,
            decreases self.plugins.len() - i,
        {
            if str_eq(self.plugins[i].name.as_str(), name) {
                let ghost k = plugin_index(self.plugins@, name@);
                assert(k >= 0) by {
                    if k < 0 { assert(self.plugins@[i as int].name@ != name@); }
                }
                proof { if k > i as int { assert(self.plugins@[i as int].name@ != name@); } }
                return Some(i);
            }
            i = i + 1;
        }
        None
    }

    /// The first plugin configuration with the given name, for change.
    pub fn get_plugin_mut(&mut self, name: &str) -> (r: Option<&mut PluginConfig>)
        ensures
            match r {
                Some(p) => plugin_index(old(self).plugins@, name@) >= 0
                    && *p == old(self).plugins@[plugin_index(old(self).plugins@, name@)]
                    && final(self).plugins@ == old(self).plugins@.update(plugin_index(old(self).plugins@, name@), *final(p)),
                None => plugin_index(old(self).plugins@, name@) < 0 && final(self).plugins@ == old(self).plugins@,
            },
            final(self).multipass == old(self).multipass,
            final(self).path == old(self).path,
    {
        match self.find_plugin(name) {
            Some(i) => Some(&mut self.plugins[i]),
            None => None,
        }
    }

    /// Enables or disables the first plugin configuration with the given
    /// name, if there is one.
    pub fn set_plugin_enabled(&mut self, name: &str, enabled: bool)
        ensures
            plugin_index(old(self).plugins@, name@) >= 0 ==> final(self).plugins@ == old(self).plugins@.update(
                plugin_index(old(self).plugins@, name@),
                PluginConfig { enabled, ..old(self).plugins@[plugin_index(old(self).plugins@, name@)] }),
            plugin_index(old(self).plugins@, name@) < 0 ==> final(self).plugins@ == old(self).plugins@,
            final(self).multipass == old(self).multipass,
            final(self).path == old(self).path,
            final(self).js2svg == old(self).js2svg,
            final(self).datauri == old(self).datauri,
    {
        if let Some(i) = self.find_plugin(name) {
            self.plugins[i].enabled = enabled;
        }
    }

    /// A configuration with the default preset of plugins, each enabled and
    /// without parameters.
    pub fn with_default_preset() -> (r: Config)
        ensures
            plugin_names(r.plugins@) == default_preset(),
            forall|i: int| 0 <= i < r.plugins@.len() ==> (#[trigger] r.plugins@[i]).enabled && r.plugins@[i].params is None,
            r.path is None,
            !r.multipass,
    {
        let mut config = Config::new();
        let names: [&str; 21] = [
            "removeComments",
            "removeMetadata",
            "removeTitle",
            "removeDesc",
            "removeDoctype",
            "removeXMLProcInst",
            "removeEditorsNSData",
            "cleanupAttrs",
            "removeEmptyAttrs",
            "removeUnknownsAndDefaults",
            "removeUnusedNS",
            "removeUselessDefs",
            "cleanupIds",
            "minifyStyles",
            "convertStyleToAttrs",
            "convertColors",
            "removeEmptyText",
            "removeEmptyContainers",
            "collapseGroups",
            "removeUselessTransforms",
            "sortAttrs",
        ];
        let ghost want = default_preset();
        assert(names@.map_values(|s: &str| s@) =~= want);
        let mut i: usize = 0;
        while i < 21
            invariant
                i <= 21, names@.len() == 21,
                names@.map_values(|s: &str| s@) == want,
                plugin_names(config.plugins@) == want.take(i as int),
                forall|k: int| 0 <= k < config.plugins@.len() ==> (#[trigger] config.plugins@[k]).enabled && config.plugins@[k].params is None,
                config.path is None,
                !config.multipass,
            decreases 21 - i,
        {
            let ghost before = config.plugins@;
            config.add_plugin(PluginConfig::new(owned(names[i])));
            assert(want[i as int] == names@[i as int]@);
            assert(plugin_names(config.plugins@) =~= plugin_names(before).push(want[i as int]));
            assert(want.take(i + 1) =~= want.take(i as int).push(want[i as int]));
            i = i + 1;
        }
        assert(want.take(21) =~= want);
        config
    }
}

/// Formats of a configuration file, told apart by the file's extension.
#[derive(Debug, Clone, Copy, PartialEq, Eq, Structural)]
pub enum ConfigFormat {
    /// `.json`
    Json,
    /// `.toml`
    Toml,
    /// `.js`, `.cjs` or `.mjs`: not supported.
    Script,
    /// Any other extension, or none: tried as JSON, then as TOML.
    Unknown,
}

/// The format that an extension names (compared exactly, case included).
pub open spec fn format_of(ext: Option<Seq<char>>) -> ConfigFormat {
    match ext {
        Some(e) => if e == "json"@ {
            ConfigFormat::Json
        } else if e == "toml"@ {
            ConfigFormat::Toml
        } else if e == "js"@ || e == "cjs"@ || e == "mjs"@ {
            ConfigFormat::Script
        } else {
            ConfigFormat::Unknown
        },
        None => ConfigFormat::Unknown,
    }
}

/// The format of a configuration file with the extension `ext`.
pub fn config_format(ext: Option<&str>) -> (r: ConfigFormat)
    ensures
        r == format_of(match ext {
            Some(e) => Some(e@),
            None => None,
        }),
{
    match ext {
        Some(e) => if str_eq(e, "json") {
            ConfigFormat::Json
        } else if str_eq(e, "toml") {
            ConfigFormat::Toml
        } else if str_eq(e, "js") || str_eq(e, "cjs") || str_eq(e, "mjs") {
            ConfigFormat::Script
        } else {
            ConfigFormat::Unknown
        },
        None => ConfigFormat::Unknown,
    }
}

/// The names of the configuration files looked for in a directory, in
/// order of preference.
pub open spec fn config_names() -> Seq<Seq<char>> {
    seq![
        "svgn.config.toml"@,
        "svgn.config.json"@,
        "svgo.config.json"@,
        "svgo.config.js"@,
        "svgo.config.cjs"@,
        "svgo.config.mjs"@
    ]
}

/// The names of the configuration files looked for in a directory, in
/// order of preference.
pub fn config_file_names() -> (r: Vec<&'static str>)
    ensures
        r@.map_values(|s: &str| s@) == config_names(),
{
    let r = vec![
        "svgn.config.toml",
        "svgn.config.json",
        "svgo.config.json",
        "svgo.config.js",
        "svgo.config.cjs",
        "svgo.config.mjs",
    ];
    assert(r@.map_values(|s: &str| s@) =~= config_names());
    r
}

/// The names of the default preset, in order.
pub open spec fn default_preset() -> Seq<Seq<char>> {
    seq![
        "removeComments"@,
        "removeMetadata"@,
        "removeTitle"@,
        "removeDesc"@,
        "removeDoctype"@,
        "removeXMLProcInst"@,
        "removeEditorsNSData"@,
        "cleanupAttrs"@,
        "removeEmptyAttrs"@,
        "removeUnknownsAndDefaults"@,
        "removeUnusedNS"@,
        "removeUselessDefs"@,
        "cleanupIds"@,
        "minifyStyles"@,
        "convertStyleToAttrs"@,
        "convertColors"@,
        "removeEmptyText"@,
        "removeEmptyContainers"@,
        "collapseGroups"@,
        "removeUselessTransforms"@,
        "sortAttrs"@
    ]
}

} // verus!
