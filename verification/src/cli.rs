//! The decisions of the command-line tool: where input comes from and
//! output goes, which files count as SVG, which paths are excluded, and how
//! the options change a configuration.

use vstd::prelude::*;
use crate::config::{Config, DataUriFormat, LineEnding, plugin_index};
use crate::pattern::{regex_error, regex_error_result, regex_is_match, regex_match_result};
use crate::plugin::PluginConfig;
use crate::strings::{ascii_lower, has_suffix, owned, str_ends_with, str_eq, str_seq, to_chars};
use crate::value::{Value, member_index};

verus! {

/// Where the input comes from.
#[derive(Debug)]
pub enum InputMode {
    /// A string given on the command line.
    String(String),
    /// Standard input.
    Stdin,
    /// The listed files.
    Files(Vec<String>),
    /// The SVG files of a folder, and whether its subfolders count too.
    Folder(String, bool),
}

/// Where the output goes.
#[derive(Debug)]
pub enum OutputMode {
    Stdout,
    File(String),
    Directory(String),
    InPlace,
}

/// Whether a list of files is the single name `-`, which stands for
/// standard input.
pub open spec fn is_dash_only(files: Seq<String>) -> bool {
    files.len() == 1 && files[0]@ == "-"@
}

/// The input a list of files stands for.
pub open spec fn files_input_ok(m: InputMode, files: Seq<String>) -> bool {
    if is_dash_only(files) { m is Stdin } else { m matches InputMode::Files(f) && f@ == files }
}

/// Whether `m` is the input that the options give: a string, else a folder,
/// else the `--input` files, else the positional files, else standard
/// input; a file list that is just `-` is standard input.
pub open spec fn input_ok(m: InputMode, string: Option<String>, folder: Option<String>, recursive: bool,
    input: Option<Vec<String>>, positional: Option<Vec<String>>) -> bool
{
    match string {
        Some(s) => m matches InputMode::String(t) && t@ == s@,
        None => match folder {
            Some(f) => m matches InputMode::Folder(g, r) && g@ == f@ && r == recursive,
            None => match input {
                Some(files) => files_input_ok(m, files@),
                None => match positional {
                    Some(files) => files_input_ok(m, files@),
                    None => m is Stdin,
                },
            },
        },
    }
}

/// Decides the input and the output from the options.  `output_is_dir`
/// tells whether the single output path names an existing folder.  More
/// than one output is refused.
pub fn determine_io_mode(string: Option<String>, folder: Option<String>, recursive: bool,
    input: Option<Vec<String>>, positional: Option<Vec<String>>, output: Option<Vec<String>>, output_is_dir: bool)
    -> (r: Result<(InputMode, OutputMode), String>)
    ensures
        match output {
            Some(outs) => if outs@.len() == 1 {
                r matches Ok((i, o)) && input_ok(i, string, folder, recursive, input, positional) && if outs@[0]@ == "-"@ {
                    o is Stdout
                } else if output_is_dir || has_suffix(outs@[0]@, "/"@) || has_suffix(outs@[0]@, "\\"@) {
                    o matches OutputMode::Directory(d) && d@ == outs@[0]@
                } else {
                    o matches OutputMode::File(f) && f@ == outs@[0]@
                }
            } else {
                r matches Err(e) && e@ == "Multiple output files not supported"@
            },
            None => r matches Ok((i, o)) && input_ok(i, string, folder, recursive, input, positional) && if (i is Stdin
                || i is String) {
                o is Stdout
            } else {
                o is InPlace
            },
        },
{
    let ghost (s0, f0, in0, p0) = (string, folder, input, positional);
    let input_mode = match string {
        Some(s) => InputMode::String(s),
        None => match folder {
            Some(f) => InputMode::Folder(f, recursive),
            None => match input {
                Some(files) => {
                    if files.len() == 1 && str_eq(files[0].as_str(), "-") {
                        InputMode::Stdin
                    } else {
                        InputMode::Files(files)
                    }
                },
                None => match positional {
                    Some(files) => {
                        if files.len() == 1 && str_eq(files[0].as_str(), "-") {
                            InputMode::Stdin
                        } else {
                            InputMode::Files(files)
                        }
                    },
                    None => InputMode::Stdin,
                },
            },
        },
    };
    assert(input_ok(input_mode, s0, f0, recursive, in0, p0));
    let output_mode = match output {
        Some(outs) => {
            if outs.len() == 1 {
                if str_eq(outs[0].as_str(), "-") {
                    OutputMode::Stdout
                } else if output_is_dir || str_ends_with(outs[0].as_str(), "/") || str_ends_with(outs[0].as_str(), "\\") {
                    OutputMode::Directory(outs[0].clone())
                } else {
                    OutputMode::File(outs[0].clone())
                }
            } else {
                return Err(owned("Multiple output files not supported"));
            }
        },
        None => match &input_mode {
            InputMode::Stdin => OutputMode::Stdout,
            InputMode::String(_) => OutputMode::Stdout,
            _ => OutputMode::InPlace,
        },
    };
    Ok((input_mode, output_mode))
}

/// Whether two texts are equal when ASCII letters are compared without
/// case.
pub open spec fn eq_ignore_ascii_case(a: Seq<char>, b: Seq<char>) -> bool {
    a.len() == b.len() && forall|i: int| 0 <= i < a.len() ==> ascii_lower(#[trigger] a[i]) == ascii_lower(b[i])
}

fn lower_ascii_char(c: char) -> (r: char)
    ensures
        r == ascii_lower(c),
{
    if 'A' <= c && c <= 'Z' {
        let v: u8 = (c as u8) + 32;
        v as char
    } else {
        c
    }
}

/// Whether a file extension is `svg`, in any ASCII case.
pub fn is_svg_extension(ext: Option<&str>) -> (r: bool)
    ensures
        r == match ext {
            Some(e) => eq_ignore_ascii_case(e@, "svg"@),
            None => false,
        },
{
    match ext {
        None => false,
        Some(e) => {
            let cs = to_chars(e);
            let svg = to_chars("svg");
            proof { reveal_strlit("svg"); }
            if cs.len() != svg.len() {
                return false;
            }
            let mut i: usize = 0;
            while i < cs.len()
                invariant
                    i <= cs@.len(), cs@.len() == svg@.len(), cs@ == e@, svg@ == "svg"@, ext == Some(e),
                    forall|k: int| 0 <= k < i ==> ascii_lower(#[trigger] cs@[k]) == ascii_lower(svg@[k]),
                decreases cs.len() - i,
            {
                if lower_ascii_char(cs[i]) != lower_ascii_char(svg[i]) {
                    assert(!eq_ignore_ascii_case(e@, "svg"@)) by {
                        assert(ascii_lower(e@[i as int]) != ascii_lower("svg"@[i as int]));
                    }
                    return false;
                }
                i = i + 1;
            }
            true
        },
    }
}

/// Whether a path is excluded: some pattern matches it.  A pattern that
/// does not compile is an error, with its message, unless an earlier one
/// matched.
pub open spec fn excluded_by(path: Seq<char>, patterns: Seq<Seq<char>>) -> Result<bool, Seq<char>>
    decreases patterns.len(),
{
    if patterns.len() == 0 {
        Ok(false)
    } else {
        match excluded_by(path, patterns.drop_last()) {
            Ok(false) => match regex_match_result(patterns.last(), path) {
                Some(m) => Ok(m),
                None => match regex_error_result(patterns.last()) {
                    Some(msg) => Err(msg),
                    None => Err(Seq::empty()),
                },
            },
            other => other,
        }
    }
}

proof fn lemma_excluded_prefix(path: Seq<char>, p: Seq<Seq<char>>, k: int)
    requires
        0 <= k <= p.len(),
        excluded_by(path, p.take(k)) != Ok::<bool, Seq<char>>(false),
    ensures
        excluded_by(path, p) == excluded_by(path, p.take(k)),
    decreases p.len() - k,
{
    if k < p.len() {
        assert(p.take(k + 1).drop_last() =~= p.take(k));
        lemma_excluded_prefix(path, p, k + 1);
    } else {
        assert(p.take(k) =~= p);
    }
}

/// Whether a path is excluded by one of the patterns, as `excluded_by`
/// says.
pub fn is_excluded(path: &str, patterns: &Vec<String>) -> (r: Result<bool, String>)
    ensures
        match r {
            Ok(b) => excluded_by(path@, str_seq(patterns@)) == Ok::<bool, Seq<char>>(b),
            Err(m) => excluded_by(path@, str_seq(patterns@)) == Err::<bool, Seq<char>>(m@),
        },
{
    let ghost pv = str_seq(patterns@);
    let mut i: usize = 0;
    assert(pv.take(0) =~= Seq::<Seq<char>>::empty());
    while i < patterns.len()
        invariant
            i <= patterns@.len(), pv == str_seq(patterns@),
            excluded_by(path@, pv.take(i as int)) == Ok::<bool, Seq<char>>(false),
        decreases patterns.len() - i,
    {
        assert(pv.take(i + 1).drop_last() =~= pv.take(i as int));
        assert(pv.take(i + 1).last() == patterns@[i as int]@);
        match regex_is_match(patterns[i].as_str(), path) {
            Some(true) => {
                proof { lemma_excluded_prefix(path@, pv, i + 1); }
                return Ok(true);
            },
            Some(false) => {},
            None => {
                proof { lemma_excluded_prefix(path@, pv, i + 1); }
                return match regex_error(patterns[i].as_str()) {
                    Some(m) => Err(m),
                    None => Err(String::new()),
                };
            },
        }
        i = i + 1;
    }
    assert(pv.take(pv.len() as int) =~= pv);
    Ok(false)
}

/// The digits of a number in decimal, without leading zeros.
pub open spec fn decimal_digits(n: nat) -> Seq<char>
    decreases n,
{
    if n < 10 {
        seq![(('0' as u32) + n) as char]
    } else {
        decimal_digits(n / 10).push((('0' as u32) + n % 10) as char)
    }
}

fn digit_char(d: u8) -> (c: char)
    requires
        d < 10,
    ensures
        c == (('0' as u32) + d) as char,
{
    let v: u8 = 48 + d;
    v as char
}

/// A byte in decimal.
pub fn decimal_text(n: u8) -> (r: String)
    ensures
        r@ == decimal_digits(n as nat),
{
    let mut cs: Vec<char> = Vec::new();
    if n >= 100 {
        cs.push(digit_char(n / 100));
        cs.push(digit_char((n / 10) % 10));
        cs.push(digit_char(n % 10));
        proof {
            let a = n as nat;
            let b = (n / 10) as nat;
            let c = (n / 100) as nat;
            assert(a / 10 == b);
            assert(b / 10 == c);
            assert(b >= 10 && c < 10);
            assert(decimal_digits(c) =~= seq![(('0' as u32) + c) as char]);
            assert(decimal_digits(b) =~= decimal_digits(c).push((('0' as u32) + b % 10) as char));
            assert(decimal_digits(a) =~= decimal_digits(b).push((('0' as u32) + a % 10) as char));
        }
        assert(cs@ =~= decimal_digits(n as nat));
    } else if n >= 10 {
        cs.push(digit_char(n / 10));
        cs.push(digit_char(n % 10));
        proof {
            let a = n as nat;
            let b = (n / 10) as nat;
            assert(a / 10 == b && b < 10);
            assert(decimal_digits(b) =~= seq![(('0' as u32) + b) as char]);
            assert(decimal_digits(a) =~= decimal_digits(b).push((('0' as u32) + a % 10) as char));
        }
        assert(cs@ =~= decimal_digits(n as nat));
    } else {
        cs.push(digit_char(n));
        assert(cs@ =~= decimal_digits(n as nat));
    }
    crate::strings::from_chars(cs.as_slice())
}

/// The plugins that take a `floatPrecision` parameter.
pub open spec fn precision_plugins() -> Seq<Seq<char>> {
    seq!["cleanupNumericValues"@, "cleanupListOfValues"@, "convertPathData"@, "convertTransform"@]
}

/// Whether the members `m2` are `m` with `key` set to `v`: an existing
/// member takes the value in its place, a new one goes last.
pub open spec fn member_set(m: Seq<(String, Value)>, m2: Seq<(String, Value)>, key: Seq<char>, v: Value) -> bool {
    let i = member_index(m, key);
    if i >= 0 {
        m2 == m.update(i, (m[i].0, v))
    } else {
        m2.len() == m.len() + 1 && m2.take(m.len() as int) == m && m2.last().0@ == key && m2.last().1 == v
    }
}

/// Whether a value is the number `n`.
pub open spec fn is_number(v: Value, n: u8) -> bool {
    v matches Value::Number(s) && s@ == decimal_digits(n as nat)
}

/// Whether `new` is `old` after the precision override: a plugin that
/// takes `floatPrecision` gets it in its object parameters (an object is
/// made where there are none); other plugins, and parameters that are no
/// object, stay as they are.
pub open spec fn precision_applied(old: PluginConfig, new: PluginConfig, precision: u8) -> bool {
    if precision_plugins().contains(old.name@) {
        &&& new.name == old.name
        &&& new.enabled == old.enabled
        &&& match old.params {
            None => new.params matches Some(Value::Object(m2)) && member_set(Seq::empty(), m2@, "floatPrecision"@, m2@.last().1)
                && is_number(m2@.last().1, precision),
            Some(Value::Object(m)) => new.params matches Some(Value::Object(m2)) && m2@.len() > 0
                && member_set(m@, m2@, "floatPrecision"@, value_at(m2@, member_index(m@, "floatPrecision"@)))
                && is_number(value_at(m2@, member_index(m@, "floatPrecision"@)), precision),
            Some(other) => new.params == Some(other),
        }
    } else {
        new == old
    }
}

/// The value of the member at `i`, or of the last member when `i` is
/// negative.
pub open spec fn value_at(m: Seq<(String, Value)>, i: int) -> Value {
    if i >= 0 { m[i].1 } else { m.last().1 }
}

fn is_precision_plugin(name: &str) -> (r: bool)
    ensures
        r == precision_plugins().contains(name@),
{
    let mut names: Vec<String> = Vec::new();
    names.push(owned("cleanupNumericValues"));
    names.push(owned("cleanupListOfValues"));
    names.push(owned("convertPathData"));
    names.push(owned("convertTransform"));
    assert(names@.map_values(|x: String| x@) =~= precision_plugins());
    crate::strings::contains_string(&names, name)
}

/// Sets the member `key` of an object to `v`.
fn set_member(m: &mut Vec<(String, Value)>, key: &str, v: Value)
    ensures
        member_set(old(m)@, final(m)@, key@, v),
{
    proof { crate::value::lemma_member_index(m@, key@); }
    let mut i: usize = 0;
    while i < m.len()
        invariant
            i <= m@.len(), m@ == old(m)@,
            forall|j: int| 0 <= j < i ==> m@[j].0@ != key@,
            -1 <= member_index(m@, key@) < m@.len(),
            member_index(m@, key@) >= 0 ==> m@[member_index(m@, key@)].0@ == key@,
            member_index(m@, key@) >= 0 ==> forall|j: int| 0 <= j < member_index(m@, key@) ==> m@[j].0@ != key@,
            member_index(m@, key@) < 0 ==> forall|j: int| 0 <= j < m@.len() ==> m@[j].0@ != key@,
        decreases m.len() - i,
    {
        if str_eq(m[i].0.as_str(), key) {
            let ghost k = member_index(m@, key@);
            proof {
                if k < 0 { assert(m@[i as int].0@ != key@); }
                if k >= 0 && k < i { assert(m@[k].0@ != key@); }
                if k > i { assert(m@[i as int].0@ != key@); }
            }
            let name = m[i].0.clone();
            m.set(i, (name, v));
            return;
        }
        i = i + 1;
    }
    proof {
        let k = member_index(m@, key@);
        if k >= 0 { assert(m@[k].0@ == key@); }
    }
    m.push((owned(key), v));
    assert(m@.take(old(m)@.len() as int) =~= old(m)@);
}

/// Gives every plugin that takes a `floatPrecision` parameter the
/// precision asked for on the command line.
pub fn apply_precision_override(config: &mut Config, precision: u8)
    ensures
        final(config).plugins@.len() == old(config).plugins@.len(),
        forall|i: int| 0 <= i < old(config).plugins@.len() ==>
            precision_applied(#[trigger] old(config).plugins@[i], final(config).plugins@[i], precision),
        final(config).js2svg == old(config).js2svg,
        final(config).multipass == old(config).multipass,
        final(config).datauri == old(config).datauri,
        final(config).path == old(config).path,
{
    let mut old_p: Vec<PluginConfig> = Vec::new();
    std::mem::swap(&mut old_p, &mut config.plugins);
    let ghost orig = old_p@;
    let n = old_p.len();
    let mut i: usize = 0;
    while i < n
        invariant
            n == orig.len(), i <= n,
            orig == old(config).plugins@,
            old_p@ == orig.subrange(i as int, n as int),
            config.plugins@.len() == i,
            forall|k: int| 0 <= k < i ==> precision_applied(#[trigger] orig[k], config.plugins@[k], precision),
            config.js2svg == old(config).js2svg,
            config.multipass == old(config).multipass,
            config.datauri == old(config).datauri,
            config.path == old(config).path,
        decreases n - i,
    {
        let mut p = old_p.remove(0);
        assert(p == orig[i as int]);
        let ghost p0 = p;
        if is_precision_plugin(p.name.as_str()) {
            let number = Value::Number(decimal_text(precision));
            assert(is_number(number, precision));
            match p.params {
                None => {
                    let mut m: Vec<(String, Value)> = Vec::new();
                    let ghost m0 = m@;
                    set_member(&mut m, "floatPrecision", number);
                    assert(m0 =~= Seq::<(String, Value)>::empty());
                    assert(m@.last().1 == number);
                    p.params = Some(Value::Object(m));
                },
                Some(Value::Object(mut m)) => {
                    let ghost m0 = m@;
                    set_member(&mut m, "floatPrecision", number);
                    proof {
                        crate::value::lemma_member_index(m0, "floatPrecision"@);
                        assert(value_at(m@, member_index(m0, "floatPrecision"@)) == number);
                    }
                    p.params = Some(Value::Object(m));
                },
                Some(other) => {
                    p.params = Some(other);
                },
            }
        }
        assert(precision_applied(p0, p, precision));
        config.plugins.push(p);
        i = i + 1;
    }
}

/// The changes that the command-line options make to a configuration.
#[derive(Debug)]
pub struct CliOverrides {
    /// Pretty-print the output.
    pub pretty: bool,
    /// The indentation of pretty output.
    pub indent: Option<usize>,
    /// The line ending: `lf` or `crlf`.
    pub eol: Option<String>,
    /// End the output with a line break.
    pub final_newline: bool,
    /// Run the plugins until nothing changes.
    pub multipass: bool,
    /// The precision given to the plugins that round numbers.
    pub precision: Option<u8>,
    /// The data URI format: `base64`, `enc` or `unenc`.
    pub datauri: Option<String>,
    /// Plugins to disable.
    pub disable: Vec<String>,
    /// Plugins to enable, added where missing.
    pub enable: Vec<String>,
}

/// Whether the options name a known line ending and data URI format.
pub open spec fn overrides_valid(o: CliOverrides) -> bool {
    &&& (o.eol matches Some(e) ==> (e@ == "lf"@ || e@ == "crlf"@))
    &&& (o.datauri matches Some(d) ==> (d@ == "base64"@ || d@ == "enc"@ || d@ == "unenc"@))
}

/// The plugins with the first one named `name` enabled or disabled.
pub open spec fn with_enabled(p: Seq<PluginConfig>, name: Seq<char>, enabled: bool) -> Seq<PluginConfig> {
    let i = plugin_index(p, name);
    if i >= 0 {
        p.update(i, PluginConfig { name: p[i].name, params: p[i].params, enabled })
    } else {
        p
    }
}

/// The plugins after the named ones are disabled, in turn.
pub open spec fn all_disabled(p: Seq<PluginConfig>, names: Seq<String>) -> Seq<PluginConfig>
    decreases names.len(),
{
    if names.len() == 0 { p } else { with_enabled(all_disabled(p, names.drop_last()), names.last()@, false) }
}

/// The plugins after the named ones are enabled, in turn; a missing one is
/// added, enabled and without parameters.
pub open spec fn all_enabled(p: Seq<PluginConfig>, names: Seq<String>) -> Seq<PluginConfig>
    decreases names.len(),
{
    if names.len() == 0 {
        p
    } else {
        let q = all_enabled(p, names.drop_last());
        if plugin_index(q, names.last()@) < 0 {
            q.push(PluginConfig { name: names.last(), params: None, enabled: true })
        } else {
            with_enabled(q, names.last()@, true)
        }
    }
}

/// Whether `new` is `old` after the options: the switches turn settings on,
/// the values replace them, the precision goes to the plugins that take
/// it, then the named plugins are disabled, then the others enabled.
pub open spec fn overrides_applied(old: Config, new: Config, o: CliOverrides) -> bool {
    &&& new.js2svg.pretty == (old.js2svg.pretty || o.pretty)
    &&& new.js2svg.indent == (match o.indent { Some(i) => i, None => old.js2svg.indent })
    &&& new.js2svg.eol == (match o.eol {
        Some(e) => if e@ == "lf"@ { LineEnding::Lf } else { LineEnding::Crlf },
        None => old.js2svg.eol,
    })
    &&& new.js2svg.final_newline == (old.js2svg.final_newline || o.final_newline)
    &&& new.js2svg.self_closing == old.js2svg.self_closing
    &&& new.js2svg.quote_attrs == old.js2svg.quote_attrs
    &&& new.multipass == (old.multipass || o.multipass)
    &&& new.datauri == (match o.datauri {
        Some(d) => Some(if d@ == "base64"@ { DataUriFormat::Base64 } else if d@ == "enc"@ { DataUriFormat::Enc } else { DataUriFormat::Unenc }),
        None => old.datauri,
    })
    &&& new.path == old.path
    &&& exists|mid: Seq<PluginConfig>| {
        &&& mid.len() == old.plugins@.len()
        &&& (forall|i: int| 0 <= i < mid.len() ==> match o.precision {
            Some(pr) => precision_applied(#[trigger] old.plugins@[i], mid[i], pr),
            None => mid[i] == old.plugins@[i],
        })
        &&& new.plugins@ == all_enabled(all_disabled(mid, o.disable@), o.enable@)
    }
}

/// Changes a configuration as the command-line options say.
#[verifier::spinoff_prover]
#[verifier::rlimit(30)]
pub fn apply_cli_overrides(config: &mut Config, o: &CliOverrides)
    requires
        overrides_valid(*o),
    ensures
        overrides_applied(*old(config), *final(config), *o),
{
    let ghost c0 = *config;
    if o.pretty {
        config.js2svg.pretty = true;
    }
    if let Some(indent) = o.indent {
        config.js2svg.indent = indent;
    }
    if let Some(eol) = &o.eol {
        config.js2svg.eol = if str_eq(eol.as_str(), "lf") { LineEnding::Lf } else { LineEnding::Crlf };
    }
    if o.final_newline {
        config.js2svg.final_newline = true;
    }
    if o.multipass {
        config.multipass = true;
    }
    if let Some(precision) = o.precision {
        apply_precision_override(config, precision);
    }
    let ghost mid = config.plugins@;
    assert(forall|i: int| 0 <= i < mid.len() ==> match o.precision {
        Some(pr) => precision_applied(#[trigger] c0.plugins@[i], mid[i], pr),
        None => mid[i] == c0.plugins@[i],
    });
    if let Some(d) = &o.datauri {
        config.datauri = Some(if str_eq(d.as_str(), "base64") {
            DataUriFormat::Base64
        } else if str_eq(d.as_str(), "enc") {
            DataUriFormat::Enc
        } else {
            DataUriFormat::Unenc
        });
    }
    let ghost c1 = *config;
    let mut i: usize = 0;
    assert(o.disable@.take(0) =~= Seq::<String>::empty());
    while i < o.disable.len()
        invariant
            i <= o.disable@.len(),
            config.plugins@ == all_disabled(mid, o.disable@.take(i as int)),
            config.js2svg == c1.js2svg, config.multipass == c1.multipass,
            config.datauri == c1.datauri, config.path == c1.path,
        decreases o.disable.len() - i,
    {
        assert(o.disable@.take(i + 1).drop_last() =~= o.disable@.take(i as int));
        config.set_plugin_enabled(o.disable[i].as_str(), false);
        i = i + 1;
    }
    assert(o.disable@.take(o.disable@.len() as int) =~= o.disable@);
    let ghost dis = config.plugins@;
    let mut k: usize = 0;
    assert(o.enable@.take(0) =~= Seq::<String>::empty());
    while k < o.enable.len()
        invariant
            k <= o.enable@.len(),
            config.plugins@ == all_enabled(dis, o.enable@.take(k as int)),
            config.js2svg == c1.js2svg, config.multipass == c1.multipass,
            config.datauri == c1.datauri, config.path == c1.path,
        decreases o.enable.len() - k,
    {
        assert(o.enable@.take(k + 1).drop_last() =~= o.enable@.take(k as int));
        let name = &o.enable[k];
        if config.get_plugin(name.as_str()).is_none() {
            config.add_plugin(PluginConfig::new(name.clone()));
        } else {
            config.set_plugin_enabled(name.as_str(), true);
        }
        k = k + 1;
    }
    assert(o.enable@.take(o.enable@.len() as int) =~= o.enable@);
}

} // verus!
