//! The plugin interface, plugin configurations and the registry that applies
//! a list of configured plugins to a document.

use vstd::prelude::*;
use crate::ast::Document;
use crate::value::Value;

verus! {

/// Why a plugin could not do its work.
#[derive(Debug)]
pub enum PluginError {
    /// Invalid configuration parameter.
    InvalidConfig(String),
    /// Processing error.
    ProcessingError(String),
    /// I/O error, by its message.
    IoError(String),
}

/// Result of a plugin operation.
pub type PluginResult<T> = Result<T, PluginError>;

/// Information handed to plugins during optimization.
#[derive(Debug)]
pub struct PluginInfo {
    /// Path of the current SVG file, if known.
    pub path: Option<String>,
    /// Current pass of a multi-pass run, counted from 0.
    pub multipass_count: usize,
}

impl Default for PluginInfo {
    fn default() -> (r: PluginInfo)
        ensures
            r.path is None,
            r.multipass_count == 0,
    {
        PluginInfo { path: None, multipass_count: 0 }
    }
}

/// The interface of an optimization plugin.
pub trait Plugin {
    /// The plugin's name, unique among plugins.
    fn name(&self) -> &'static str;

    /// A one-line description.
    fn description(&self) -> &'static str;

    /// Applies the plugin to a document.
    fn apply(&mut self, document: &mut Document, plugin_info: &PluginInfo, params: Option<&Value>) -> PluginResult<()>;

    /// Whether the plugin should be applied to the document: by default,
    /// always.
    fn should_apply(&self, document: &Document, plugin_info: &PluginInfo, params: Option<&Value>) -> (r: bool)
        default_ensures
            r,
    {
        true
    }

    /// Checks the plugin's parameters: by default, any parameters are
    /// accepted.
    fn validate_params(&self, params: Option<&Value>) -> (r: PluginResult<()>)
        default_ensures
            r is Ok,
    {
        Ok(())
    }
}

/// A configured plugin: its name, parameters and whether it runs.
#[derive(Debug)]
pub struct PluginConfig {
    /// Plugin name.
    pub name: String,
    /// Plugin parameters.
    pub params: Option<Value>,
    /// Whether the plugin is enabled.
    pub enabled: bool,
}

impl PluginConfig {
    /// An enabled configuration without parameters.
    pub fn new(name: String) -> (r: PluginConfig)
        ensures
            r.name == name,
            r.params is None,
            r.enabled,
    {
        PluginConfig { name, params: None, enabled: true }
    }

    /// An enabled configuration with parameters.
    pub fn with_params(name: String, params: Value) -> (r: PluginConfig)
        ensures
            r.name@ == name@,
            r.params == Some(params),
            r.enabled,
    {
        PluginConfig { name, params: Some(params), enabled: true }
    }

    /// The same configuration, disabled.
    pub fn disabled(self) -> (r: PluginConfig)
        ensures
            r.name == self.name,
            r.params == self.params,
            !r.enabled,
    {
        let mut c = self;
        c.enabled = false;
        c
    }
}

/// What a run of configured plugins does with the configuration at a given
/// index.
#[derive(Debug)]
pub enum RegistryStep {
    /// No configuration is left.
    Finished,
    /// The configuration is disabled.
    Skip,
    /// No plugin has the configured name: the run stops with this message.
    Unknown(String),
    /// The plugin at this index of the registry runs.
    Run(usize),
}

/// The message of the error for a configuration that names no registered
/// plugin.
pub open spec fn unknown_plugin_message(name: Seq<char>) -> Seq<char> {
    "Unknown plugin: "@ + name
}

/// The index of the first of `names` equal to `n`, or `-1`.
pub open spec fn name_index(names: Seq<Seq<char>>, n: Seq<char>) -> int
    decreases names.len(),
{
    if names.len() == 0 {
        -1
    } else {
        let r = name_index(names.drop_last(), n);
        if r >= 0 { r } else if names.last() == n { names.len() - 1 } else { -1 }
    }
}

proof fn lemma_name_index_prefix(names: Seq<Seq<char>>, k: int, n: Seq<char>)
    requires
        0 <= k <= names.len(),
        name_index(names.take(k), n) >= 0,
    ensures
        name_index(names, n) == name_index(names.take(k), n),
    decreases names.len() - k,
{
    if k < names.len() {
        assert(names.take(k + 1).drop_last() =~= names.take(k));
        lemma_name_index_prefix(names, k + 1, n);
    } else {
        assert(names.take(k) =~= names);
    }
}

/// What a run of configured plugins does with the configuration at
/// `index`, the registered plugins having the names `names`: past the end
/// the run is finished, a disabled configuration is skipped, and an enabled
/// one runs the first plugin of its name or stops the run when there is
/// none.
pub fn registry_step(configs: &Vec<PluginConfig>, index: usize, names: &Vec<String>) -> (r: RegistryStep)
    ensures
        index >= configs@.len() ==> r is Finished,
        index < configs@.len() && !configs@[index as int].enabled ==> r is Skip,
        index < configs@.len() && configs@[index as int].enabled ==> match r {
            RegistryStep::Run(k) => k as int == name_index(crate::strings::str_seq(names@), configs@[index as int].name@),
            RegistryStep::Unknown(m) => name_index(crate::strings::str_seq(names@), configs@[index as int].name@) < 0
                && m@ == unknown_plugin_message(configs@[index as int].name@),
            _ => false,
        },
{
    if index >= configs.len() {
        return RegistryStep::Finished;
    }
    let config = &configs[index];
    if !config.enabled {
        return RegistryStep::Skip;
    }
    let ghost nv = crate::strings::str_seq(names@);
    let mut k: usize = 0;
    assert(nv.take(0) =~= Seq::<Seq<char>>::empty());
    while k < names.len()
        invariant
            k <= names@.len(), nv == crate::strings::str_seq(names@),
            index < configs@.len(), *config == configs@[index as int], config.enabled,
            name_index(nv.take(k as int), config.name@) < 0,
        decreases names.len() - k,
    {
        assert(nv.take(k + 1).drop_last() =~= nv.take(k as int));
        if crate::strings::str_eq(names[k].as_str(), config.name.as_str()) {
            proof { lemma_name_index_prefix(nv, k + 1, config.name@); }
            return RegistryStep::Run(k);
        }
        k = k + 1;
    }
    assert(nv.take(nv.len() as int) =~= nv);
    let mut m = crate::strings::owned("Unknown plugin: ");
    m.append(config.name.as_str());
    RegistryStep::Unknown(m)
}

} // verus!

