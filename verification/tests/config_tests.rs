use svgn::config::{config_format, Config, ConfigFormat, DataUriFormat, LineEnding, QuoteAttrsStyle};
use svgn::plugin::PluginConfig;

#[test]
fn test_default_config() {
    let config = Config::new();
    assert!(config.plugins.is_empty());
    assert!(!config.multipass);
    assert!(!config.js2svg.pretty);
    assert_eq!(config.js2svg.indent, 2);
}

#[test]
fn test_plugin_management() {
    let mut config = Config::new();

    config.add_plugin(PluginConfig::new("test".to_string()));
    assert_eq!(config.plugins.len(), 1);
    assert!(config.get_plugin("test").is_some());

    config.set_plugin_enabled("test", false);
    assert!(!config.get_plugin("test").unwrap().enabled);

    config.remove_plugin("test");
    assert_eq!(config.plugins.len(), 0);
}

#[test]
fn test_default_preset() {
    let config = Config::with_default_preset();
    assert!(!config.plugins.is_empty());
    assert!(config.get_plugin("removeComments").is_some());
    assert!(config.get_plugin("removeMetadata").is_some());
}

#[test]
fn test_default_preset_order() {
    let config = Config::with_default_preset();
    assert_eq!(config.plugins.len(), 21);
    assert_eq!(config.plugins[0].name, "removeComments");
    assert_eq!(config.plugins[20].name, "sortAttrs");
    assert!(config.plugins.iter().all(|p| p.enabled && p.params.is_none()));
}

#[test]
fn test_remove_plugin_removes_all_with_name() {
    let mut config = Config::new();
    config.add_plugin(PluginConfig::new("a".to_string()));
    config.add_plugin(PluginConfig::new("b".to_string()));
    config.add_plugin(PluginConfig::new("a".to_string()));
    config.remove_plugin("a");
    assert_eq!(config.plugins.len(), 1);
    assert_eq!(config.plugins[0].name, "b");
    assert!(config.get_plugin("a").is_none());
}

#[test]
fn test_get_plugin_first_match() {
    let mut config = Config::new();
    config.add_plugin(PluginConfig::new("a".to_string()).disabled());
    config.add_plugin(PluginConfig::new("a".to_string()));
    assert!(!config.get_plugin("a").unwrap().enabled);
    config.get_plugin_mut("a").unwrap().enabled = true;
    assert!(config.plugins[0].enabled);
}

#[test]
fn test_set_plugin_enabled_missing() {
    let mut config = Config::new();
    config.add_plugin(PluginConfig::new("a".to_string()));
    config.set_plugin_enabled("missing", false);
    assert!(config.plugins[0].enabled);
}

#[test]
fn test_line_ending_and_defaults() {
    assert_eq!(LineEnding::Lf.as_str(), "\n");
    assert_eq!(LineEnding::Crlf.as_str(), "\r\n");
    let config = Config::default();
    assert_eq!(config.js2svg.quote_attrs, QuoteAttrsStyle::Auto);
    assert!(config.js2svg.self_closing);
    assert!(config.parser.preserve_comments);
    assert!(!config.parser.preserve_whitespace);
    assert!(config.datauri.is_none());
    let f = DataUriFormat::Enc;
    assert_eq!(f, DataUriFormat::Enc);
}

#[test]
fn config_format_follows_extension() {
    assert_eq!(config_format(Some("json")), ConfigFormat::Json);
    assert_eq!(config_format(Some("toml")), ConfigFormat::Toml);
    assert_eq!(config_format(Some("js")), ConfigFormat::Script);
    assert_eq!(config_format(Some("cjs")), ConfigFormat::Script);
    assert_eq!(config_format(Some("mjs")), ConfigFormat::Script);
    assert_eq!(config_format(Some("JSON")), ConfigFormat::Unknown);
    assert_eq!(config_format(Some("yaml")), ConfigFormat::Unknown);
    assert_eq!(config_format(None), ConfigFormat::Unknown);
}

#[test]
fn config_file_names_in_preference_order() {
    let names = svgn::config::config_file_names();
    assert_eq!(names, vec![
        "svgn.config.toml",
        "svgn.config.json",
        "svgo.config.json",
        "svgo.config.js",
        "svgo.config.cjs",
        "svgo.config.mjs",
    ]);
}

#[test]
fn test_plugin_config() {
    let config = PluginConfig::new("test".to_string());
    assert_eq!(config.name, "test");
    assert!(config.enabled);
    assert!(config.params.is_none());

    let config_with_params = PluginConfig::with_params(
        "test".to_string(),
        svgn::value::Value::Object(vec![("option".to_string(), svgn::value::Value::String("value".to_string()))]),
    );
    assert!(config_with_params.params.is_some());

    let disabled_config = PluginConfig::new("test".to_string()).disabled();
    assert!(!disabled_config.enabled);
}
