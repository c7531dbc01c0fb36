use svgn::cli::{
    apply_cli_overrides, apply_precision_override, decimal_text, determine_io_mode, is_excluded, is_svg_extension,
    CliOverrides, InputMode, OutputMode,
};
use svgn::config::{Config, DataUriFormat, LineEnding};
use svgn::plugin::{registry_step, PluginConfig, RegistryStep};
use svgn::value::Value;

fn strings(items: &[&str]) -> Vec<String> {
    items.iter().map(|s| s.to_string()).collect()
}

#[test]
fn test_string_input_goes_to_stdout() {
    let (i, o) = determine_io_mode(Some("<svg/>".to_string()), None, false, None, None, None, false).unwrap();
    assert!(matches!(i, InputMode::String(ref s) if s == "<svg/>"));
    assert!(matches!(o, OutputMode::Stdout));
}

#[test]
fn test_files_are_rewritten_in_place() {
    let (i, o) = determine_io_mode(None, None, false, Some(strings(&["a.svg", "b.svg"])), None, None, false).unwrap();
    assert!(matches!(i, InputMode::Files(ref f) if f.len() == 2));
    assert!(matches!(o, OutputMode::InPlace));
}

#[test]
fn test_dash_is_stdin() {
    let (i, o) = determine_io_mode(None, None, false, None, Some(strings(&["-"])), None, false).unwrap();
    assert!(matches!(i, InputMode::Stdin));
    assert!(matches!(o, OutputMode::Stdout));
    let (i, _) = determine_io_mode(None, None, false, None, None, None, false).unwrap();
    assert!(matches!(i, InputMode::Stdin));
}

#[test]
fn test_folder_input() {
    let (i, o) = determine_io_mode(None, Some("icons".to_string()), true, None, None, None, false).unwrap();
    assert!(matches!(i, InputMode::Folder(ref f, true) if f == "icons"));
    assert!(matches!(o, OutputMode::InPlace));
}

#[test]
fn test_output_kinds() {
    let out = |v: &[&str], dir: bool| determine_io_mode(None, None, false, Some(strings(&["a.svg"])), None, Some(strings(v)), dir);
    assert!(matches!(out(&["-"], false).unwrap().1, OutputMode::Stdout));
    assert!(matches!(out(&["out/"], false).unwrap().1, OutputMode::Directory(ref d) if d == "out/"));
    assert!(matches!(out(&["out"], true).unwrap().1, OutputMode::Directory(_)));
    assert!(matches!(out(&["x.svg"], false).unwrap().1, OutputMode::File(ref f) if f == "x.svg"));
    assert_eq!(out(&["a", "b"], false).err(), Some("Multiple output files not supported".to_string()));
}

#[test]
fn test_svg_extension() {
    assert!(is_svg_extension(Some("svg")));
    assert!(is_svg_extension(Some("SVG")));
    assert!(is_svg_extension(Some("sVg")));
    assert!(!is_svg_extension(Some("svgz")));
    assert!(!is_svg_extension(Some("png")));
    assert!(!is_svg_extension(None));
}

#[test]
fn test_exclusion_patterns() {
    assert_eq!(is_excluded("icons/a.svg", &vec![]), Ok(false));
    assert_eq!(is_excluded("icons/a.svg", &strings(&["^tmp", "icons/"])), Ok(true));
    assert_eq!(is_excluded("icons/a.svg", &strings(&["^tmp"])), Ok(false));
    assert!(is_excluded("icons/a.svg", &strings(&["("])).is_err());
    assert_eq!(is_excluded("icons/a.svg", &strings(&["icons", "("])), Ok(true));
}

#[test]
fn test_decimal_text() {
    assert_eq!(decimal_text(0), "0");
    assert_eq!(decimal_text(7), "7");
    assert_eq!(decimal_text(42), "42");
    assert_eq!(decimal_text(255), "255");
    assert_eq!(decimal_text(100), "100");
}

#[test]
fn test_precision_override() {
    let mut config = Config::new();
    config.add_plugin(PluginConfig::new("cleanupNumericValues".to_string()));
    config.add_plugin(PluginConfig::with_params(
        "convertPathData".to_string(),
        Value::Object(vec![("floatPrecision".to_string(), Value::Number("5".to_string()))]),
    ));
    config.add_plugin(PluginConfig::new("removeDesc".to_string()));
    apply_precision_override(&mut config, 2);
    match &config.plugins[0].params {
        Some(Value::Object(m)) => {
            assert_eq!(m.len(), 1);
            assert_eq!(m[0].0, "floatPrecision");
            assert!(matches!(&m[0].1, Value::Number(n) if n == "2"));
        }
        _ => panic!("expected object parameters"),
    }
    match &config.plugins[1].params {
        Some(Value::Object(m)) => {
            assert_eq!(m.len(), 1);
            assert!(matches!(&m[0].1, Value::Number(n) if n == "2"));
        }
        _ => panic!("expected object parameters"),
    }
    assert!(config.plugins[2].params.is_none());
}

#[test]
fn test_cli_overrides() {
    let mut config = Config::new();
    config.add_plugin(PluginConfig::new("removeDesc".to_string()));
    config.add_plugin(PluginConfig::new("removeComments".to_string()));
    let o = CliOverrides {
        pretty: true,
        indent: Some(4),
        eol: Some("crlf".to_string()),
        final_newline: true,
        multipass: true,
        precision: None,
        datauri: Some("enc".to_string()),
        disable: strings(&["removeDesc"]),
        enable: strings(&["removeComments", "cleanupIds"]),
    };
    apply_cli_overrides(&mut config, &o);
    assert!(config.js2svg.pretty);
    assert_eq!(config.js2svg.indent, 4);
    assert_eq!(config.js2svg.eol, LineEnding::Crlf);
    assert!(config.js2svg.final_newline);
    assert!(config.multipass);
    assert_eq!(config.datauri, Some(DataUriFormat::Enc));
    assert_eq!(config.plugins.len(), 3);
    assert!(!config.plugins[0].enabled);
    assert!(config.plugins[1].enabled);
    assert_eq!(config.plugins[2].name, "cleanupIds");
    assert!(config.plugins[2].enabled);
}

#[test]
fn test_registry_steps() {
    let configs = vec![
        PluginConfig::new("a".to_string()).disabled(),
        PluginConfig::new("b".to_string()),
        PluginConfig::new("zzz".to_string()),
    ];
    let names = strings(&["b", "a", "b"]);
    assert!(matches!(registry_step(&configs, 0, &names), RegistryStep::Skip));
    assert!(matches!(registry_step(&configs, 1, &names), RegistryStep::Run(0)));
    assert!(matches!(registry_step(&configs, 2, &names), RegistryStep::Unknown(ref m) if m == "Unknown plugin: zzz"));
    assert!(matches!(registry_step(&configs, 3, &names), RegistryStep::Finished));
}
