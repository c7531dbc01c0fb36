use svgn::parser::Parser;
use svgn::plugin::{Plugin, PluginInfo};
use svgn::plugins::cleanup_attrs::CleanupAttrsPlugin;
use svgn::plugins::cleanup_enable_background::CleanupEnableBackgroundPlugin;
use svgn::value::Value;

#[test]
fn test_cleanup_newlines() {
    let svg = "<svg viewBox=\"0\n10\n20 30\">\n            <rect x=\"1\n2\" y=\"3\n4\"/>\n        </svg>";
    let mut document = Parser::new().parse(svg).unwrap();
    let mut plugin = CleanupAttrsPlugin;
    plugin.apply(&mut document, &PluginInfo::default(), None).unwrap();
    assert_eq!(document.root.attr("viewBox"), Some(&"0 10 20 30".to_string()));
    let rect = document.root.child_elements()[0];
    assert_eq!(rect.attr("x"), Some(&"1 2".to_string()));
    assert_eq!(rect.attr("y"), Some(&"3 4".to_string()));
}

#[test]
fn test_cleanup_spaces() {
    let svg = r#"<svg class="  foo    bar  ">
            <rect fill="  red  "/>
        </svg>"#;
    let mut document = Parser::new().parse(svg).unwrap();
    let mut plugin = CleanupAttrsPlugin;
    plugin.apply(&mut document, &PluginInfo::default(), None).unwrap();
    assert_eq!(document.root.attr("class"), Some(&"foo bar".to_string()));
    let rect = document.root.child_elements()[0];
    assert_eq!(rect.attr("fill"), Some(&"red".to_string()));
}

#[test]
fn test_with_params() {
    let svg = "<svg class=\"  foo    bar  \">\n            <rect x=\"1\n2\"/>\n        </svg>";
    let mut document = Parser::new().parse(svg).unwrap();
    let mut plugin = CleanupAttrsPlugin;
    let params = Value::Object(vec![
        ("newlines".to_string(), Value::Bool(false)),
        ("spaces".to_string(), Value::Bool(false)),
        ("trim".to_string(), Value::Bool(true)),
    ]);
    plugin.apply(&mut document, &PluginInfo::default(), Some(&params)).unwrap();
    assert_eq!(document.root.attr("class"), Some(&"foo    bar".to_string()));
    let rect = document.root.child_elements()[0];
    assert_eq!(rect.attr("x"), Some(&"1\n2".to_string()));
}

#[test]
fn test_cleanup_keeps_attribute_order() {
    let svg = "<svg b=\" 1 \" a=\"2\"/>";
    let mut document = Parser::new().parse(svg).unwrap();
    let mut plugin = CleanupAttrsPlugin;
    plugin.apply(&mut document, &PluginInfo::default(), None).unwrap();
    let keys: Vec<&String> = document.root.attributes.keys().collect();
    assert_eq!(keys, vec!["b", "a"]);
    assert_eq!(document.root.attr("b"), Some(&"1".to_string()));
}

fn run_background(svg: &str) -> svgn::ast::Document {
    let mut document = Parser::new().parse(svg).unwrap();
    let mut plugin = CleanupEnableBackgroundPlugin;
    plugin.apply(&mut document, &PluginInfo::default(), None).unwrap();
    document
}

#[test]
fn test_remove_without_filter() {
    let document = run_background(r#"<svg width="100" height="50" enable-background="new 0 0 100 50">
            <rect x="10" y="10" width="80" height="30"/>
        </svg>"#);
    assert!(!document.root.has_attr("enable-background"));
}

#[test]
fn test_cleanup_with_filter() {
    let document = run_background(r#"<svg width="100" height="50" enable-background="new 0 0 100 50">
            <filter id="blur">
                <feGaussianBlur stdDeviation="2"/>
            </filter>
            <rect x="10" y="10" width="80" height="30" filter="url(#blur)"/>
        </svg>"#);
    assert!(!document.root.has_attr("enable-background"));
}

#[test]
fn test_keep_non_matching() {
    let document = run_background(r#"<svg width="100" height="50" enable-background="new 0 0 200 100">
            <filter id="blur">
                <feGaussianBlur stdDeviation="2"/>
            </filter>
        </svg>"#);
    assert_eq!(document.root.attr("enable-background"), Some(&"new 0 0 200 100".to_string()));
}

#[test]
fn test_simplify_mask_pattern() {
    let document = run_background(r#"<svg>
            <filter id="f"/>
            <mask width="100" height="50" enable-background="new 0 0 100 50"/>
            <pattern width="200" height="100" enable-background="new 0 0 200 100"/>
        </svg>"#);
    let kids = document.root.child_elements();
    let mask = kids.iter().find(|e| e.name == "mask").unwrap();
    assert_eq!(mask.attr("enable-background"), Some(&"new".to_string()));
    let pattern = kids.iter().find(|e| e.name == "pattern").unwrap();
    assert_eq!(pattern.attr("enable-background"), Some(&"new".to_string()));
}
