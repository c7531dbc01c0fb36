use svgn::ast::{Document, Element, Node};
use svgn::plugin::{Plugin, PluginInfo};
use svgn::plugins::prefix_ids::{PrefixIdsConfig, PrefixIdsPlugin};
use svgn::value::Value;

fn elem(name: &str, key: &str, value: &str) -> Element {
    let mut e = Element::new(name);
    e.attributes.insert(key.to_string(), value.to_string());
    e
}

#[test]
fn prefix_ids_test_plugin_creation() {
    let plugin = PrefixIdsPlugin::new();
    assert_eq!(plugin.name(), "prefixIds");
    assert_eq!(plugin.description(), "prefix IDs");
}

#[test]
fn test_get_basename() {
    assert_eq!(PrefixIdsPlugin::get_basename("/path/to/file.svg"), "file.svg");
    assert_eq!(PrefixIdsPlugin::get_basename("C:\\path\\to\\file.svg"), "file.svg");
    assert_eq!(PrefixIdsPlugin::get_basename("file.svg"), "file.svg");
    assert_eq!(PrefixIdsPlugin::get_basename(""), "");
}

#[test]
fn test_escape_identifier_name() {
    assert_eq!(PrefixIdsPlugin::escape_identifier_name("my file.svg"), "my_file_svg");
    assert_eq!(PrefixIdsPlugin::escape_identifier_name("normal"), "normal");
}

#[test]
fn test_generate_prefix() {
    let plugin = PrefixIdsPlugin::new();

    let config = PrefixIdsConfig {
        prefix: Some("custom".to_string()),
        delim: "__".to_string(),
        prefix_ids: true,
        prefix_class_names: true,
    };
    let info = PluginInfo::default();
    assert_eq!(plugin.generate_prefix(&config, &info), "custom__");

    let config = PrefixIdsConfig::default();
    let info = PluginInfo { path: Some("/path/to/test.svg".to_string()), ..Default::default() };
    assert_eq!(plugin.generate_prefix(&config, &info), "test_svg__");

    let config = PrefixIdsConfig::default();
    let info = PluginInfo::default();
    assert_eq!(plugin.generate_prefix(&config, &info), "prefix__");
}

#[test]
fn test_prefix_id() {
    let plugin = PrefixIdsPlugin::new();
    assert_eq!(plugin.prefix_id("test__", "myid"), "test__myid");
    assert_eq!(plugin.prefix_id("test__", "test__myid"), "test__myid");
}

#[test]
fn test_prefix_reference() {
    let plugin = PrefixIdsPlugin::new();
    assert_eq!(plugin.prefix_reference("test__", "#myid"), Some("#test__myid".to_string()));
    assert_eq!(plugin.prefix_reference("test__", "myid"), None);
}

#[test]
fn test_apply_with_ids() {
    let mut plugin = PrefixIdsPlugin::new();
    let mut doc = Document::new();
    doc.root.children.push(Node::Element(elem("rect", "id", "myId")));
    assert!(plugin.apply(&mut doc, &PluginInfo::default(), None).is_ok());
    if let Node::Element(rect) = &doc.root.children[0] {
        assert_eq!(rect.attributes.get("id"), Some(&"prefix__myId".to_string()));
    } else {
        panic!("Expected element");
    }
}

#[test]
fn test_apply_with_href() {
    let mut plugin = PrefixIdsPlugin::new();
    let mut doc = Document::new();
    doc.root.children.push(Node::Element(elem("use", "href", "#myTarget")));
    assert!(plugin.apply(&mut doc, &PluginInfo::default(), None).is_ok());
    if let Node::Element(use_elem) = &doc.root.children[0] {
        assert_eq!(use_elem.attributes.get("href"), Some(&"#prefix__myTarget".to_string()));
    } else {
        panic!("Expected element");
    }
}

#[test]
fn test_apply_with_custom_config() {
    let mut plugin = PrefixIdsPlugin::new();
    let mut doc = Document::new();
    doc.root.children.push(Node::Element(elem("rect", "id", "myId")));
    let config = Value::Object(vec![
        ("prefix".to_string(), Value::String("custom".to_string())),
        ("delim".to_string(), Value::String("_".to_string())),
    ]);
    assert!(plugin.apply(&mut doc, &PluginInfo::default(), Some(&config)).is_ok());
    if let Node::Element(rect) = &doc.root.children[0] {
        assert_eq!(rect.attributes.get("id"), Some(&"custom_myId".to_string()));
    } else {
        panic!("Expected element");
    }
}

#[test]
fn test_apply_urls_classes_and_animation() {
    let mut plugin = PrefixIdsPlugin::new();
    let mut doc = Document::new();
    let mut r = elem("rect", "fill", "url(#g) url('#h') url(\"#i\")");
    r.attributes.insert("class".to_string(), "  a   b ".to_string());
    r.attributes.insert("begin".to_string(), "x.end ; 2s;y.start".to_string());
    doc.root.children.push(Node::Element(r));
    let mut style = Element::new("style");
    style.children.push(Node::Text("#a .b { fill: url(#c) }".to_string()));
    doc.root.children.push(Node::Element(style));
    assert!(plugin.apply(&mut doc, &PluginInfo::default(), None).is_ok());
    if let Node::Element(rect) = &doc.root.children[0] {
        assert_eq!(rect.attr("fill"), Some(&"url(#prefix__g) url('#prefix__h') url(\"#prefix__i\")".to_string()));
        assert_eq!(rect.attr("class"), Some(&"prefix__a prefix__b".to_string()));
        assert_eq!(rect.attr("begin"), Some(&"prefix__x.end; 2s; prefix__y.start".to_string()));
    } else {
        panic!("Expected element");
    }
    if let Node::Element(style) = &doc.root.children[1] {
        assert!(matches!(&style.children[0], Node::Text(t) if t == "#prefix__a .prefix__b { fill: url(#prefix__c) }"));
    } else {
        panic!("Expected element");
    }
}
