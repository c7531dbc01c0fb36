use svgn::ast::{Document, Element, Node};
use svgn::plugin::{Plugin, PluginInfo};
use svgn::plugins::remove_editors_ns_data::{RemoveEditorsNSDataConfig, RemoveEditorsNSDataPlugin};
use svgn::value::Value;

fn elem(name: &str, attrs: &[(&str, &str)]) -> Element {
    let mut e = Element::new(name);
    for (k, v) in attrs {
        e.attributes.insert(k.to_string(), v.to_string());
    }
    e
}

#[test]
fn remove_editors_ns_data_test_plugin_creation() {
    let plugin = RemoveEditorsNSDataPlugin::new();
    assert_eq!(plugin.name(), "removeEditorsNSData");
    assert_eq!(plugin.description(), "removes editors namespaces, elements and attributes");
}

#[test]
fn test_collect_editor_prefixes() {
    let plugin = RemoveEditorsNSDataPlugin::new();
    let config = RemoveEditorsNSDataConfig::default();
    let mut svg_element = elem("svg", &[
        ("xmlns:sodipodi", "http://sodipodi.sourceforge.net/DTD/sodipodi-0.dtd"),
        ("xmlns:inkscape", "http://www.inkscape.org/namespaces/inkscape"),
        ("xmlns:normal", "http://normal.namespace"),
    ]);
    let prefixes = plugin.collect_editor_prefixes(&mut svg_element, &config);
    assert!(prefixes.contains(&"sodipodi".to_string()));
    assert!(prefixes.contains(&"inkscape".to_string()));
    assert!(!prefixes.contains(&"normal".to_string()));
    assert!(!svg_element.attributes.contains_key("xmlns:sodipodi"));
    assert!(!svg_element.attributes.contains_key("xmlns:inkscape"));
    assert!(svg_element.attributes.contains_key("xmlns:normal"));
}

#[test]
fn test_remove_editor_attributes() {
    let plugin = RemoveEditorsNSDataPlugin::new();
    let prefixes = vec!["sodipodi".to_string(), "inkscape".to_string()];
    let mut element = elem("path", &[
        ("d", "M0,0 L10,10"),
        ("sodipodi:nodetypes", "cc"),
        ("inkscape:connector-curvature", "0"),
        ("fill", "red"),
    ]);
    plugin.remove_editor_attributes(&mut element, &prefixes);
    assert!(!element.attributes.contains_key("sodipodi:nodetypes"));
    assert!(!element.attributes.contains_key("inkscape:connector-curvature"));
    assert!(element.attributes.contains_key("d"));
    assert!(element.attributes.contains_key("fill"));
}

#[test]
fn test_should_remove_element() {
    let plugin = RemoveEditorsNSDataPlugin::new();
    let prefixes = vec!["sodipodi".to_string()];
    assert!(plugin.should_remove_element(&Element::new("sodipodi:namedview"), &prefixes));
    assert!(!plugin.should_remove_element(&Element::new("path"), &prefixes));
}

#[test]
fn test_apply_removes_editor_content() {
    let mut plugin = RemoveEditorsNSDataPlugin::new();
    let mut doc = Document::new();
    doc.root.attributes.insert("xmlns:sodipodi".to_string(), "http://sodipodi.sourceforge.net/DTD/sodipodi-0.dtd".to_string());
    doc.root.children.push(Node::Element(Element::new("sodipodi:namedview")));
    doc.root.children.push(Node::Element(elem("path", &[("d", "M0,0 L10,10"), ("sodipodi:nodetypes", "cc")])));
    assert!(plugin.apply(&mut doc, &PluginInfo::default(), None).is_ok());
    assert!(!doc.root.attributes.contains_key("xmlns:sodipodi"));
    assert_eq!(doc.root.children.len(), 1);
    if let Node::Element(path) = &doc.root.children[0] {
        assert_eq!(path.name, "path");
        assert!(path.attributes.contains_key("d"));
        assert!(!path.attributes.contains_key("sodipodi:nodetypes"));
    } else {
        panic!("Expected path element");
    }
}

#[test]
fn test_apply_with_additional_namespaces() {
    let mut plugin = RemoveEditorsNSDataPlugin::new();
    let mut doc = Document::new();
    doc.root.attributes.insert("xmlns:custom".to_string(), "http://custom.editor/ns".to_string());
    doc.root.children.push(Node::Element(Element::new("custom:element")));
    let config = Value::Object(vec![(
        "additionalNamespaces".to_string(),
        Value::Array(vec![Value::String("http://custom.editor/ns".to_string())]),
    )]);
    assert!(plugin.apply(&mut doc, &PluginInfo::default(), Some(&config)).is_ok());
    assert!(!doc.root.attributes.contains_key("xmlns:custom"));
    assert_eq!(doc.root.children.len(), 0);
}

#[test]
fn test_apply_preserves_normal_content() {
    let mut plugin = RemoveEditorsNSDataPlugin::new();
    let mut doc = Document::new();
    doc.root.children.push(Node::Element(elem("rect", &[("x", "10"), ("y", "10"), ("width", "100"), ("height", "100")])));
    assert!(plugin.apply(&mut doc, &PluginInfo::default(), None).is_ok());
    assert_eq!(doc.root.children.len(), 1);
    if let Node::Element(rect) = &doc.root.children[0] {
        assert_eq!(rect.name, "rect");
        assert_eq!(rect.attributes.len(), 4);
    } else {
        panic!("Expected rect element");
    }
}
