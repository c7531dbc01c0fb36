use svgn::ast::{Document, Element, Node};
use svgn::plugin::{Plugin, PluginInfo};
use svgn::plugins::remove_deprecated_attrs::RemoveDeprecatedAttrsPlugin;
use svgn::value::Value;

fn unsafe_params() -> Value {
    Value::Object(vec![("removeUnsafe".to_string(), Value::Bool(true))])
}

fn create_test_document() -> Document {
    let mut doc = Document::default();
    let mut svg = Element::new("svg");
    svg.attributes.insert("xml:lang".to_string(), "en".to_string());
    svg.attributes.insert("lang".to_string(), "en".to_string());
    svg.attributes.insert("xml:space".to_string(), "preserve".to_string());
    let mut rect = Element::new("rect");
    rect.attributes.insert("x".to_string(), "0".to_string());
    rect.attributes.insert("y".to_string(), "0".to_string());
    rect.attributes.insert("width".to_string(), "100".to_string());
    rect.attributes.insert("height".to_string(), "100".to_string());
    rect.attributes.insert("enable-background".to_string(), "new".to_string());
    rect.attributes.insert("clip".to_string(), "rect(0 0 100 100)".to_string());
    svg.children.push(Node::Element(rect));
    doc.root = svg;
    doc
}

#[test]
fn test_remove_xml_lang_when_lang_exists() {
    let mut doc = create_test_document();
    let mut plugin = RemoveDeprecatedAttrsPlugin;
    plugin.apply(&mut doc, &PluginInfo::default(), None).unwrap();
    assert_eq!(doc.root.attributes.get("xml:lang"), None);
    assert_eq!(doc.root.attributes.get("lang"), Some(&"en".to_string()));
    assert_eq!(doc.root.attributes.get("xml:space"), Some(&"preserve".to_string()));
}

#[test]
fn test_remove_unsafe_attributes() {
    let mut doc = create_test_document();
    let mut plugin = RemoveDeprecatedAttrsPlugin;
    plugin.apply(&mut doc, &PluginInfo::default(), Some(&unsafe_params())).unwrap();
    assert_eq!(doc.root.attributes.get("xml:space"), None);
    if let Some(Node::Element(ref rect)) = doc.root.children.first() {
        assert_eq!(rect.attributes.get("enable-background"), None);
        assert_eq!(rect.attributes.get("clip"), None);
        assert_eq!(rect.attributes.get("width"), Some(&"100".to_string()));
    }
}

#[test]
fn test_keep_xml_lang_without_lang() {
    let mut doc = Document::default();
    let mut svg = Element::new("svg");
    svg.attributes.insert("xml:lang".to_string(), "en".to_string());
    doc.root = svg;
    let mut plugin = RemoveDeprecatedAttrsPlugin;
    plugin.apply(&mut doc, &PluginInfo::default(), None).unwrap();
    assert_eq!(doc.root.attributes.get("xml:lang"), Some(&"en".to_string()));
}

#[test]
fn test_animation_attribute_target() {
    let mut doc = Document::default();
    let mut svg = Element::new("svg");
    let mut animate = Element::new("animate");
    animate.attributes.insert("attributeType".to_string(), "XML".to_string());
    animate.attributes.insert("attributeName".to_string(), "x".to_string());
    svg.children.push(Node::Element(animate));
    doc.root = svg;
    let mut plugin = RemoveDeprecatedAttrsPlugin;
    plugin.apply(&mut doc, &PluginInfo::default(), Some(&unsafe_params())).unwrap();
    if let Some(Node::Element(ref animate)) = doc.root.children.first() {
        assert_eq!(animate.attributes.get("attributeType"), None);
        assert_eq!(animate.attributes.get("attributeName"), Some(&"x".to_string()));
    }
}

#[test]
fn test_remove_deprecated_bad_param_and_unknown_element() {
    let mut doc = Document::default();
    let mut plugin = RemoveDeprecatedAttrsPlugin;
    let bad = Value::Object(vec![("removeUnsafe".to_string(), Value::String("yes".to_string()))]);
    assert!(plugin.apply(&mut doc, &PluginInfo::default(), Some(&bad)).is_err());
    let mut other = Element::new("foo");
    other.attributes.insert("xml:lang".to_string(), "en".to_string());
    other.attributes.insert("lang".to_string(), "en".to_string());
    doc.root = other;
    plugin.apply(&mut doc, &PluginInfo::default(), Some(&unsafe_params())).unwrap();
    assert_eq!(doc.root.attributes.len(), 2);
}
