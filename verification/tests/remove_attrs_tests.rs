use svgn::ast::{Document, Element, Node};
use svgn::plugin::{Plugin, PluginError, PluginInfo};
use svgn::plugins::remove_attrs::{CompiledPattern, RemoveAttrsParams, RemoveAttrsPlugin};
use svgn::value::Value;

fn obj(pairs: Vec<(&str, Value)>) -> Value {
    Value::Object(pairs.into_iter().map(|(k, v)| (k.to_string(), v)).collect())
}

fn s(x: &str) -> Value {
    Value::String(x.to_string())
}

fn elem(name: &str, attrs: &[(&str, &str)]) -> Element {
    let mut e = Element::new(name);
    for (k, v) in attrs {
        e.attributes.insert(k.to_string(), v.to_string());
    }
    e
}

fn run(root: Element, params: &Value) -> Document {
    let mut document = Document::new();
    document.root = root;
    let mut plugin = RemoveAttrsPlugin;
    plugin.apply(&mut document, &PluginInfo::default(), Some(params)).unwrap();
    document
}

#[test]
fn test_simple_attribute_removal() {
    let d = run(elem("rect", &[("fill", "red"), ("stroke", "blue"), ("width", "100")]), &obj(vec![("attrs", s("fill"))]));
    assert!(!d.root.has_attr("fill"));
    assert!(d.root.has_attr("stroke"));
    assert!(d.root.has_attr("width"));
}

#[test]
fn test_multiple_attribute_removal() {
    let d = run(elem("rect", &[("fill", "red"), ("stroke", "blue"), ("width", "100")]),
        &obj(vec![("attrs", Value::Array(vec![s("fill"), s("stroke")]))]));
    assert!(!d.root.has_attr("fill"));
    assert!(!d.root.has_attr("stroke"));
    assert!(d.root.has_attr("width"));
}

#[test]
fn test_regex_pattern_removal() {
    let d = run(elem("rect", &[("fill", "red"), ("stroke", "blue"), ("stroke-width", "2"), ("stroke-opacity", "0.5")]),
        &obj(vec![("attrs", s("stroke.*"))]));
    assert!(d.root.has_attr("fill"));
    assert!(!d.root.has_attr("stroke"));
    assert!(!d.root.has_attr("stroke-width"));
    assert!(!d.root.has_attr("stroke-opacity"));
}

#[test]
fn test_element_specific_removal() {
    let mut root = Element::new("svg");
    root.children.push(Node::Element(elem("circle", &[("fill", "red")])));
    root.children.push(Node::Element(elem("rect", &[("fill", "blue")])));
    let d = run(root, &obj(vec![("attrs", s("circle:fill"))]));
    if let Node::Element(circle_elem) = &d.root.children[0] {
        assert!(!circle_elem.has_attr("fill"));
    }
    if let Node::Element(rect_elem) = &d.root.children[1] {
        assert!(rect_elem.has_attr("fill"));
    }
}

#[test]
fn test_value_specific_removal() {
    let d = run(elem("rect", &[("fill", "red"), ("stroke", "blue")]), &obj(vec![("attrs", s("*:fill:red"))]));
    assert!(!d.root.has_attr("fill"));
    assert!(d.root.has_attr("stroke"));
}

#[test]
fn test_preserve_current_color() {
    let d = run(elem("rect", &[("fill", "currentColor"), ("stroke", "red")]),
        &obj(vec![("attrs", s("(fill|stroke)")), ("preserveCurrentColor", Value::Bool(true))]));
    assert!(d.root.has_attr("fill"));
    assert!(!d.root.has_attr("stroke"));
}

#[test]
fn test_preserve_current_color_case_insensitive() {
    let d = run(elem("rect", &[("fill", "currentcolor"), ("stroke", "CURRENTCOLOR")]),
        &obj(vec![("attrs", s("(fill|stroke)")), ("preserveCurrentColor", Value::Bool(true))]));
    assert!(d.root.has_attr("fill"));
    assert!(d.root.has_attr("stroke"));
}

#[test]
fn test_custom_separator() {
    let d = run(elem("rect", &[("fill", "red"), ("stroke", "blue")]),
        &obj(vec![("attrs", s("rect|fill")), ("elemSeparator", s("|"))]));
    assert!(!d.root.has_attr("fill"));
    assert!(d.root.has_attr("stroke"));
}

#[test]
fn test_no_attrs_parameter_error() {
    let mut document = Document::new();
    let mut plugin = RemoveAttrsPlugin;
    assert!(plugin.apply(&mut document, &PluginInfo::default(), None).is_err());
    assert!(plugin.apply(&mut document, &PluginInfo::default(), Some(&obj(vec![]))).is_err());
}

#[test]
fn remove_attrs_test_nested_elements() {
    let mut parent = elem("g", &[("fill", "red")]);
    parent.children.push(Node::Element(elem("rect", &[("fill", "blue"), ("stroke", "green")])));
    let d = run(parent, &obj(vec![("attrs", s("fill"))]));
    assert!(!d.root.has_attr("fill"));
    if let Node::Element(child_element) = &d.root.children[0] {
        assert!(!child_element.has_attr("fill"));
        assert!(child_element.has_attr("stroke"));
    }
}

#[test]
fn remove_attrs_test_plugin_name_and_description() {
    let plugin = RemoveAttrsPlugin;
    assert_eq!(plugin.name(), "removeAttrs");
    assert_eq!(plugin.description(), "removes specified attributes");
}

#[test]
fn test_remove_attrs_errors() {
    assert!(matches!(RemoveAttrsParams::from_value(Some(&s("x"))), Err(PluginError::InvalidConfig(m)) if m == "removeAttrs plugin parameters must be an object"));
    assert!(matches!(RemoveAttrsParams::from_value(Some(&obj(vec![("attrs", Value::Bool(true))]))), Err(PluginError::InvalidConfig(m)) if m == "attrs parameter must be a string or array of strings"));
    assert!(matches!(CompiledPattern::compile("a:b:c:d", ":"), Err(PluginError::InvalidConfig(m)) if m == "Invalid pattern format: a:b:c:d"));
    assert!(matches!(CompiledPattern::compile("(", ":"), Err(PluginError::InvalidConfig(m)) if m.starts_with("Invalid attribute regex: ")));
    let mut document = Document::new();
    let mut plugin = RemoveAttrsPlugin;
    let r = plugin.apply(&mut document, &PluginInfo::default(), Some(&obj(vec![("attrs", Value::Array(vec![]))])));
    assert!(matches!(r, Err(PluginError::InvalidConfig(m)) if m == "removeAttrs plugin requires non-empty 'attrs' parameter"));
}
