use std::collections::HashSet;
use svgn::ast::{Document, Element};
use svgn::plugin::{Plugin, PluginInfo};
use svgn::plugins::add_attributes_to_svg_element::AddAttributesToSVGElementPlugin;
use svgn::plugins::add_classes_to_svg_element::{lex_less, AddClassesToSVGElementPlugin};
use svgn::value::Value;

fn obj(pairs: Vec<(&str, Value)>) -> Value {
    Value::Object(pairs.into_iter().map(|(k, v)| (k.to_string(), v)).collect())
}

fn s(x: &str) -> Value {
    Value::String(x.to_string())
}

fn info() -> PluginInfo {
    PluginInfo { path: None, multipass_count: 0 }
}

fn create_test_svg_document() -> Document {
    let mut doc = Document::new();
    let mut element = Element::new("svg");
    element.attributes.insert("width".to_string(), "100".to_string());
    element.attributes.insert("height".to_string(), "100".to_string());
    doc.root = element;
    doc
}

fn create_test_svg_document_with_classes() -> Document {
    let mut doc = Document::new();
    let mut element = Element::new("svg");
    element.attributes.insert("width".to_string(), "100".to_string());
    element.attributes.insert("class".to_string(), "existing-class".to_string());
    doc.root = element;
    doc
}

#[test]
fn test_add_single_attribute() {
    let mut plugin = AddAttributesToSVGElementPlugin;
    let mut document = create_test_svg_document();
    plugin.apply(&mut document, &info(), Some(&obj(vec![("attribute", s("focusable"))]))).unwrap();
    assert_eq!(document.root.attributes.get("focusable"), Some(&"".to_string()));
    assert_eq!(document.root.attributes.get("width"), Some(&"100".to_string()));
}

#[test]
fn test_add_multiple_attributes() {
    let mut plugin = AddAttributesToSVGElementPlugin;
    let mut document = create_test_svg_document();
    let params = obj(vec![("attributes", Value::Array(vec![s("focusable"), s("role")]))]);
    plugin.apply(&mut document, &info(), Some(&params)).unwrap();
    assert_eq!(document.root.attributes.get("focusable"), Some(&"".to_string()));
    assert_eq!(document.root.attributes.get("role"), Some(&"".to_string()));
}

#[test]
fn test_add_attributes_with_values() {
    let mut plugin = AddAttributesToSVGElementPlugin;
    let mut document = create_test_svg_document();
    let params = obj(vec![("attributes", Value::Array(vec![
        obj(vec![("focusable", Value::Bool(false))]),
        obj(vec![("data-image", s("icon"))]),
        obj(vec![("role", s("img"))]),
    ]))]);
    plugin.apply(&mut document, &info(), Some(&params)).unwrap();
    assert_eq!(document.root.attributes.get("focusable"), Some(&"false".to_string()));
    assert_eq!(document.root.attributes.get("data-image"), Some(&"icon".to_string()));
    assert_eq!(document.root.attributes.get("role"), Some(&"img".to_string()));
}

#[test]
fn test_dont_overwrite_existing_attributes() {
    let mut plugin = AddAttributesToSVGElementPlugin;
    let mut document = create_test_svg_document();
    document.root.attributes.insert("width".to_string(), "200".to_string());
    let params = obj(vec![("attributes", Value::Array(vec![obj(vec![("width", s("300"))])]))]);
    plugin.apply(&mut document, &info(), Some(&params)).unwrap();
    assert_eq!(document.root.attributes.get("width"), Some(&"200".to_string()));
}

#[test]
fn add_attributes_to_svg_element_test_non_svg_element() {
    let mut plugin = AddAttributesToSVGElementPlugin;
    let mut document = Document::new();
    document.root = Element::new("rect");
    plugin.apply(&mut document, &info(), Some(&obj(vec![("attribute", s("focusable"))]))).unwrap();
    assert_eq!(document.root.attributes.get("focusable"), None);
}

#[test]
fn add_attributes_to_svg_element_test_missing_params() {
    let mut plugin = AddAttributesToSVGElementPlugin;
    let mut document = create_test_svg_document();
    assert!(plugin.apply(&mut document, &info(), None).is_err());
}

#[test]
fn add_attributes_to_svg_element_test_invalid_params() {
    let mut plugin = AddAttributesToSVGElementPlugin;
    let mut document = create_test_svg_document();
    let result = plugin.apply(&mut document, &info(), Some(&obj(vec![("invalid", s("param"))])));
    assert!(result.is_err());
}

#[test]
fn add_attributes_to_svg_element_test_validate_params() {
    let plugin = AddAttributesToSVGElementPlugin;
    assert!(plugin.validate_params(Some(&obj(vec![("attribute", s("focusable"))]))).is_ok());
    assert!(plugin.validate_params(Some(&obj(vec![("invalid", s("param"))]))).is_err());
    assert!(plugin.validate_params(None).is_err());
}

#[test]
fn test_add_attributes_error_messages() {
    let plugin = AddAttributesToSVGElementPlugin;
    let bad = obj(vec![("attributes", s("x"))]);
    assert!(matches!(plugin.validate_params(Some(&bad)), Err(svgn::plugin::PluginError::InvalidConfig(m)) if m == "attributes parameter must be an array"));
    let two = obj(vec![("attribute", obj(vec![("a", s("1")), ("b", s("2"))]))]);
    assert!(matches!(plugin.validate_params(Some(&two)), Err(svgn::plugin::PluginError::InvalidConfig(m)) if m == "Attribute object must have exactly one key-value pair"));
    let num = obj(vec![("attribute", obj(vec![("tabindex", Value::Number("0".to_string()))]))]);
    let mut document = create_test_svg_document();
    let mut p = AddAttributesToSVGElementPlugin;
    p.apply(&mut document, &info(), Some(&num)).unwrap();
    assert_eq!(document.root.attributes.get("tabindex"), Some(&"0".to_string()));
}

fn class_set(document: &Document) -> HashSet<String> {
    document.root.attributes.get("class").unwrap().split_whitespace().map(|c| c.to_string()).collect()
}

#[test]
fn test_add_single_class() {
    let mut plugin = AddClassesToSVGElementPlugin;
    let mut document = create_test_svg_document();
    plugin.apply(&mut document, &info(), Some(&obj(vec![("className", s("my-svg"))]))).unwrap();
    assert_eq!(document.root.attributes.get("class"), Some(&"my-svg".to_string()));
    assert_eq!(document.root.attributes.get("width"), Some(&"100".to_string()));
}

#[test]
fn test_add_multiple_classes() {
    let mut plugin = AddClassesToSVGElementPlugin;
    let mut document = create_test_svg_document();
    let params = obj(vec![("classNames", Value::Array(vec![s("my-svg"), s("size-large"), s("theme-dark")]))]);
    plugin.apply(&mut document, &info(), Some(&params)).unwrap();
    let classes = class_set(&document);
    assert!(classes.contains("my-svg"));
    assert!(classes.contains("size-large"));
    assert!(classes.contains("theme-dark"));
    assert_eq!(classes.len(), 3);
}

#[test]
fn test_add_classes_to_existing() {
    let mut plugin = AddClassesToSVGElementPlugin;
    let mut document = create_test_svg_document_with_classes();
    let params = obj(vec![("classNames", Value::Array(vec![s("new-class"), s("another-class")]))]);
    plugin.apply(&mut document, &info(), Some(&params)).unwrap();
    let classes = class_set(&document);
    assert!(classes.contains("existing-class"));
    assert!(classes.contains("new-class"));
    assert!(classes.contains("another-class"));
    assert_eq!(classes.len(), 3);
    assert_eq!(document.root.attributes.get("class"), Some(&"another-class existing-class new-class".to_string()));
}

#[test]
fn test_duplicate_classes() {
    let mut plugin = AddClassesToSVGElementPlugin;
    let mut document = create_test_svg_document_with_classes();
    let params = obj(vec![("classNames", Value::Array(vec![s("existing-class"), s("new-class")]))]);
    plugin.apply(&mut document, &info(), Some(&params)).unwrap();
    let classes = class_set(&document);
    assert!(classes.contains("existing-class"));
    assert!(classes.contains("new-class"));
    assert_eq!(classes.len(), 2);
}

#[test]
fn test_empty_class_names() {
    let mut plugin = AddClassesToSVGElementPlugin;
    let mut document = create_test_svg_document();
    let params = obj(vec![("classNames", Value::Array(vec![s("valid-class"), s(""), s("  "), s("another-valid")]))]);
    plugin.apply(&mut document, &info(), Some(&params)).unwrap();
    let classes = class_set(&document);
    assert!(classes.contains("valid-class"));
    assert!(classes.contains("another-valid"));
    assert_eq!(classes.len(), 2);
}

#[test]
fn add_classes_to_svg_element_test_non_svg_element() {
    let mut plugin = AddClassesToSVGElementPlugin;
    let mut document = Document::new();
    document.root = Element::new("rect");
    plugin.apply(&mut document, &info(), Some(&obj(vec![("className", s("my-class"))]))).unwrap();
    assert_eq!(document.root.attributes.get("class"), None);
}

#[test]
fn add_classes_to_svg_element_test_missing_params() {
    let mut plugin = AddClassesToSVGElementPlugin;
    let mut document = create_test_svg_document();
    assert!(plugin.apply(&mut document, &info(), None).is_err());
}

#[test]
fn add_classes_to_svg_element_test_invalid_params() {
    let mut plugin = AddClassesToSVGElementPlugin;
    let mut document = create_test_svg_document();
    assert!(plugin.apply(&mut document, &info(), Some(&obj(vec![("invalid", s("param"))]))).is_err());
}

#[test]
fn test_invalid_class_name_type() {
    let mut plugin = AddClassesToSVGElementPlugin;
    let mut document = create_test_svg_document();
    let result = plugin.apply(&mut document, &info(), Some(&obj(vec![("className", Value::Number("123".to_string()))])));
    assert!(result.is_err());
}

#[test]
fn add_classes_to_svg_element_test_validate_params() {
    let plugin = AddClassesToSVGElementPlugin;
    assert!(plugin.validate_params(Some(&obj(vec![("className", s("my-class"))]))).is_ok());
    assert!(plugin.validate_params(Some(&obj(vec![("classNames", Value::Array(vec![s("class1"), s("class2")]))]))).is_ok());
    assert!(plugin.validate_params(Some(&obj(vec![("invalid", s("param"))]))).is_err());
    assert!(plugin.validate_params(None).is_err());
}

#[test]
fn test_lex_less_order() {
    assert!(lex_less("a", "b"));
    assert!(lex_less("ab", "abc"));
    assert!(!lex_less("abc", "ab"));
    assert!(!lex_less("a", "a"));
    assert!(lex_less("B", "a"));
}
