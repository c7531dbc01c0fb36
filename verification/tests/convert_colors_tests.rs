use svgn::ast::{Document, Element, Node};
use svgn::plugins::convert_colors::{
    colors_are_safe, convert_colors_in_element, convert_to_short_hex, get_color_names, get_color_short_names,
    includes_url_reference, rgb_inputs_of, table_lookup, ConvertColorsConfig,
};
use svgn::value::Value;

fn obj(pairs: Vec<(&str, Value)>) -> Value {
    Value::Object(pairs.into_iter().map(|(k, v)| (k.to_string(), v)).collect())
}

fn create_test_document_with_colors() -> Document {
    let mut doc = Document::new();
    let mut element = Element::new("rect");
    element.attributes.insert("fill".to_string(), "red".to_string());
    element.attributes.insert("stroke".to_string(), "rgb(255, 0, 255)".to_string());
    doc.root = element;
    doc
}

/// The `rgb()` values of the test document with the hex values that their
/// conversion gives.
fn rgb_table() -> Vec<(String, String)> {
    vec![("rgb(255, 0, 255)".to_string(), "#ff00ff".to_string())]
}

fn convert(document: &mut Document, params: Option<&Value>) {
    let config = ConvertColorsConfig::from_params(params);
    let rgb = rgb_table();
    assert!(colors_are_safe(&document.root, &config, 0, &rgb));
    convert_colors_in_element(&mut document.root, &config, 0, &rgb);
}

#[test]
fn test_color_name_to_hex() {
    let mut document = create_test_document_with_colors();
    convert(&mut document, None);
    assert_eq!(document.root.attributes.get("fill"), Some(&"#f00".to_string()));
}

#[test]
fn test_rgb_to_hex() {
    let mut document = create_test_document_with_colors();
    let params = obj(vec![("shortname", Value::Bool(false)), ("shorthex", Value::Bool(false))]);
    convert(&mut document, Some(&params));
    assert_eq!(document.root.attributes.get("stroke"), Some(&"#ff00ff".to_string()));
}

#[test]
fn test_convert_to_short_hex() {
    assert_eq!(convert_to_short_hex("#aabbcc"), Some("#abc".to_string()));
    assert_eq!(convert_to_short_hex("#112233"), Some("#123".to_string()));
    assert_eq!(convert_to_short_hex("#123456"), None);
    assert_eq!(convert_to_short_hex("#abc"), None);
}

#[test]
fn test_color_params() {
    let mut document = create_test_document_with_colors();
    let params = obj(vec![
        ("names2hex", Value::Bool(false)),
        ("rgb2hex", Value::Bool(true)),
        ("shortname", Value::Bool(false)),
        ("shorthex", Value::Bool(false)),
    ]);
    convert(&mut document, Some(&params));
    assert_eq!(document.root.attributes.get("fill"), Some(&"red".to_string()));
    assert_eq!(document.root.attributes.get("stroke"), Some(&"#ff00ff".to_string()));
}

#[test]
fn test_defaults_shorten_everything() {
    let mut document = create_test_document_with_colors();
    convert(&mut document, None);
    assert_eq!(document.root.attr("stroke"), Some(&"#f0f".to_string()));
}

#[test]
fn test_hex_to_short_name() {
    let mut document = Document::new();
    let mut e = Element::new("rect");
    e.attributes.insert("fill".to_string(), "#000080".to_string());
    e.attributes.insert("stroke".to_string(), "#FF0000".to_string());
    e.attributes.insert("width".to_string(), "#000080".to_string());
    document.root = e;
    convert(&mut document, None);
    assert_eq!(document.root.attr("fill"), Some(&"navy".to_string()));
    assert_eq!(document.root.attr("stroke"), Some(&"#F00".to_string()));
    assert_eq!(document.root.attr("width"), Some(&"#000080".to_string()));
}

#[test]
fn test_current_color_outside_masks_only() {
    let mut root = Element::new("svg");
    let mut rect = Element::new("rect");
    rect.attributes.insert("fill".to_string(), "blue".to_string());
    rect.attributes.insert("stroke".to_string(), "none".to_string());
    let mut mask = Element::new("mask");
    let mut inner = Element::new("rect");
    inner.attributes.insert("fill".to_string(), "white".to_string());
    mask.children.push(Node::Element(inner));
    root.children.push(Node::Element(rect));
    root.children.push(Node::Element(mask));
    let mut document = Document::new();
    document.root = root;
    let params = obj(vec![("currentColor", Value::String("x".to_string()))]);
    convert(&mut document, Some(&params));
    let kids = document.root.child_elements();
    assert_eq!(kids[0].attr("fill"), Some(&"currentColor".to_string()));
    assert_eq!(kids[0].attr("stroke"), Some(&"none".to_string()));
    assert_eq!(kids[1].child_elements()[0].attr("fill"), Some(&"#fff".to_string()));
}

#[test]
fn test_convert_case() {
    let mut document = Document::new();
    let mut e = Element::new("rect");
    e.attributes.insert("fill".to_string(), "#AbCdEf".to_string());
    e.attributes.insert("stroke".to_string(), "url(#A)".to_string());
    document.root = e;
    let params = obj(vec![("convertCase", Value::String("upper".to_string()))]);
    convert(&mut document, Some(&params));
    assert_eq!(document.root.attr("fill"), Some(&"#ABCDEF".to_string()));
    assert_eq!(document.root.attr("stroke"), Some(&"url(#A)".to_string()));
    let mut document = Document::new();
    let mut e = Element::new("rect");
    e.attributes.insert("fill".to_string(), "#AABBCC".to_string());
    document.root = e;
    let params = obj(vec![("convertCase", Value::String("lower".to_string()))]);
    convert(&mut document, Some(&params));
    assert_eq!(document.root.attr("fill"), Some(&"#abc".to_string()));
}

#[test]
fn test_rgb_inputs_follow_names() {
    let mut root = Element::new("svg");
    root.attributes.insert("fill".to_string(), "Red".to_string());
    let mut g = Element::new("g");
    g.attributes.insert("stroke".to_string(), "rgb(1,2,3)".to_string());
    g.attributes.insert("id".to_string(), "x".to_string());
    root.children.push(Node::Element(g));
    let config = ConvertColorsConfig::from_params(None);
    assert_eq!(rgb_inputs_of(&root, &config, 0), vec!["#ff0000".to_string(), "rgb(1,2,3)".to_string()]);
}

#[test]
fn test_unsafe_short_hex_is_detected() {
    let mut e = Element::new("rect");
    e.attributes.insert("fill".to_string(), "#\u{e9}\u{e9}\u{e9}".to_string());
    let config = ConvertColorsConfig::from_params(None);
    assert!(!colors_are_safe(&e, &config, 0, &vec![]));
    let off = ConvertColorsConfig::from_params(Some(&obj(vec![("shorthex", Value::Bool(false))])));
    assert!(colors_are_safe(&e, &off, 0, &vec![]));
}

#[test]
fn test_color_tables() {
    let names = get_color_names();
    assert_eq!(names.len(), 147);
    assert_eq!(table_lookup(&names, "fuchsia"), Some("#ff00ff".to_string()));
    assert_eq!(table_lookup(&names, "rebeccapurple"), None);
    let short = get_color_short_names();
    assert_eq!(table_lookup(&short, "#c0c0c0"), Some("silver".to_string()));
    assert!(includes_url_reference("url(#a)"));
    assert!(!includes_url_reference("#a"));
}

#[test]
fn test_convert_colors_config_from_params() {
    let c = ConvertColorsConfig::from_params(None);
    assert!(c.names2hex && c.rgb2hex && c.shorthex && c.shortname);
    assert!(c.current_color.is_none() && c.convert_case.is_none());
    let c = ConvertColorsConfig::from_params(Some(&obj(vec![("rgb2hex", Value::Bool(false))])));
    assert!(!c.rgb2hex);
}

#[test]
fn names_convert_to_long_hex() {
    let mut document = Document::new();
    let mut root = Element::new("rect");
    root.attributes.insert("fill".to_string(), "fuchsia".to_string());
    document.root = root;
    let params = Value::Object(vec![
        ("shorthex".to_string(), Value::Bool(false)),
        ("shortname".to_string(), Value::Bool(false)),
    ]);
    convert(&mut document, Some(&params));
    assert_eq!(document.root.attributes.get("fill"), Some(&"#ff00ff".to_string()));
}
