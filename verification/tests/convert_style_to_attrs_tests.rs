use svgn::ast::{Element, Node};
use svgn::plugin::{Plugin, PluginInfo};
use svgn::plugins::convert_style_to_attrs::{convert_style, parse_declarations, ConvertStyleToAttrsPlugin};

#[test]
fn test_declarations_are_trimmed_pairs() {
    let d = parse_declarations("fill: red; stroke : blue");
    assert_eq!(d, vec![("fill".to_string(), "red".to_string()), ("stroke".to_string(), "blue".to_string())]);
}

#[test]
fn test_style_without_presentation_attrs_stays() {
    let mut e = Element::new("rect");
    e.attributes.insert("style".to_string(), "foo: 1; bar: 2".to_string());
    convert_style(&mut e);
    assert_eq!(e.attr("style"), Some(&"foo: 1; bar: 2".to_string()));
}

#[test]
fn test_element_without_style_is_unchanged() {
    let mut e = Element::new("rect");
    e.attributes.insert("fill".to_string(), "red".to_string());
    convert_style(&mut e);
    assert_eq!(e.attributes.len(), 1);
    assert_eq!(e.attr("fill"), Some(&"red".to_string()));
}


#[test]
fn test_styles_move_in_the_whole_tree() {
    let mut root = Element::new("svg");
    let mut rect = Element::new("rect");
    rect.attributes.insert("style".to_string(), "fill: red; stroke: blue; opacity: 0.5".to_string());
    let mut circle = Element::new("circle");
    circle.attributes.insert("style".to_string(), "fill: green; custom-prop: value".to_string());
    root.children.push(Node::Element(rect));
    root.children.push(Node::Element(circle));
    let mut document = svgn::ast::Document::new();
    document.root = root;
    let mut plugin = ConvertStyleToAttrsPlugin;
    plugin.apply(&mut document, &PluginInfo { path: None, multipass_count: 0 }, None).unwrap();
    let kids = document.root.child_elements();
    assert_eq!(kids[0].attr("fill"), Some(&"red".to_string()));
    assert_eq!(kids[0].attr("stroke"), Some(&"blue".to_string()));
    assert_eq!(kids[0].attr("opacity"), Some(&"0.5".to_string()));
    assert!(!kids[0].has_attr("style"));
    assert_eq!(kids[1].attr("fill"), Some(&"green".to_string()));
    assert_eq!(kids[1].attr("style"), Some(&"custom-prop: value".to_string()));
}

#[test]
fn test_existing_attribute_keeps_declaration_in_style() {
    let mut e = Element::new("rect");
    e.attributes.insert("style".to_string(), "fill: red; stroke: blue".to_string());
    e.attributes.insert("fill".to_string(), "green".to_string());
    convert_style(&mut e);
    assert_eq!(e.attr("fill"), Some(&"green".to_string()));
    assert_eq!(e.attr("stroke"), Some(&"blue".to_string()));
    assert_eq!(e.attr("style"), Some(&"fill: red".to_string()));
}

#[test]
fn test_comments_and_quoted_values() {
    let d = parse_declarations("/* comment */ fill: url(#grad); font-family: 'Arial', sans-serif");
    assert_eq!(
        d,
        vec![
            ("fill".to_string(), "url(#grad)".to_string()),
            ("font-family".to_string(), "'Arial', sans-serif".to_string())
        ]
    );
}
