use svgn::ast::{Document, Element, Node};
use svgn::parser::Parser;
use svgn::plugin::{Plugin, PluginError, PluginInfo};
use svgn::plugins::collapse_groups::{CollapseGroupsConfig, CollapseGroupsPlugin};
use svgn::value::Value;

fn run(input: &str) -> Document {
    let parser = Parser::new();
    let mut doc = parser.parse(input).unwrap();
    let mut plugin = CollapseGroupsPlugin;
    let config = Value::Object(vec![]);
    let info = PluginInfo::default();
    plugin.apply(&mut doc, &info, Some(&config)).unwrap();
    doc
}

fn only_child(doc: &Document) -> &Element {
    assert_eq!(doc.root.children.len(), 1);
    match &doc.root.children[0] {
        Node::Element(e) => e,
        _ => panic!("Expected an element"),
    }
}

#[test]
fn test_collapse_empty_group() {
    let input = r#"<svg><g><rect width="10" height="10"/></g></svg>"#;
    let doc = run(input);

    assert_eq!(doc.root.children.len(), 1);
    if let Node::Element(rect) = &doc.root.children[0] {
        assert_eq!(rect.name, "rect");
        assert_eq!(rect.attributes.get("width"), Some(&"10".to_string()));
        assert_eq!(rect.attributes.get("height"), Some(&"10".to_string()));
    } else {
        panic!("Expected rect element");
    }
}

#[test]
fn test_move_attributes_to_single_child() {
    let input = r#"<svg><g fill="red"><rect width="10" height="10"/></g></svg>"#;
    let doc = run(input);

    assert_eq!(doc.root.children.len(), 1);
    if let Node::Element(rect) = &doc.root.children[0] {
        assert_eq!(rect.name, "rect");
        assert_eq!(rect.attributes.get("fill"), Some(&"red".to_string()));
        assert_eq!(rect.attributes.get("width"), Some(&"10".to_string()));
        assert_eq!(rect.attributes.get("height"), Some(&"10".to_string()));
    } else {
        panic!("Expected rect element");
    }
}

#[test]
fn test_preserve_group_with_multiple_children() {
    let input = r#"<svg><g fill="red"><rect width="10" height="10"/><circle r="5"/></g></svg>"#;
    let doc = run(input);

    assert_eq!(doc.root.children.len(), 1);
    if let Node::Element(group) = &doc.root.children[0] {
        assert_eq!(group.name, "g");
        assert_eq!(group.attributes.get("fill"), Some(&"red".to_string()));
        assert_eq!(group.children.len(), 2);
    } else {
        panic!("Expected group element");
    }
}

#[test]
fn test_concatenate_transforms() {
    let input = r#"<svg><g transform="translate(10,10)"><rect transform="scale(2)" width="10" height="10"/></g></svg>"#;
    let doc = run(input);

    assert_eq!(doc.root.children.len(), 1);
    if let Node::Element(rect) = &doc.root.children[0] {
        assert_eq!(rect.name, "rect");
        assert_eq!(rect.attributes.get("transform"), Some(&"translate(10,10) scale(2)".to_string()));
        assert_eq!(rect.attributes.get("width"), Some(&"10".to_string()));
        assert_eq!(rect.attributes.get("height"), Some(&"10".to_string()));
    } else {
        panic!("Expected rect element");
    }
}

#[test]
fn test_nested_groups() {
    let input = r#"<svg><g><g><rect width="10" height="10"/></g></g></svg>"#;
    let doc = run(input);

    assert_eq!(doc.root.children.len(), 1);
    if let Node::Element(rect) = &doc.root.children[0] {
        assert_eq!(rect.name, "rect");
        assert_eq!(rect.attributes.get("width"), Some(&"10".to_string()));
        assert_eq!(rect.attributes.get("height"), Some(&"10".to_string()));
    } else {
        panic!("Expected rect element");
    }
}

#[test]
fn test_preserve_group_with_id() {
    let input = r#"<svg><g id="mygroup"><rect id="myrect" width="10" height="10"/></g></svg>"#;
    let doc = run(input);

    assert_eq!(doc.root.children.len(), 1);
    if let Node::Element(group) = &doc.root.children[0] {
        assert_eq!(group.name, "g");
        assert_eq!(group.attributes.get("id"), Some(&"mygroup".to_string()));
        assert_eq!(group.children.len(), 1);
    } else {
        panic!("Expected group element");
    }
}

#[test]
fn test_group_under_switch_stays() {
    let doc = run(r#"<svg><switch><g><rect/></g></switch></svg>"#);
    let sw = only_child(&doc);
    assert_eq!(sw.name, "switch");
    assert_eq!(sw.child_elements()[0].name, "g");
}

#[test]
fn test_root_group_stays() {
    let doc = run(r#"<g><rect/></g>"#);
    assert_eq!(doc.root.name, "g");
    assert_eq!(doc.root.child_elements()[0].name, "rect");
}

#[test]
fn test_inherit_value_is_replaced() {
    let doc = run(r#"<svg><g fill="red"><rect fill="inherit"/></g></svg>"#);
    let rect = only_child(&doc);
    assert_eq!(rect.name, "rect");
    assert_eq!(rect.attr("fill"), Some(&"red".to_string()));
}

#[test]
fn test_inheritable_attribute_keeps_child_value() {
    let doc = run(r#"<svg><g fill="red"><rect fill="blue"/></g></svg>"#);
    let rect = only_child(&doc);
    assert_eq!(rect.name, "rect");
    assert_eq!(rect.attr("fill"), Some(&"blue".to_string()));
}

#[test]
fn test_conflicting_attribute_stops_the_move() {
    let doc = run(r#"<svg><g x="1" fill="red"><rect x="2"/></g></svg>"#);
    let g = only_child(&doc);
    assert_eq!(g.name, "g");
    assert_eq!(g.attributes.len(), 2);
    assert_eq!(g.attr("x"), Some(&"1".to_string()));
    assert_eq!(g.attr("fill"), Some(&"red".to_string()));
    let rect = g.child_elements()[0];
    assert_eq!(rect.attr("x"), Some(&"2".to_string()));
    assert!(!rect.has_attr("fill"));
}

#[test]
fn test_animated_attribute_blocks_the_move() {
    let doc = run(r#"<svg><g fill="red"><rect><animate attributeName="fill"/></rect></g></svg>"#);
    let g = only_child(&doc);
    assert_eq!(g.name, "g");
    assert_eq!(g.attr("fill"), Some(&"red".to_string()));
}

#[test]
fn test_animation_child_keeps_group() {
    let doc = run(r#"<svg><g><animate attributeName="x"/></g></svg>"#);
    assert_eq!(only_child(&doc).name, "g");
}

#[test]
fn test_clip_path_stays_on_group_with_plain_child() {
    let doc = run(r#"<svg><g clip-path="url(#c)"><rect/></g></svg>"#);
    let g = only_child(&doc);
    assert_eq!(g.name, "g");
    assert_eq!(g.attr("clip-path"), Some(&"url(#c)".to_string()));
}

#[test]
fn test_clip_path_moves_onto_group_child() {
    let doc = run(r#"<svg><g clip-path="url(#c)"><g><rect/><circle/></g></g></svg>"#);
    let g = only_child(&doc);
    assert_eq!(g.name, "g");
    assert_eq!(g.attr("clip-path"), Some(&"url(#c)".to_string()));
    assert_eq!(g.children.len(), 2);
}

#[test]
fn test_params_must_be_an_object() {
    let parser = Parser::new();
    let mut doc = parser.parse(r#"<svg><g><rect/></g></svg>"#).unwrap();
    let mut plugin = CollapseGroupsPlugin;
    let r = plugin.apply(&mut doc, &PluginInfo::default(), Some(&Value::Null));
    assert!(matches!(r, Err(PluginError::InvalidConfig(_))));
    assert_eq!(doc.root.child_elements()[0].name, "g");
    assert!(plugin.apply(&mut doc, &PluginInfo::default(), None).is_ok());
    assert!(CollapseGroupsConfig::from_params(Some(&Value::Array(vec![]))).is_ok());
    assert!(CollapseGroupsConfig::from_params(Some(&Value::Bool(true))).is_err());
    assert!(plugin.validate_params(None).is_ok());
    assert!(plugin.validate_params(Some(&Value::Null)).is_err());
}

#[test]
fn attribute_that_cannot_move_stays_on_group() {
    let doc = run(r#"<svg><g fill="red" opacity="0.5" stroke="blue"><rect opacity="1"/></g></svg>"#);
    let g = only_child(&doc);
    assert_eq!(g.name, "g");
    let kept: Vec<(&str, &str)> = g.attributes.iter().map(|(k, v)| (k.as_str(), v.as_str())).collect();
    assert_eq!(kept, vec![("opacity", "0.5"), ("stroke", "blue")]);
    let rect = match &g.children[0] {
        Node::Element(e) => e,
        _ => panic!("Expected an element"),
    };
    let moved: Vec<(&str, &str)> = rect.attributes.iter().map(|(k, v)| (k.as_str(), v.as_str())).collect();
    assert_eq!(moved, vec![("opacity", "1"), ("fill", "red")]);
}
