use svgn::ast::{Document, Element, Node};
use svgn::plugin::{Plugin, PluginInfo};
use svgn::plugins::remove_empty_containers::RemoveEmptyContainersPlugin;

fn run(root: Element) -> Document {
    let mut document = Document::new();
    document.root = root;
    let mut plugin = RemoveEmptyContainersPlugin;
    plugin.apply(&mut document, &PluginInfo::default(), None).unwrap();
    document
}

#[test]
fn test_removes_empty_defs() {
    let mut root = Element::new("svg");
    root.children.push(Node::Element(Element::new("defs")));
    assert!(run(root).root.children.is_empty());
}

#[test]
fn test_removes_empty_g() {
    let mut root = Element::new("svg");
    root.children.push(Node::Element(Element::new("g")));
    assert!(run(root).root.children.is_empty());
}

#[test]
fn test_preserves_svg_root() {
    let document = run(Element::new("svg"));
    assert_eq!(document.root.name, "svg");
}

#[test]
fn test_preserves_pattern_with_attributes() {
    let mut root = Element::new("svg");
    let mut pattern = Element::new("pattern");
    pattern.attributes.insert("id".to_string(), "mypattern".to_string());
    root.children.push(Node::Element(pattern));
    let document = run(root);
    assert_eq!(document.root.children.len(), 1);
    if let Node::Element(child) = &document.root.children[0] {
        assert_eq!(child.name, "pattern");
    }
}

#[test]
fn test_preserves_mask_with_id() {
    let mut root = Element::new("svg");
    let mut mask = Element::new("mask");
    mask.attributes.insert("id".to_string(), "mymask".to_string());
    root.children.push(Node::Element(mask));
    let document = run(root);
    assert_eq!(document.root.children.len(), 1);
    if let Node::Element(child) = &document.root.children[0] {
        assert_eq!(child.name, "mask");
    }
}

#[test]
fn test_preserves_g_with_filter() {
    let mut root = Element::new("svg");
    let mut g = Element::new("g");
    g.attributes.insert("filter".to_string(), "url(#myfilter)".to_string());
    root.children.push(Node::Element(g));
    let document = run(root);
    assert_eq!(document.root.children.len(), 1);
    if let Node::Element(child) = &document.root.children[0] {
        assert_eq!(child.name, "g");
    }
}

#[test]
fn test_preserves_elements_in_switch() {
    let mut root = Element::new("svg");
    let mut switch = Element::new("switch");
    switch.children.push(Node::Element(Element::new("g")));
    root.children.push(Node::Element(switch));
    let document = run(root);
    assert_eq!(document.root.children.len(), 1);
    if let Node::Element(switch_elem) = &document.root.children[0] {
        assert_eq!(switch_elem.name, "switch");
        assert_eq!(switch_elem.children.len(), 1);
    }
}

#[test]
fn test_removes_nested_empty_containers() {
    let mut root = Element::new("svg");
    let mut outer_g = Element::new("g");
    outer_g.children.push(Node::Element(Element::new("g")));
    root.children.push(Node::Element(outer_g));
    assert!(run(root).root.children.is_empty());
}

#[test]
fn test_keeps_non_container_elements() {
    let mut root = Element::new("svg");
    root.children.push(Node::Element(Element::new("rect")));
    root.children.push(Node::Element(Element::new("g")));
    let document = run(root);
    assert_eq!(document.root.children.len(), 1);
    if let Node::Element(child) = &document.root.children[0] {
        assert_eq!(child.name, "rect");
    }
}

#[test]
fn remove_empty_containers_test_plugin_name_and_description() {
    let plugin = RemoveEmptyContainersPlugin;
    assert_eq!(plugin.name(), "removeEmptyContainers");
    assert_eq!(plugin.description(), "removes empty container elements");
}

fn shape_of(e: &Element) -> String {
    let mut s = format!("<{}", e.name);
    for (k, v) in e.attributes.iter() {
        s.push_str(&format!(" {}={}", k, v));
    }
    s.push('>');
    for c in &e.children {
        match c {
            Node::Element(x) => s.push_str(&shape_of(x)),
            Node::Text(t) => s.push_str(t),
            _ => s.push('?'),
        }
    }
    s.push_str("</>");
    s
}

#[test]
fn remove_empty_containers_second_run_changes_nothing() {
    let mut inner = Element::new("g");
    inner.children.push(Node::Element(Element::new("defs")));
    let mut outer = Element::new("g");
    outer.children.push(Node::Element(inner));
    let mut switch = Element::new("switch");
    switch.children.push(Node::Element(Element::new("g")));
    let mut root = Element::new("svg");
    root.children.push(Node::Element(outer));
    root.children.push(Node::Element(switch));
    root.children.push(Node::Element(Element::new("rect")));
    let mut document = Document::new();
    document.root = root;
    let mut plugin = RemoveEmptyContainersPlugin;
    plugin.apply(&mut document, &PluginInfo::default(), None).unwrap();
    let once = shape_of(&document.root);
    plugin.apply(&mut document, &PluginInfo::default(), None).unwrap();
    assert_eq!(shape_of(&document.root), once);
    assert_eq!(once, "<svg><switch><g></></><rect></></>");
}
