use svgn::ast::{Document, Element, Node};
use svgn::plugin::{Plugin, PluginInfo};
use svgn::plugins::remove_empty_text::RemoveEmptyTextPlugin;
use svgn::value::Value;

fn obj(pairs: Vec<(&str, Value)>) -> Value {
    Value::Object(pairs.into_iter().map(|(k, v)| (k.to_string(), v)).collect())
}

fn run(root: Element, params: Option<&Value>) -> Document {
    let mut document = Document::new();
    document.root = root;
    let mut plugin = RemoveEmptyTextPlugin;
    plugin.apply(&mut document, &PluginInfo::default(), params).unwrap();
    document
}

#[test]
fn test_removes_empty_text() {
    let mut root = Element::new("svg");
    root.children.push(Node::Element(Element::new("text")));
    let document = run(root, None);
    assert!(document.root.children.is_empty());
}

#[test]
fn test_removes_empty_tspan() {
    let mut root = Element::new("svg");
    root.children.push(Node::Element(Element::new("tspan")));
    let document = run(root, None);
    assert!(document.root.children.is_empty());
}

#[test]
fn test_removes_tref_without_href() {
    let mut root = Element::new("svg");
    root.children.push(Node::Element(Element::new("tref")));
    let document = run(root, None);
    assert!(document.root.children.is_empty());
}

#[test]
fn test_preserves_tref_with_href() {
    let mut root = Element::new("svg");
    let mut tref = Element::new("tref");
    tref.attributes.insert("xlink:href".to_string(), "#someref".to_string());
    root.children.push(Node::Element(tref));
    let document = run(root, None);
    assert_eq!(document.root.children.len(), 1);
    if let Node::Element(child) = &document.root.children[0] {
        assert_eq!(child.name, "tref");
    }
}

#[test]
fn test_preserves_text_with_content() {
    let mut root = Element::new("svg");
    let mut text = Element::new("text");
    text.children.push(Node::Text("Hello".to_string()));
    root.children.push(Node::Element(text));
    let document = run(root, None);
    assert_eq!(document.root.children.len(), 1);
    if let Node::Element(child) = &document.root.children[0] {
        assert_eq!(child.name, "text");
        assert!(!child.children.is_empty());
    }
}

#[test]
fn test_configurable_text_removal() {
    let mut root = Element::new("svg");
    root.children.push(Node::Element(Element::new("text")));
    let params = obj(vec![("text", Value::Bool(false))]);
    let document = run(root, Some(&params));
    assert_eq!(document.root.children.len(), 1);
}

#[test]
fn test_configurable_tspan_removal() {
    let mut root = Element::new("svg");
    root.children.push(Node::Element(Element::new("tspan")));
    let params = obj(vec![("tspan", Value::Bool(false))]);
    let document = run(root, Some(&params));
    assert_eq!(document.root.children.len(), 1);
}

#[test]
fn test_configurable_tref_removal() {
    let mut root = Element::new("svg");
    root.children.push(Node::Element(Element::new("tref")));
    let params = obj(vec![("tref", Value::Bool(false))]);
    let document = run(root, Some(&params));
    assert_eq!(document.root.children.len(), 1);
}

#[test]
fn test_mixed_text_elements() {
    let mut root = Element::new("svg");
    root.children.push(Node::Element(Element::new("text")));
    let mut tspan_with_content = Element::new("tspan");
    tspan_with_content.children.push(Node::Text("Content".to_string()));
    root.children.push(Node::Element(tspan_with_content));
    root.children.push(Node::Element(Element::new("tref")));
    let mut tref_with_href = Element::new("tref");
    tref_with_href.attributes.insert("xlink:href".to_string(), "#ref".to_string());
    root.children.push(Node::Element(tref_with_href));
    let document = run(root, None);
    assert_eq!(document.root.children.len(), 2);
    if let Node::Element(child1) = &document.root.children[0] {
        assert_eq!(child1.name, "tspan");
    }
    if let Node::Element(child2) = &document.root.children[1] {
        assert_eq!(child2.name, "tref");
    }
}

#[test]
fn remove_empty_text_test_plugin_name_and_description() {
    let plugin = RemoveEmptyTextPlugin;
    assert_eq!(plugin.name(), "removeEmptyText");
    assert_eq!(plugin.description(), "removes empty <text> elements");
}

#[test]
fn remove_empty_text_second_run_changes_nothing() {
    let mut text = Element::new("text");
    text.children.push(Node::Element(Element::new("tspan")));
    let mut kept = Element::new("text");
    kept.children.push(Node::Text("hi".to_string()));
    let mut root = Element::new("svg");
    root.children.push(Node::Element(text));
    root.children.push(Node::Element(kept));
    let mut document = Document::new();
    document.root = root;
    let mut plugin = RemoveEmptyTextPlugin;
    plugin.apply(&mut document, &PluginInfo::default(), None).unwrap();
    assert_eq!(document.root.children.len(), 1);
    plugin.apply(&mut document, &PluginInfo::default(), None).unwrap();
    assert_eq!(document.root.children.len(), 1);
    match &document.root.children[0] {
        Node::Element(e) => {
            assert_eq!(e.name, "text");
            assert!(matches!(&e.children[0], Node::Text(t) if t == "hi"));
        }
        _ => panic!("expected the text element"),
    }
}
