use svgn::ast::{Document, Element, Node};

#[test]
fn test_element_creation() {
    let element = Element::new("rect");
    assert_eq!(element.name, "rect");
    assert!(element.attributes.is_empty());
    assert!(element.children.is_empty());
}

#[test]
fn test_attribute_operations() {
    let mut element = Element::new("rect");

    element.set_attr("x".to_string(), "10".to_string());
    assert_eq!(element.attr("x"), Some(&"10".to_string()));
    assert!(element.has_attr("x"));

    let removed = element.remove_attr("x");
    assert_eq!(removed, Some("10".to_string()));
    assert!(!element.has_attr("x"));
}

#[test]
fn test_child_operations() {
    let mut parent = Element::new("g");
    let child = Element::new("rect");

    parent.add_child(Node::Element(child));
    parent.add_child(Node::Text("test".to_string()));
    parent.add_child(Node::Comment("comment".to_string()));

    assert_eq!(parent.children.len(), 3);
    assert_eq!(parent.child_elements().len(), 1);
    assert!(!parent.is_empty());
}

#[test]
fn test_whitespace_detection() {
    let mut element = Element::new("g");
    element.add_child(Node::Text("   \n  ".to_string()));
    element.add_child(Node::Comment("comment".to_string()));

    assert!(element.is_whitespace_only());

    element.add_child(Node::Text("content".to_string()));
    assert!(!element.is_whitespace_only());
}

#[test]
fn test_set_attr_keeps_position() {
    let mut element = Element::new("rect");
    element.set_attr("a".to_string(), "1".to_string());
    element.set_attr("b".to_string(), "2".to_string());
    element.set_attr("a".to_string(), "3".to_string());
    let keys: Vec<&String> = element.attributes.keys().collect();
    assert_eq!(keys, vec!["a", "b"]);
    assert_eq!(element.attr("a"), Some(&"3".to_string()));
}

#[test]
fn test_remove_attr_missing() {
    let mut element = Element::new("rect");
    assert_eq!(element.remove_attr("x"), None);
}

#[test]
fn test_document_new_root() {
    let doc = Document::new();
    assert_eq!(doc.root().name, "svg");
    assert!(doc.prologue.is_empty());
    assert!(doc.epilogue.is_empty());
    assert!(doc.metadata.path.is_none());
}

#[test]
fn test_node_kinds() {
    let e = Node::Element(Element::new("g"));
    let t = Node::Text("x".to_string());
    let c = Node::Comment("c".to_string());
    let d = Node::DocType("svg".to_string());
    assert!(e.is_element() && !e.is_text());
    assert!(t.is_text() && t.as_text() == Some(&"x".to_string()));
    assert!(c.is_comment());
    assert!(d.is_doctype());
    assert_eq!(e.as_element().map(|x| x.name.clone()), Some("g".to_string()));
    assert!(t.as_element().is_none());
}
