use svgn::ast::{Document, Element, Node};
use svgn::plugin::{Plugin, PluginInfo};
use svgn::plugins::remove_empty_attrs::RemoveEmptyAttrsPlugin;

fn run(root: Element) -> Document {
    let mut document = Document::new();
    document.root = root;
    let mut plugin = RemoveEmptyAttrsPlugin;
    assert!(plugin.apply(&mut document, &PluginInfo::default(), None).is_ok());
    document
}

#[test]
fn test_removes_empty_attributes() {
    let mut element = Element::new("rect");
    element.attributes.insert("width".to_string(), "100".to_string());
    element.attributes.insert("height".to_string(), "".to_string());
    element.attributes.insert("fill".to_string(), "red".to_string());
    element.attributes.insert("stroke".to_string(), "".to_string());
    let document = run(element);
    assert!(document.root.attributes.contains_key("width"));
    assert!(document.root.attributes.contains_key("fill"));
    assert!(!document.root.attributes.contains_key("height"));
    assert!(!document.root.attributes.contains_key("stroke"));
}

#[test]
fn test_preserves_conditional_processing_attrs() {
    let mut element = Element::new("rect");
    element.attributes.insert("requiredExtensions".to_string(), "".to_string());
    element.attributes.insert("requiredFeatures".to_string(), "".to_string());
    element.attributes.insert("systemLanguage".to_string(), "".to_string());
    element.attributes.insert("width".to_string(), "".to_string());
    let document = run(element);
    assert!(document.root.attributes.contains_key("requiredExtensions"));
    assert!(document.root.attributes.contains_key("requiredFeatures"));
    assert!(document.root.attributes.contains_key("systemLanguage"));
    assert!(!document.root.attributes.contains_key("width"));
}

#[test]
fn remove_empty_attrs_test_nested_elements() {
    let mut root = Element::new("svg");
    let mut child = Element::new("g");
    root.attributes.insert("width".to_string(), "100".to_string());
    root.attributes.insert("height".to_string(), "".to_string());
    child.attributes.insert("fill".to_string(), "red".to_string());
    child.attributes.insert("stroke".to_string(), "".to_string());
    root.children.push(Node::Element(child));
    let document = run(root);
    assert!(document.root.attributes.contains_key("width"));
    assert!(!document.root.attributes.contains_key("height"));
    if let Node::Element(child_element) = &document.root.children[0] {
        assert!(child_element.attributes.contains_key("fill"));
        assert!(!child_element.attributes.contains_key("stroke"));
    } else {
        panic!("Expected child element");
    }
}

#[test]
fn test_no_attributes() {
    let document = run(Element::new("rect"));
    assert!(document.root.attributes.is_empty());
}

#[test]
fn remove_empty_attrs_test_plugin_name_and_description() {
    let plugin = RemoveEmptyAttrsPlugin;
    assert_eq!(plugin.name(), "removeEmptyAttrs");
    assert_eq!(plugin.description(), "removes empty attributes");
}

#[test]
fn remove_empty_attrs_second_run_changes_nothing() {
    let mut child = Element::new("g");
    child.attributes.insert("class".to_string(), "".to_string());
    child.attributes.insert("id".to_string(), "a".to_string());
    let mut root = Element::new("svg");
    root.attributes.insert("systemLanguage".to_string(), "".to_string());
    root.attributes.insert("width".to_string(), "".to_string());
    root.children.push(Node::Element(child));
    let mut document = Document::new();
    document.root = root;
    let mut plugin = RemoveEmptyAttrsPlugin;
    plugin.apply(&mut document, &PluginInfo::default(), None).unwrap();
    let first: Vec<(String, String)> = document.root.attributes.iter().map(|(k, v)| (k.clone(), v.clone())).collect();
    let first_child = match &document.root.children[0] {
        Node::Element(a) => a.attributes.iter().map(|(k, v)| (k.clone(), v.clone())).collect::<Vec<_>>(),
        _ => panic!("expected an element"),
    };
    plugin.apply(&mut document, &PluginInfo::default(), None).unwrap();
    let second: Vec<(String, String)> = document.root.attributes.iter().map(|(k, v)| (k.clone(), v.clone())).collect();
    assert_eq!(first, second);
    assert_eq!(first, vec![("systemLanguage".to_string(), "".to_string())]);
    match &document.root.children[0] {
        Node::Element(b) => {
            let second_child: Vec<(String, String)> = b.attributes.iter().map(|(k, v)| (k.clone(), v.clone())).collect();
            assert_eq!(first_child, second_child);
            assert_eq!(second_child, vec![("id".to_string(), "a".to_string())]);
        }
        _ => panic!("expected elements"),
    }
}
