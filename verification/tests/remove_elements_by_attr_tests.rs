use svgn::ast::{Document, Element, Node};
use svgn::plugin::{Plugin, PluginInfo};
use svgn::plugins::remove_elements_by_attr::{RemoveElementsByAttrConfig, RemoveElementsByAttrPlugin};
use svgn::value::Value;

fn obj(pairs: Vec<(&str, Value)>) -> Value {
    Value::Object(pairs.into_iter().map(|(k, v)| (k.to_string(), v)).collect())
}

fn s(x: &str) -> Value {
    Value::String(x.to_string())
}

fn elem(name: &str, key: &str, value: &str) -> Element {
    let mut e = Element::new(name);
    e.attributes.insert(key.to_string(), value.to_string());
    e
}

#[test]
fn remove_elements_by_attr_test_plugin_creation() {
    let plugin = RemoveElementsByAttrPlugin::new();
    assert_eq!(plugin.name(), "removeElementsByAttr");
    assert_eq!(plugin.description(), "removes arbitrary elements by ID or className (disabled by default)");
}

#[test]
fn test_parse_config_single_id() {
    let plugin = RemoveElementsByAttrPlugin::new();
    let config = plugin.parse_config(Some(&obj(vec![("id", s("elementToRemove"))])));
    assert_eq!(config.ids, vec!["elementToRemove"]);
    assert!(config.classes.is_empty());
}

#[test]
fn test_parse_config_multiple_ids() {
    let plugin = RemoveElementsByAttrPlugin::new();
    let config = plugin.parse_config(Some(&obj(vec![("id", Value::Array(vec![s("elementToRemove1"), s("elementToRemove2")]))])));
    assert_eq!(config.ids, vec!["elementToRemove1", "elementToRemove2"]);
    assert!(config.classes.is_empty());
}

#[test]
fn test_parse_config_single_class() {
    let plugin = RemoveElementsByAttrPlugin::new();
    let config = plugin.parse_config(Some(&obj(vec![("class", s("classToRemove"))])));
    assert!(config.ids.is_empty());
    assert_eq!(config.classes, vec!["classToRemove"]);
}

#[test]
fn test_parse_config_multiple_classes() {
    let plugin = RemoveElementsByAttrPlugin::new();
    let config = plugin.parse_config(Some(&obj(vec![("class", Value::Array(vec![s("classToRemove1"), s("classToRemove2")]))])));
    assert!(config.ids.is_empty());
    assert_eq!(config.classes, vec!["classToRemove1", "classToRemove2"]);
}

#[test]
fn test_parse_config_mixed() {
    let plugin = RemoveElementsByAttrPlugin::new();
    let config = plugin.parse_config(Some(&obj(vec![
        ("id", s("elementToRemove")),
        ("class", Value::Array(vec![s("classToRemove1"), s("classToRemove2")])),
    ])));
    assert_eq!(config.ids, vec!["elementToRemove"]);
    assert_eq!(config.classes, vec!["classToRemove1", "classToRemove2"]);
}

#[test]
fn test_should_remove_element_by_id() {
    let plugin = RemoveElementsByAttrPlugin::new();
    let config = RemoveElementsByAttrConfig { ids: vec!["removeMe".to_string()], classes: vec![] };
    assert!(plugin.should_remove_element(&elem("rect", "id", "removeMe"), &config));
    assert!(!plugin.should_remove_element(&elem("rect", "id", "keepMe"), &config));
}

#[test]
fn test_should_remove_element_by_class() {
    let plugin = RemoveElementsByAttrPlugin::new();
    let config = RemoveElementsByAttrConfig { ids: vec![], classes: vec!["removeMe".to_string()] };
    assert!(plugin.should_remove_element(&elem("rect", "class", "someClass removeMe anotherClass"), &config));
    assert!(!plugin.should_remove_element(&elem("rect", "class", "someClass keepMe anotherClass"), &config));
}

#[test]
fn test_apply_removes_by_id() {
    let mut plugin = RemoveElementsByAttrPlugin::new();
    let mut doc = Document::new();
    doc.root.children.push(Node::Element(elem("rect", "id", "elementToRemove")));
    doc.root.children.push(Node::Element(elem("circle", "id", "elementToKeep")));
    let config = obj(vec![("id", s("elementToRemove"))]);
    assert!(plugin.apply(&mut doc, &PluginInfo::default(), Some(&config)).is_ok());
    assert_eq!(doc.root.children.len(), 1);
    if let Node::Element(element) = &doc.root.children[0] {
        assert_eq!(element.name, "circle");
        assert_eq!(element.attributes.get("id"), Some(&"elementToKeep".to_string()));
    } else {
        panic!("Expected element");
    }
}

#[test]
fn test_apply_removes_by_class() {
    let mut plugin = RemoveElementsByAttrPlugin::new();
    let mut doc = Document::new();
    doc.root.children.push(Node::Element(elem("rect", "class", "some-class removeMe another-class")));
    doc.root.children.push(Node::Element(elem("circle", "class", "some-class keep-me another-class")));
    let config = obj(vec![("class", s("removeMe"))]);
    assert!(plugin.apply(&mut doc, &PluginInfo::default(), Some(&config)).is_ok());
    assert_eq!(doc.root.children.len(), 1);
    if let Node::Element(element) = &doc.root.children[0] {
        assert_eq!(element.name, "circle");
        assert_eq!(element.attributes.get("class"), Some(&"some-class keep-me another-class".to_string()));
    } else {
        panic!("Expected element");
    }
}

#[test]
fn test_apply_no_config_does_nothing() {
    let mut plugin = RemoveElementsByAttrPlugin::new();
    let mut doc = Document::new();
    doc.root.children.push(Node::Element(elem("rect", "id", "someId")));
    assert!(plugin.apply(&mut doc, &PluginInfo::default(), None).is_ok());
    assert_eq!(doc.root.children.len(), 1);
}

#[test]
fn test_apply_recursive() {
    let mut plugin = RemoveElementsByAttrPlugin::new();
    let mut doc = Document::new();
    let mut group = elem("g", "id", "group");
    group.children.push(Node::Element(elem("rect", "id", "removeMe")));
    doc.root.children.push(Node::Element(group));
    let config = obj(vec![("id", s("removeMe"))]);
    assert!(plugin.apply(&mut doc, &PluginInfo::default(), Some(&config)).is_ok());
    assert_eq!(doc.root.children.len(), 1);
    if let Node::Element(group) = &doc.root.children[0] {
        assert_eq!(group.name, "g");
        assert_eq!(group.children.len(), 0);
    } else {
        panic!("Expected group element");
    }
}

fn marked(e: &Element, ids: &[&str], classes: &[&str]) -> bool {
    e.children.iter().any(|c| match c {
        Node::Element(x) => {
            let by_id = x.attributes.get("id").map_or(false, |v| ids.contains(&v.as_str()));
            let by_class = x.attributes.get("class").map_or(false, |v| v.split_whitespace().any(|w| classes.contains(&w)));
            by_id || by_class || marked(x, ids, classes)
        }
        _ => false,
    })
}

#[test]
fn removed_ids_and_classes_are_gone_at_every_depth() {
    let mut inner = Element::new("g");
    inner.children.push(Node::Element(elem("rect", "id", "zap")));
    inner.children.push(Node::Element(elem("circle", "class", "keep gone")));
    inner.children.push(Node::Element(elem("path", "class", "keep")));
    let mut root = Element::new("svg");
    root.children.push(Node::Element(inner));
    root.children.push(Node::Element(elem("g", "id", "zap")));
    let mut document = Document::new();
    document.root = root;
    let params = obj(vec![("id", s("zap")), ("class", s("gone"))]);
    let mut plugin = RemoveElementsByAttrPlugin::new();
    plugin.apply(&mut document, &PluginInfo::default(), Some(&params)).unwrap();
    assert!(!marked(&document.root, &["zap"], &["gone"]));
    assert_eq!(document.root.children.len(), 1);
    match &document.root.children[0] {
        Node::Element(g) => {
            assert_eq!(g.children.len(), 1);
            assert!(matches!(&g.children[0], Node::Element(p) if p.name == "path"));
        }
        _ => panic!("expected the group"),
    }
}
