use svgn::ast::{Document, Element, Node};
use svgn::parser::Parser;
use svgn::plugin::{Plugin, PluginInfo};
use svgn::plugins::convert_ellipse_to_circle::ConvertEllipseToCirclePlugin;
use svgn::plugins::remove_desc::RemoveDescPlugin;
use svgn::value::Value;

fn create_ellipse(cx: &str, cy: &str, rx: &str, ry: &str) -> Element {
    let mut ellipse = Element::new("ellipse");
    ellipse.attributes.insert("cx".to_string(), cx.to_string());
    ellipse.attributes.insert("cy".to_string(), cy.to_string());
    ellipse.attributes.insert("rx".to_string(), rx.to_string());
    ellipse.attributes.insert("ry".to_string(), ry.to_string());
    ellipse
}

fn convert(root: Element) -> Document {
    let mut doc = Document::default();
    doc.root = root;
    let mut plugin = ConvertEllipseToCirclePlugin;
    plugin.apply(&mut doc, &PluginInfo::default(), None).unwrap();
    doc
}

#[test]
fn test_convert_equal_radii() {
    let doc = convert(create_ellipse("50", "50", "25", "25"));
    assert_eq!(doc.root.name, "circle");
    assert_eq!(doc.root.attributes.get("r"), Some(&"25".to_string()));
    assert_eq!(doc.root.attributes.get("rx"), None);
    assert_eq!(doc.root.attributes.get("ry"), None);
    assert_eq!(doc.root.attributes.get("cx"), Some(&"50".to_string()));
    assert_eq!(doc.root.attributes.get("cy"), Some(&"50".to_string()));
}

#[test]
fn test_keep_unequal_radii() {
    let doc = convert(create_ellipse("50", "50", "30", "20"));
    assert_eq!(doc.root.name, "ellipse");
    assert_eq!(doc.root.attributes.get("rx"), Some(&"30".to_string()));
    assert_eq!(doc.root.attributes.get("ry"), Some(&"20".to_string()));
    assert_eq!(doc.root.attributes.get("r"), None);
}

#[test]
fn test_convert_rx_auto() {
    let doc = convert(create_ellipse("50", "50", "auto", "25"));
    assert_eq!(doc.root.name, "circle");
    assert_eq!(doc.root.attributes.get("r"), Some(&"25".to_string()));
}

#[test]
fn test_convert_ry_auto() {
    let doc = convert(create_ellipse("50", "50", "30", "auto"));
    assert_eq!(doc.root.name, "circle");
    assert_eq!(doc.root.attributes.get("r"), Some(&"30".to_string()));
}

#[test]
fn test_default_zero_values() {
    let mut ellipse = Element::new("ellipse");
    ellipse.attributes.insert("cx".to_string(), "50".to_string());
    ellipse.attributes.insert("cy".to_string(), "50".to_string());
    let doc = convert(ellipse);
    assert_eq!(doc.root.name, "circle");
    assert_eq!(doc.root.attributes.get("r"), Some(&"0".to_string()));
}

#[test]
fn test_nested_ellipses() {
    let mut svg = Element::new("svg");
    svg.children.push(Node::Element(create_ellipse("25", "25", "10", "10")));
    svg.children.push(Node::Element(create_ellipse("75", "75", "20", "15")));
    let doc = convert(svg);
    if let Some(Node::Element(ref first)) = doc.root.children.get(0) {
        assert_eq!(first.name, "circle");
        assert_eq!(first.attributes.get("r"), Some(&"10".to_string()));
    }
    if let Some(Node::Element(ref second)) = doc.root.children.get(1) {
        assert_eq!(second.name, "ellipse");
        assert_eq!(second.attributes.get("rx"), Some(&"20".to_string()));
        assert_eq!(second.attributes.get("ry"), Some(&"15".to_string()));
    }
}

fn has_desc_element(element: &Element) -> bool {
    for child in &element.children {
        if let Node::Element(child_element) = child {
            if child_element.name == "desc" {
                return true;
            }
            if has_desc_element(child_element) {
                return true;
            }
        }
    }
    false
}

fn remove_desc(svg: &str, params: Option<&Value>) -> Document {
    let mut document = Parser::new().parse(svg).unwrap();
    let mut plugin = RemoveDescPlugin;
    plugin.apply(&mut document, &PluginInfo::default(), params).unwrap();
    document
}

#[test]
fn test_remove_empty_desc() {
    let svg = r#"<svg xmlns="http://www.w3.org/2000/svg">
            <desc></desc>
            <rect width="100" height="100"/>
        </svg>"#;
    assert!(!has_desc_element(&remove_desc(svg, None).root));
}

#[test]
fn test_remove_standard_desc() {
    let svg = r#"<svg xmlns="http://www.w3.org/2000/svg">
            <desc>Created with Sketch.</desc>
            <rect width="100" height="100"/>
        </svg>"#;
    assert!(!has_desc_element(&remove_desc(svg, None).root));
}

#[test]
fn test_preserve_custom_desc() {
    let svg = r#"<svg xmlns="http://www.w3.org/2000/svg">
            <desc>This is a custom description for accessibility</desc>
            <rect width="100" height="100"/>
        </svg>"#;
    assert!(has_desc_element(&remove_desc(svg, None).root));
}

#[test]
fn test_remove_any() {
    let svg = r#"<svg xmlns="http://www.w3.org/2000/svg">
            <desc>This is a custom description for accessibility</desc>
            <rect width="100" height="100"/>
        </svg>"#;
    let params = Value::Object(vec![("removeAny".to_string(), Value::Bool(true))]);
    assert!(!has_desc_element(&remove_desc(svg, Some(&params)).root));
}
