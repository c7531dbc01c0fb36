use svgn::ast::{Document, Element, Node};
use svgn::parser::parse_svg;
use svgn::plugin::{Plugin, PluginInfo};
use svgn::plugins::convert_one_stop_gradients::{style_stop_color_of, ConvertOneStopGradientsPlugin};

fn run(svg: &str) -> Document {
    let mut doc = parse_svg(svg).unwrap();
    let mut plugin = ConvertOneStopGradientsPlugin::new();
    plugin.apply(&mut doc, &PluginInfo::default(), None).unwrap();
    doc
}

fn find<'a>(root: &'a Element, name: &str) -> Option<&'a Element> {
    root.children.iter().find_map(|child| {
        if let Node::Element(e) = child {
            if e.name == name {
                Some(e)
            } else {
                None
            }
        } else {
            None
        }
    })
}

#[test]
fn test_convert_one_stop_gradient() {
    let doc = run(r#"
            <svg xmlns="http://www.w3.org/2000/svg">
                <defs>
                    <linearGradient id="grad1">
                        <stop stop-color="red"/>
                    </linearGradient>
                </defs>
                <rect fill="url(#grad1)" width="100" height="100"/>
            </svg>
        "#);
    let elem = &doc.root;
    assert!(!elem.children.iter().any(|child| {
        if let Node::Element(e) = child {
            e.name == "defs"
        } else {
            false
        }
    }));
    let rect = find(elem, "rect").unwrap();
    assert_eq!(rect.attributes.get("fill"), Some(&"red".to_string()));
}

#[test]
fn test_convert_radial_gradient() {
    let doc = run(r##"
            <svg xmlns="http://www.w3.org/2000/svg">
                <defs>
                    <radialGradient id="grad1">
                        <stop stop-color="#ff0000"/>
                    </radialGradient>
                </defs>
                <circle fill="url(#grad1)" cx="50" cy="50" r="40"/>
            </svg>
        "##);
    let circle = find(&doc.root, "circle").unwrap();
    assert_eq!(circle.attributes.get("fill"), Some(&"#ff0000".to_string()));
}

#[test]
fn test_preserve_multi_stop_gradient() {
    let doc = run(r#"
            <svg xmlns="http://www.w3.org/2000/svg">
                <defs>
                    <linearGradient id="grad1">
                        <stop offset="0%" stop-color="red"/>
                        <stop offset="100%" stop-color="blue"/>
                    </linearGradient>
                </defs>
                <rect fill="url(#grad1)" width="100" height="100"/>
            </svg>
        "#);
    let elem = &doc.root;
    assert!(elem.children.iter().any(|child| {
        if let Node::Element(e) = child {
            e.name == "defs"
        } else {
            false
        }
    }));
    let rect = find(elem, "rect").unwrap();
    assert_eq!(rect.attributes.get("fill"), Some(&"url(#grad1)".to_string()));
}

#[test]
fn convert_one_stop_gradients_test_style_attribute() {
    let doc = run(r#"
            <svg xmlns="http://www.w3.org/2000/svg">
                <defs>
                    <linearGradient id="grad1">
                        <stop stop-color="blue"/>
                    </linearGradient>
                </defs>
                <rect style="fill: url(#grad1); stroke: black" width="100" height="100"/>
            </svg>
        "#);
    let rect = find(&doc.root, "rect").unwrap();
    assert_eq!(rect.attributes.get("style"), Some(&"fill: blue; stroke: black".to_string()));
}

#[test]
fn test_stop_color_in_style() {
    let doc = run(r#"
            <svg xmlns="http://www.w3.org/2000/svg">
                <defs>
                    <linearGradient id="grad1">
                        <stop style="stop-color: green"/>
                    </linearGradient>
                </defs>
                <rect fill="url(#grad1)" width="100" height="100"/>
            </svg>
        "#);
    let rect = find(&doc.root, "rect").unwrap();
    assert_eq!(rect.attributes.get("fill"), Some(&"green".to_string()));
}

#[test]
fn test_default_stop_color() {
    let doc = run(r#"
            <svg xmlns="http://www.w3.org/2000/svg">
                <defs>
                    <linearGradient id="grad1">
                        <stop/>
                    </linearGradient>
                </defs>
                <rect fill="url(#grad1)" width="100" height="100"/>
            </svg>
        "#);
    let rect = find(&doc.root, "rect").unwrap();
    assert_eq!(rect.attributes.get("fill"), Some(&"black".to_string()));
}

#[test]
fn test_referring_gradient_without_stops_is_kept() {
    let doc = run(r##"<svg><defs><linearGradient id="g1"><stop stop-color="green"/></linearGradient><linearGradient id="g2" href="#g1"/></defs><rect fill="url(#g2)"/><circle fill="url(#g1)"/></svg>"##);
    let defs = find(&doc.root, "defs").unwrap();
    assert_eq!(defs.children.len(), 1);
    assert_eq!(find(&doc.root, "rect").unwrap().attr("fill"), Some(&"url(#g2)".to_string()));
    assert_eq!(find(&doc.root, "circle").unwrap().attr("fill"), Some(&"green".to_string()));
}

#[test]
fn test_unused_xlink_declaration_goes() {
    let doc = run(r#"<svg xmlns:xlink="http://www.w3.org/1999/xlink"><defs><linearGradient id="g"><stop stop-color="red"/></linearGradient></defs><rect fill="url(#g)"/></svg>"#);
    assert!(!doc.root.has_attr("xmlns:xlink"));
    let doc = run(r##"<svg xmlns:xlink="http://www.w3.org/1999/xlink"><linearGradient id="g"><stop stop-color="red"/></linearGradient><use xlink:href="#x"/></svg>"##);
    assert!(doc.root.has_attr("xmlns:xlink"));
}

#[test]
fn test_no_one_stop_gradient_changes_nothing() {
    let doc = run(r#"<svg xmlns:xlink="http://www.w3.org/1999/xlink"><defs/><rect fill="red"/></svg>"#);
    assert!(doc.root.has_attr("xmlns:xlink"));
    assert!(find(&doc.root, "defs").is_some());
}

#[test]
fn test_style_stop_color_parsing() {
    assert_eq!(style_stop_color_of("opacity: 1; stop-color:  #abc ; x: y"), Some("#abc".to_string()));
    assert_eq!(style_stop_color_of("stop-color:red"), Some("red".to_string()));
    assert_eq!(style_stop_color_of("fill: red"), None);
}

#[test]
fn xlink_namespace_binding_follows_its_declaration() {
    let doc = run(r#"<svg xmlns="http://www.w3.org/2000/svg" xmlns:xlink="http://www.w3.org/1999/xlink"><defs><linearGradient id="g"><stop stop-color="red"/></linearGradient></defs><rect fill="url(#g)"/></svg>"#);
    assert_eq!(doc.root.namespaces.get("xlink"), None);
    assert_eq!(doc.root.namespaces.get(""), Some(&"http://www.w3.org/2000/svg".to_string()));
    let doc = run(r#"<svg xmlns:xlink="http://www.w3.org/1999/xlink"><defs/><rect fill="red"/></svg>"#);
    assert_eq!(doc.root.namespaces.get("xlink"), Some(&"http://www.w3.org/1999/xlink".to_string()));
}
