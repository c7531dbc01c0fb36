use svgn::ast::{Element, Node};
use svgn::parser::Parser;
use svgn::plugin::{Plugin, PluginInfo};
use svgn::plugins::remove_comments::RemoveCommentsPlugin;
use svgn::plugins::remove_doctype::RemoveDoctypePlugin;

#[test]
fn test_remove_doctype() {
    let svg = r#"<!DOCTYPE svg PUBLIC "-//W3C//DTD SVG 1.1//EN" "http://www.w3.org/Graphics/SVG/1.1/DTD/svg11.dtd">
<svg xmlns="http://www.w3.org/2000/svg" width="100" height="100">
    <rect x="10" y="10" width="80" height="80"/>
</svg>"#;
    let parser = Parser::new();
    let mut document = parser.parse(svg).unwrap();
    assert!(document.prologue.iter().any(|n| n.is_doctype()));
    let mut plugin = RemoveDoctypePlugin;
    plugin.apply(&mut document, &PluginInfo::default(), None).unwrap();
    assert!(!document.prologue.iter().any(|n| n.is_doctype()));
}

#[test]
fn test_empty_document() {
    let svg = r#"<svg xmlns="http://www.w3.org/2000/svg"/>"#;
    let parser = Parser::new();
    let mut document = parser.parse(svg).unwrap();
    let mut plugin = RemoveDoctypePlugin;
    plugin.apply(&mut document, &PluginInfo::default(), None).unwrap();
}

fn has_comments(element: &Element) -> bool {
    for child in &element.children {
        match child {
            Node::Comment(_) => return true,
            Node::Element(el) => {
                if has_comments(el) {
                    return true;
                }
            }
            _ => {}
        }
    }
    false
}

#[test]
fn test_remove_comments() {
    let svg = r#"<svg>
            <!-- This is a comment -->
            <g>
                <!-- Another comment -->
                <rect/>
            </g>
        </svg>"#;
    let parser = Parser::new();
    let mut document = parser.parse(svg).unwrap();
    let mut plugin = RemoveCommentsPlugin;
    plugin.apply(&mut document, &PluginInfo::default(), None).unwrap();
    assert!(!has_comments(&document.root));
}

#[test]
fn test_keeps_legal_comments() {
    let svg = "<svg><!--! legal --><!-- plain --><g/></svg>";
    let parser = Parser::new().preserve_comments(true);
    let mut document = parser.parse(svg).unwrap();
    let mut plugin = RemoveCommentsPlugin;
    plugin.apply(&mut document, &PluginInfo::default(), None).unwrap();
    assert_eq!(document.root.children.len(), 2);
    assert!(matches!(&document.root.children[0], Node::Comment(c) if c == "! legal "));
}

fn comments_in(element: &Element, out: &mut Vec<String>) {
    for child in &element.children {
        match child {
            Node::Comment(c) => out.push(c.clone()),
            Node::Element(el) => comments_in(el, out),
            _ => {}
        }
    }
}

#[test]
fn remove_comments_leaves_only_legal_ones_at_every_depth() {
    let svg = "<!-- p --><svg><g><!--! deep legal --><!-- deep --><g><!-- deeper --></g></g></svg><!--! e -->";
    let parser = Parser::new().preserve_comments(true);
    let mut document = parser.parse(svg).unwrap();
    let mut plugin = RemoveCommentsPlugin;
    plugin.apply(&mut document, &PluginInfo::default(), None).unwrap();
    let mut found = Vec::new();
    comments_in(&document.root, &mut found);
    assert_eq!(found, vec!["! deep legal ".to_string()]);
    assert!(document.prologue.is_empty());
    assert!(matches!(document.epilogue.first(), Some(Node::Comment(c)) if c == "! e "));

    let mut document = parser.parse(svg).unwrap();
    let params = svgn::value::Value::Object(vec![("preservePatterns".to_string(), svgn::value::Value::Bool(false))]);
    plugin.apply(&mut document, &PluginInfo::default(), Some(&params)).unwrap();
    assert!(!has_comments(&document.root));
    assert!(document.epilogue.is_empty());
}
