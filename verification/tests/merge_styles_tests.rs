use svgn::ast::{Element, Node};
use svgn::parser::Parser;
use svgn::plugin::{Plugin, PluginInfo};
use svgn::plugins::merge_styles::MergeStylesPlugin;

fn count_style_elements(element: &Element) -> usize {
    let mut count = 0;
    for child in &element.children {
        if let Node::Element(elem) = child {
            if elem.name == "style" {
                count += 1;
            }
            count += count_style_elements(elem);
        }
    }
    count
}

fn run(svg: &str) -> svgn::ast::Document {
    let mut document = Parser::new().parse(svg).unwrap();
    let mut plugin = MergeStylesPlugin;
    plugin.apply(&mut document, &PluginInfo { path: None, multipass_count: 0 }, None).unwrap();
    document
}

#[test]
fn test_merge_styles() {
    let d = run(r#"<svg>
            <style>.a{fill:red}</style>
            <style>.b{fill:blue}</style>
            <rect class="a"/>
            <rect class="b"/>
        </svg>"#);
    assert_eq!(count_style_elements(&d.root), 1);
}

#[test]
fn test_merge_styles_with_media() {
    let d = run(r#"<svg>
            <style media="print">.a{fill:red}</style>
            <style>.b{fill:blue}</style>
            <style media="screen">.c{fill:green}</style>
        </svg>"#);
    assert_eq!(count_style_elements(&d.root), 1);
    if let Node::Element(s) = &d.root.children[0] {
        assert!(matches!(&s.children[0], Node::Text(t) if t == "@media print {\n.a{fill:red}\n}\n.b{fill:blue}\n@media screen {\n.c{fill:green}\n}\n"));
    } else {
        panic!("expected the merged style first");
    }
}

#[test]
fn test_remove_empty_styles() {
    let d = run("<svg>\n            <style></style>\n            <style>  </style>\n            <style>.a{fill:red}</style>\n            <style>\n            \n            </style>\n        </svg>");
    assert_eq!(count_style_elements(&d.root), 1);
}

#[test]
fn test_merge_styles_cdata_and_nested() {
    let d = run("<svg><g><style>a&gt;b{}</style><style><![CDATA[x<y{}]]></style></g></svg>");
    if let Node::Element(g) = &d.root.children[0] {
        assert_eq!(g.children.len(), 1);
        if let Node::Element(s) = &g.children[0] {
            assert!(matches!(&s.children[0], Node::CData(_)));
        }
    } else {
        panic!("expected g");
    }
}

fn styles_among_children(element: &Element) -> usize {
    element.children.iter().filter(|c| matches!(c, Node::Element(e) if e.name == "style")).count()
}

#[test]
fn merge_styles_leaves_one_style_in_the_tree() {
    let d = run("<svg><style>.a{}</style><g><style>.b{}</style><rect/><style>.c{}</style></g><style>.d{}</style></svg>");
    assert_eq!(styles_among_children(&d.root), 1);
    assert_eq!(count_style_elements(&d.root), 1);
    match &d.root.children[1] {
        Node::Element(g) => {
            assert_eq!(g.name, "g");
            assert_eq!(styles_among_children(g), 0);
        }
        _ => panic!("expected g"),
    }
}

#[test]
fn merge_styles_reaches_into_defs() {
    let d = run("<svg><style>.a{fill:red}</style><defs><style>.b{fill:blue}</style></defs></svg>");
    assert_eq!(count_style_elements(&d.root), 1);
    match &d.root.children[0] {
        Node::Element(s) => {
            assert_eq!(s.name, "style");
            match &s.children[0] {
                Node::Text(t) => {
                    assert!(t.contains(".a{fill:red}"));
                    assert!(t.contains(".b{fill:blue}"));
                }
                _ => panic!("expected text"),
            }
        }
        _ => panic!("expected the merged style"),
    }
}
