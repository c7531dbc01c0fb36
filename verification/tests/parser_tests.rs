use svgn::ast::Node;
use svgn::parser::{build_document, parse_svg, split_pi, ParseError, Parser, StartTag, XmlEvent};

#[test]
fn test_parse_simple_svg() {
    let svg = r#"<svg width="100" height="100"><rect x="10" y="10" width="50" height="50"/></svg>"#;
    let document = parse_svg(svg).unwrap();

    assert_eq!(document.root.name, "svg");
    assert_eq!(document.root.attr("width"), Some(&"100".to_string()));
    assert_eq!(document.root.children.len(), 1);

    if let Some(Node::Element(rect)) = document.root.children.first() {
        assert_eq!(rect.name, "rect");
        assert_eq!(rect.attr("x"), Some(&"10".to_string()));
    } else {
        panic!("Expected rect element");
    }
}

#[test]
fn test_parse_with_text() {
    let svg = r#"<svg><text>Hello World</text></svg>"#;
    let document = parse_svg(svg).unwrap();

    if let Some(Node::Element(text_elem)) = document.root.children.first() {
        assert_eq!(text_elem.name, "text");
        if let Some(Node::Text(text)) = text_elem.children.first() {
            assert_eq!(text, "Hello World");
        } else {
            panic!("Expected text node");
        }
    } else {
        panic!("Expected text element");
    }
}

#[test]
fn test_parse_with_comments() {
    let svg = r#"<svg><!-- This is a comment --><rect/></svg>"#;
    let parser = Parser::new().preserve_comments(true);
    let document = parser.parse(svg).unwrap();

    assert_eq!(document.root.children.len(), 2);
    if let Some(Node::Comment(comment)) = document.root.children.first() {
        assert_eq!(comment, " This is a comment ");
    } else {
        panic!("Expected comment node");
    }
}

#[test]
fn test_parse_empty_element() {
    let svg = r#"<svg/>"#;
    let document = parse_svg(svg).unwrap();

    assert_eq!(document.root.name, "svg");
    assert!(document.root.children.is_empty());
}

#[test]
fn test_parse_with_namespaces() {
    let svg = r#"<svg xmlns="http://www.w3.org/2000/svg" xmlns:xlink="http://www.w3.org/1999/xlink"><rect/></svg>"#;
    let document = parse_svg(svg).unwrap();

    assert_eq!(
        document.root.namespaces.get(""),
        Some(&"http://www.w3.org/2000/svg".to_string())
    );
    assert_eq!(
        document.root.namespaces.get("xlink"),
        Some(&"http://www.w3.org/1999/xlink".to_string())
    );
}

#[test]
fn test_parse_invalid_xml() {
    let svg = r#"<svg><rect></svg>"#;
    let result = parse_svg(svg);
    assert!(result.is_err());
}

#[test]
fn test_comments_dropped_by_default() {
    let document = parse_svg("<!-- a --><svg><!-- b --><g/></svg><!-- c -->").unwrap();
    assert!(document.prologue.is_empty());
    assert!(document.epilogue.is_empty());
    assert_eq!(document.root.children.len(), 1);
}

#[test]
fn test_prologue_and_epilogue_comments() {
    let parser = Parser::new().preserve_comments(true);
    let document = parser.parse("<!-- a --><svg/><!-- c -->").unwrap();
    assert!(matches!(document.prologue.first(), Some(Node::Comment(c)) if c == " a "));
    assert!(matches!(document.epilogue.first(), Some(Node::Comment(c)) if c == " c "));
}

#[test]
fn test_whitespace_text_dropped() {
    let document = parse_svg("<svg>\n  <g/>\n</svg>").unwrap();
    assert_eq!(document.root.children.len(), 1);
}

#[test]
fn test_declaration_and_doctype() {
    let document = parse_svg("<?xml version=\"1.0\" encoding=\"UTF-8\"?><!DOCTYPE svg><svg/>").unwrap();
    assert_eq!(document.metadata.version, Some("1.0".to_string()));
    assert_eq!(document.metadata.encoding, Some("UTF-8".to_string()));
    assert!(document.prologue.iter().any(|n| n.is_doctype()));
}

#[test]
fn test_split_pi() {
    assert_eq!(split_pi("xml-stylesheet href=\"a.css\""), ("xml-stylesheet".to_string(), "href=\"a.css\"".to_string()));
    assert_eq!(split_pi("target"), ("target".to_string(), String::new()));
}

#[test]
fn test_build_document_from_events() {
    let events = vec![
        XmlEvent::Start(StartTag { name: "svg".to_string(), attrs: vec![("a".to_string(), "1".to_string()), ("a".to_string(), "2".to_string())] }),
        XmlEvent::Empty(StartTag { name: "rect".to_string(), attrs: vec![] }),
        XmlEvent::Text("hi".to_string()),
        XmlEvent::End,
        XmlEvent::Eof,
        XmlEvent::Start(StartTag { name: "ignored".to_string(), attrs: vec![] }),
    ];
    let d = build_document(events, false, false).unwrap();
    assert_eq!(d.root.name, "svg");
    assert_eq!(d.root.attributes.len(), 1);
    assert_eq!(d.root.attr("a"), Some(&"2".to_string()));
    assert_eq!(d.root.children.len(), 2);
}

#[test]
fn test_build_document_no_root() {
    let events = vec![
        XmlEvent::Start(StartTag { name: "".to_string(), attrs: vec![] }),
        XmlEvent::End,
        XmlEvent::Eof,
    ];
    match build_document(events, false, false) {
        Err(ParseError::StructureError(m)) => assert_eq!(m, "No root element found"),
        _ => panic!("expected a structure error"),
    }
}

fn no_unkept(nodes: &[Node]) -> bool {
    nodes.iter().all(|n| match n {
        Node::Comment(_) => false,
        Node::Text(t) => !t.trim().is_empty(),
        Node::Element(e) => no_unkept(&e.children),
        _ => true,
    })
}

#[test]
fn builder_leaves_out_unkept_nodes_at_every_depth() {
    let tag = |n: &str| StartTag { name: n.to_string(), attrs: vec![] };
    let events = vec![
        XmlEvent::Comment(" before ".to_string()),
        XmlEvent::Start(tag("svg")),
        XmlEvent::Text("  ".to_string()),
        XmlEvent::Start(tag("g")),
        XmlEvent::Comment(" inner ".to_string()),
        XmlEvent::Text("\n".to_string()),
        XmlEvent::Text("kept".to_string()),
        XmlEvent::End,
        XmlEvent::End,
        XmlEvent::Comment(" after ".to_string()),
        XmlEvent::Eof,
    ];
    let document = build_document(events, false, false).unwrap();
    assert!(no_unkept(&document.prologue));
    assert!(no_unkept(&document.root.children));
    assert!(no_unkept(&document.epilogue));
    match &document.root.children[0] {
        Node::Element(g) => {
            assert_eq!(g.children.len(), 1);
            assert!(matches!(&g.children[0], Node::Text(t) if t == "kept"));
        }
        _ => panic!("expected the group"),
    }
}

#[test]
fn parse_empty_input_keeps_default_root() {
    let document = parse_svg("").unwrap();
    assert_eq!(document.root.name, "svg");
    assert!(document.root.children.is_empty());
    assert!(document.prologue.is_empty());
    let document = parse_svg("<!-- only a comment -->").unwrap();
    assert_eq!(document.root.name, "svg");
    assert!(document.prologue.is_empty());
}

#[test]
fn preserved_whitespace_is_not_trimmed() {
    let parser = Parser::new().preserve_whitespace(true);
    let d = parser.parse("<svg><text> a b </text></svg>").unwrap();
    match &d.root.children[0] {
        Node::Element(t) => assert!(matches!(&t.children[..], [Node::Text(x)] if x == " a b ")),
        _ => panic!("expected text"),
    }
    let d = Parser::new().parse("<svg><text> a b </text></svg>").unwrap();
    match &d.root.children[0] {
        Node::Element(t) => assert!(matches!(&t.children[..], [Node::Text(x)] if x == "a b")),
        _ => panic!("expected text"),
    }
}

#[test]
fn namespace_declarations_are_recorded_per_element() {
    let document = parse_svg(r#"<svg xmlns:a="urn:a" xmlnsx="urn:x"><g xmlns:b="urn:b" xmlns:a="urn:c"/></svg>"#).unwrap();
    assert_eq!(document.root.namespaces.len(), 1);
    assert_eq!(document.root.namespaces.get("a"), Some(&"urn:a".to_string()));
    assert_eq!(document.root.attr("xmlnsx"), Some(&"urn:x".to_string()));
    let g = match &document.root.children[0] {
        Node::Element(e) => e,
        _ => panic!("expected an element"),
    };
    assert_eq!(g.namespaces.len(), 2);
    assert_eq!(g.namespaces.get("b"), Some(&"urn:b".to_string()));
    assert_eq!(g.namespaces.get("a"), Some(&"urn:c".to_string()));
}
