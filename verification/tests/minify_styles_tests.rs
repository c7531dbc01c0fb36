use svgn::ast::{Element, Node};
use svgn::plugins::minify_styles::{minify_css, minify_css_block, minify_style_element_content, minify_styles_in_element};

fn create_style_element(css: &str) -> Element {
    let mut element = Element::new("style");
    element.add_child(Node::Text(css.to_string()));
    element
}

#[test]
fn test_minify_css_basic() {
    let css = "  body  {  margin : 0 ;  padding : 10px  ;  }  ";
    let expected = "body{margin:0;padding:10px}";
    assert_eq!(minify_css(css, true), expected);
}

#[test]
fn test_minify_css_with_comments() {
    let css = "/* comment */ body { margin: 0; /* another comment */ }";
    let expected = "body{margin:0}";
    assert_eq!(minify_css(css, true), expected);
}

#[test]
fn test_minify_css_preserve_comments() {
    let css = "/* comment */ body { margin: 0; }";
    let result = minify_css(css, false);
    assert!(result.contains("/* comment */"));
    assert!(result.contains("body{margin:0}"));
}

#[test]
fn test_minify_css_block() {
    let css = "margin: 10px; padding: 5px;";
    let expected = "margin:10px;padding:5px";
    assert_eq!(minify_css_block(css, true), expected);
}

#[test]
fn test_minify_css_block_trailing_semicolon() {
    let css = "margin: 10px;";
    let expected = "margin:10px";
    assert_eq!(minify_css_block(css, true), expected);
}

#[test]
fn test_minify_style_element() {
    let mut element = create_style_element("  body  {  margin : 0 ;  }  ");
    minify_style_element_content(&mut element, true);
    if let Some(Node::Text(text)) = element.children.first() {
        assert_eq!(text, "body{margin:0}");
    } else {
        panic!("Expected text content");
    }
}

#[test]
fn test_empty_style_element_removal() {
    let mut element = create_style_element("/* only comments */");
    minify_style_element_content(&mut element, true);
    assert!(element.children.is_empty());
}

#[test]
fn test_style_attribute_minification() {
    let mut element = Element::new("rect");
    element.attributes.insert("style".to_string(), "margin: 10px; padding: 5px;".to_string());
    minify_styles_in_element(&mut element, true);
    assert_eq!(element.attr("style").unwrap(), "margin:10px;padding:5px");
}

#[test]
fn test_complex_css_minification() {
    let css = r#"
            .class1 { 
                color: red; 
                font-size: 12px; 
            }
            .class2 { 
                background: blue; 
            }
        "#;
    let expected = ".class1{color:red;font-size:12px}.class2{background:blue}";
    assert_eq!(minify_css(css, true), expected);
}

#[test]
fn test_preserve_important() {
    let css = "color: red !important; margin: 0;";
    let result = minify_css(css, true);
    assert!(result.contains("!important"));
    assert_eq!(result, "color:red !important;margin:0");
}

#[test]
fn test_unchanged_blank_style_kept() {
    let mut element = create_style_element("");
    minify_style_element_content(&mut element, true);
    assert_eq!(element.children.len(), 1);
}
