use svgn::ast::Element;
use svgn::plugins::cleanup_numeric_values::remove_leading_zero;
use svgn::plugins::remove_dimensions::drop_dimensions_with_viewbox;

#[test]
fn svg_with_viewbox_loses_dimensions() {
    let mut e = Element::new("svg");
    e.attributes.insert("width".to_string(), "100".to_string());
    e.attributes.insert("viewBox".to_string(), "0 0 100 50".to_string());
    e.attributes.insert("height".to_string(), "50".to_string());
    assert!(drop_dimensions_with_viewbox(&mut e));
    let names: Vec<&String> = e.attributes.keys().collect();
    assert_eq!(names, vec!["viewBox"]);
}

#[test]
fn other_elements_keep_dimensions() {
    let mut e = Element::new("svg");
    e.attributes.insert("width".to_string(), "100".to_string());
    assert!(!drop_dimensions_with_viewbox(&mut e));
    assert_eq!(e.attributes.len(), 1);
    let mut r = Element::new("rect");
    r.attributes.insert("width".to_string(), "1".to_string());
    r.attributes.insert("viewBox".to_string(), "0 0 1 1".to_string());
    assert!(!drop_dimensions_with_viewbox(&mut r));
    assert_eq!(r.attributes.len(), 2);
}

#[test]
fn leading_zero_removed() {
    assert_eq!(remove_leading_zero("0.5"), ".5");
    assert_eq!(remove_leading_zero("-0.25"), "-.25");
    assert_eq!(remove_leading_zero("10.5"), "10.5");
    assert_eq!(remove_leading_zero("0"), "0");
}
