use svgn::plugins::cleanup_list_of_values::CleanupListOfValuesParams;
use svgn::plugins::cleanup_numeric_values::CleanupNumericValuesParams;
use svgn::value::Value;

fn object(members: Vec<(&str, Value)>) -> Value {
    Value::Object(members.into_iter().map(|(k, v)| (k.to_string(), v)).collect())
}

#[test]
fn list_params_defaults_without_value() {
    let p = CleanupListOfValuesParams::from_value(None);
    assert_eq!(p.float_precision, 3);
    assert!(p.leading_zero && p.default_px && p.convert_to_px);
    let d = CleanupListOfValuesParams::default();
    assert_eq!(d.float_precision, 3);
}

#[test]
fn list_params_read_from_object() {
    let v = object(vec![
        ("floatPrecision", Value::Number("5".to_string())),
        ("leadingZero", Value::Bool(false)),
        ("convertToPx", Value::Bool(false)),
    ]);
    let p = CleanupListOfValuesParams::from_value(Some(&v));
    assert_eq!(p.float_precision, 5);
    assert!(!p.leading_zero);
    assert!(p.default_px);
    assert!(!p.convert_to_px);
}

#[test]
fn list_params_ignore_wrong_kinds() {
    let v = object(vec![
        ("floatPrecision", Value::Number("-2".to_string())),
        ("leadingZero", Value::String("no".to_string())),
        ("defaultPx", Value::Bool(false)),
    ]);
    let p = CleanupListOfValuesParams::from_value(Some(&v));
    assert_eq!(p.float_precision, 3);
    assert!(p.leading_zero);
    assert!(!p.default_px);
    let q = CleanupListOfValuesParams::from_value(Some(&Value::Bool(true)));
    assert_eq!(q.float_precision, 3);
}

#[test]
fn numeric_params_read_from_object() {
    let v = object(vec![
        ("floatPrecision", Value::Number("0".to_string())),
        ("defaultPx", Value::Bool(false)),
    ]);
    let p = CleanupNumericValuesParams::from_value(Some(&v));
    assert_eq!(p.float_precision, 0);
    assert!(p.leading_zero);
    assert!(!p.default_px);
    assert!(p.convert_to_px);
    let big = object(vec![("floatPrecision", Value::Number("99999999999999999999".to_string()))]);
    assert_eq!(CleanupNumericValuesParams::from_value(Some(&big)).float_precision, 3);
    assert_eq!(CleanupNumericValuesParams::default().float_precision, 3);
}
