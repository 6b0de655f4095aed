//! Typed property decoding: the typing rules, duplicate rejection, and the
//! number and literal parsers behind them.

use tiled_loader::{decode_properties, is_float_literal, parse_i64, Property, RawProperty, TmxError};

fn raw(name: &str, type_: &str, value: &str) -> RawProperty {
    RawProperty {
        name: name.to_string(),
        type_: type_.to_string(),
        value: value.to_string(),
    }
}

#[test]
fn int_property_typing() {
    let props = decode_properties(&vec![raw("speed", "int", "42")]).unwrap();
    assert_eq!(props.get("speed"), Some(&Property::Int(42)));
}

#[test]
fn bool_property_typing() {
    let props = decode_properties(&vec![raw("solid", "bool", "true")]).unwrap();
    assert_eq!(props.get("solid"), Some(&Property::Bool(true)));
    let props = decode_properties(&vec![raw("solid", "bool", "false")]).unwrap();
    assert_eq!(props.get("solid"), Some(&Property::Bool(false)));
}

#[test]
fn untyped_property_stays_string() {
    let props = decode_properties(&vec![raw("greeting", "", "hi")]).unwrap();
    assert_eq!(props.get("greeting"), Some(&Property::String("hi".to_string())));
    let props = decode_properties(&vec![raw("greeting", "string", "hi")]).unwrap();
    assert_eq!(props.get("greeting"), Some(&Property::String("hi".to_string())));
}

#[test]
fn float_property_keeps_literal_text() {
    let props = decode_properties(&vec![raw("scale", "float", "1.25e2")]).unwrap();
    assert_eq!(props.get("scale"), Some(&Property::Float("1.25e2".to_string())));
}

#[test]
fn unparsable_int_fails() {
    let err = decode_properties(&vec![raw("speed", "int", "abc")]).unwrap_err();
    assert_eq!(err, TmxError::PropertyParseError("speed".to_string()));
}

#[test]
fn unparsable_bool_and_float_fail() {
    let err = decode_properties(&vec![raw("solid", "bool", "yes")]).unwrap_err();
    assert_eq!(err, TmxError::PropertyParseError("solid".to_string()));
    let err = decode_properties(&vec![raw("scale", "float", "1.2.3")]).unwrap_err();
    assert_eq!(err, TmxError::PropertyParseError("scale".to_string()));
}

#[test]
fn unknown_type_tag_fails() {
    let err = decode_properties(&vec![raw("color", "colour", "red")]).unwrap_err();
    assert_eq!(err, TmxError::UnknownPropertyType("colour".to_string()));
}

#[test]
fn duplicate_name_fails() {
    let err = decode_properties(&vec![
        raw("speed", "int", "1"),
        raw("size", "int", "2"),
        raw("speed", "int", "3"),
    ])
    .unwrap_err();
    assert_eq!(err, TmxError::DuplicateProperty("speed".to_string()));
}

#[test]
fn duplicate_checked_before_value() {
    // The duplicate wins over the unparsable value it carries.
    let err = decode_properties(&vec![raw("speed", "int", "1"), raw("speed", "int", "x")])
        .unwrap_err();
    assert_eq!(err, TmxError::DuplicateProperty("speed".to_string()));
}

#[test]
fn several_properties_decode_together() {
    let props = decode_properties(&vec![
        raw("a", "int", "-7"),
        raw("b", "", "text"),
        raw("c", "bool", "true"),
        raw("d", "float", "0.5"),
    ])
    .unwrap();
    assert_eq!(props.len(), 4);
    assert_eq!(props.get("a"), Some(&Property::Int(-7)));
    assert_eq!(props.get("b"), Some(&Property::String("text".to_string())));
    assert_eq!(props.get("c"), Some(&Property::Bool(true)));
    assert_eq!(props.get("d"), Some(&Property::Float("0.5".to_string())));
    assert_eq!(props.get("missing"), None);
}

#[test]
fn empty_property_list_decodes_empty() {
    let props = decode_properties(&Vec::new()).unwrap();
    assert_eq!(props.len(), 0);
    assert_eq!(props.get("anything"), None);
}

#[test]
fn parse_i64_grammar_and_range() {
    assert_eq!(parse_i64("0"), Some(0));
    assert_eq!(parse_i64("+5"), Some(5));
    assert_eq!(parse_i64("-12"), Some(-12));
    assert_eq!(parse_i64("007"), Some(7));
    assert_eq!(parse_i64("9223372036854775807"), Some(i64::MAX));
    assert_eq!(parse_i64("-9223372036854775808"), Some(i64::MIN));
    assert_eq!(parse_i64("9223372036854775808"), None);
    assert_eq!(parse_i64("-9223372036854775809"), None);
    assert_eq!(parse_i64(""), None);
    assert_eq!(parse_i64("+"), None);
    assert_eq!(parse_i64("-"), None);
    assert_eq!(parse_i64("1 2"), None);
    assert_eq!(parse_i64("1.5"), None);
    assert_eq!(parse_i64("abc"), None);
}

#[test]
fn float_literal_grammar() {
    assert!(is_float_literal("1"));
    assert!(is_float_literal("1.5"));
    assert!(is_float_literal("-2e10"));
    assert!(is_float_literal(".5"));
    assert!(is_float_literal("1."));
    assert!(is_float_literal("+1.2E-3"));
    assert!(is_float_literal("1.e5"));
    assert!(!is_float_literal(""));
    assert!(!is_float_literal("."));
    assert!(!is_float_literal("e5"));
    assert!(!is_float_literal("1.2.3"));
    assert!(!is_float_literal("1e"));
    assert!(!is_float_literal("--1"));
    assert!(!is_float_literal("abc"));
}
