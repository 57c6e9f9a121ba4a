use rsvg_core::attribute::{parse_i32, AttributeBag};
use rsvg_core::filter::{Primitive, SubregionAttr};
use rsvg_core::node::ParseError;

#[test]
fn parse_i32_plain_values() {
    assert_eq!(parse_i32("0"), Some(0));
    assert_eq!(parse_i32("42"), Some(42));
    assert_eq!(parse_i32("-17"), Some(-17));
    assert_eq!(parse_i32("007"), Some(7));
}

#[test]
fn parse_i32_limits() {
    assert_eq!(parse_i32("2147483647"), Some(i32::MAX));
    assert_eq!(parse_i32("2147483648"), None);
    assert_eq!(parse_i32("-2147483648"), Some(i32::MIN));
    assert_eq!(parse_i32("-2147483649"), None);
    assert_eq!(parse_i32("99999999999999999999"), None);
}

#[test]
fn parse_i32_malformed() {
    assert_eq!(parse_i32(""), None);
    assert_eq!(parse_i32("-"), None);
    assert_eq!(parse_i32("1a"), None);
    assert_eq!(parse_i32("+5"), None);
    assert_eq!(parse_i32(" 3"), None);
}

#[test]
fn primitive_reads_subregion_and_name() {
    let mut bag = AttributeBag::new();
    bag.push("x".to_string(), "10".to_string());
    bag.push("y".to_string(), "-4".to_string());
    bag.push("width".to_string(), "20".to_string());
    bag.push("height".to_string(), "30".to_string());
    bag.push("result".to_string(), "out".to_string());
    bag.push("unrelated".to_string(), "ignored".to_string());
    assert_eq!(bag.len(), 6);
    let mut p = Primitive::new();
    assert!(p.set_atts(&bag).is_ok());
    assert_eq!(p.x, Some(10));
    assert_eq!(p.y, Some(-4));
    assert_eq!(p.width, Some(20));
    assert_eq!(p.height, Some(30));
    assert_eq!(p.result_name.as_deref(), Some("out"));
}

#[test]
fn primitive_later_entries_override_earlier() {
    let mut bag = AttributeBag::new();
    bag.push("x".to_string(), "1".to_string());
    bag.push("x".to_string(), "2".to_string());
    let mut p = Primitive::new();
    assert!(p.set_atts(&bag).is_ok());
    assert_eq!(p.x, Some(2));
}

#[test]
fn primitive_rejects_each_malformed_subregion_attribute() {
    for (attr, expected) in [
        ("x", SubregionAttr::X),
        ("y", SubregionAttr::Y),
        ("width", SubregionAttr::Width),
        ("height", SubregionAttr::Height),
    ] {
        let mut bag = AttributeBag::new();
        bag.push(attr.to_string(), "nope".to_string());
        let mut p = Primitive::new();
        assert_eq!(p.set_atts(&bag), Err(ParseError::InvalidNumber(expected)));
    }
}
