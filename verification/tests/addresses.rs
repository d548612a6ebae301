use pdf_image_core::address::parse_object_address;
use pdf_image_core::types::ObjectAddress;

fn parse(s: &str) -> Option<ObjectAddress> {
    parse_object_address(s.as_bytes())
}

fn addr(id: u32, generation: u16) -> ObjectAddress {
    ObjectAddress { id, generation }
}

#[test]
fn plain_address_parses() {
    assert_eq!(parse("5-0"), Some(addr(5, 0)));
    assert_eq!(parse("123-45"), Some(addr(123, 45)));
}

#[test]
fn extreme_values_parse() {
    assert_eq!(parse("4294967295-65535"), Some(addr(u32::MAX, u16::MAX)));
}

#[test]
fn out_of_range_values_are_rejected() {
    assert_eq!(parse("4294967296-0"), None);
    assert_eq!(parse("5-65536"), None);
    assert_eq!(parse("99999999999999999999-0"), None);
}

#[test]
fn non_numeric_id_is_rejected() {
    assert_eq!(parse("abc-0"), None);
    assert_eq!(parse("5x-0"), None);
    assert_eq!(parse("5-0x"), None);
    assert_eq!(parse("+5-0"), None);
    assert_eq!(parse(" 5-0"), None);
}

#[test]
fn wrong_field_counts_are_rejected() {
    assert_eq!(parse("5"), None);
    assert_eq!(parse("5-0-1"), None);
    assert_eq!(parse(""), None);
    assert_eq!(parse("-"), None);
    assert_eq!(parse("5-"), None);
    assert_eq!(parse("-0"), None);
}

#[test]
fn leading_zeros_are_digits() {
    assert_eq!(parse("05-00"), Some(addr(5, 0)));
}
