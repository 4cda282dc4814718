use djvuxml::decimal::{parse_u16, parse_u32, push_decimal};

#[test]
fn unsigned_numbers_are_digits_after_an_optional_plus() {
    assert_eq!(parse_u16(b"0"), Some(0));
    assert_eq!(parse_u16(b"65535"), Some(65535));
    assert_eq!(parse_u16(b"+7"), Some(7));
    assert_eq!(parse_u16(b"007"), Some(7));
    assert_eq!(parse_u16(b"000000000000000000000000065535"), Some(65535));
    assert_eq!(parse_u16(b"65536"), None);
    assert_eq!(parse_u16(b"99999999999999999999999999"), None);
    assert_eq!(parse_u16(b""), None);
    assert_eq!(parse_u16(b"+"), None);
    assert_eq!(parse_u16(b"++1"), None);
    assert_eq!(parse_u16(b"-1"), None);
    assert_eq!(parse_u16(b" 1"), None);
    assert_eq!(parse_u16(b"1 "), None);
    assert_eq!(parse_u16(b"1_0"), None);
    assert_eq!(parse_u16(b"12a"), None);
}

#[test]
fn thirty_two_bits_reach_further() {
    assert_eq!(parse_u32(b"65536"), Some(65536));
    assert_eq!(parse_u32(b"4294967295"), Some(4294967295));
    assert_eq!(parse_u32(b"4294967296"), None);
    assert_eq!(parse_u32(b"400"), Some(400));
    assert_eq!(parse_u32(b"4oo"), None);
}

#[test]
fn numbers_are_written_without_leading_zeros() {
    for (n, text) in [(0u32, "0"), (7, "7"), (10, "10"), (909, "909"), (4294967295, "4294967295")]
    {
        let mut out = String::from("p");
        push_decimal(&mut out, n);
        assert_eq!(out, format!("p{}", text));
    }
}
