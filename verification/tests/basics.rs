use h753zi_telemetry::le::{from_le, to_i16, to_le};
use h753zi_telemetry::text::{
    find, parse_or_zero, parse_unsigned, push_dec, push_padded, split_str, utf8_or_note,
};

#[test]
fn little_endian_numbers() {
    assert_eq!(to_le(0x0102_0304, 4), vec![4, 3, 2, 1]);
    assert_eq!(to_le(0x0102_0304, 2), vec![4, 3]);
    assert_eq!(from_le(&[4, 3, 2, 1]), 0x0102_0304);
    assert_eq!(from_le(&[]), 0);
    for v in [0u64, 1, 255, 256, u64::MAX] {
        assert_eq!(from_le(&to_le(v, 8)), v);
    }
    assert_eq!(to_i16(0xFE, 0xFF), -2);
}

#[test]
fn fields_between_separators() {
    assert_eq!(split_str("a,b,,c", b','), vec!["a", "b", "", "c"]);
    assert_eq!(split_str("", b','), vec![""]);
    assert_eq!(split_str("h\u{e9}llo,x", b','), vec!["h\u{e9}llo", "x"]);
    assert_eq!(find(b"abc", b'c'), 2);
    assert_eq!(find(b"abc", b'x'), 3);
}

#[test]
fn unsigned_numbers() {
    assert_eq!(parse_unsigned(b"ff", 16, 0xFF), Some(255));
    assert_eq!(parse_unsigned(b"100", 16, 0xFF), None);
    assert_eq!(parse_unsigned(b"+", 10, 0xFF), None);
    assert_eq!(parse_unsigned(b"++1", 10, 0xFF), None);
    assert_eq!(parse_unsigned(b"0000000000000000000000001", 10, u64::MAX), Some(1));
    assert_eq!(parse_or_zero(b"9", 8), 0);
    assert_eq!(parse_or_zero(b"8", 8), 8);
}

#[test]
fn written_numbers() {
    let mut out = String::new();
    push_dec(&mut out, u64::MAX);
    out.push(' ');
    push_dec(&mut out, 0);
    out.push(' ');
    push_padded(&mut out, 42, 6);
    out.push(' ');
    push_padded(&mut out, 1234, 2);
    assert_eq!(out, "18446744073709551615 0 000042 1234");
}

#[test]
fn text_or_a_note() {
    assert_eq!(utf8_or_note("h\u{e9}".as_bytes()), "h\u{e9}");
    assert_eq!(utf8_or_note(&[0xC3]), "<non-utf8>");
}
