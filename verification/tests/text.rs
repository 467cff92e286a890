use onebrowser::text::{push_ascii, push_decimal, push_hex, to_hex};

#[test]
fn hex_is_lower_case_high_half_first() {
    assert_eq!(to_hex(&[]), "");
    assert_eq!(to_hex(&[0x00, 0x0f, 0xa0, 0xff, 0x3c]), "000fa0ff3c");
    let mut out = String::from("x");
    push_hex(&mut out, &[0xbe, 0xef]);
    assert_eq!(out, "xbeef");
}

#[test]
fn decimal_has_no_leading_zeros() {
    let mut out = String::new();
    push_decimal(&mut out, 0);
    out.push(' ');
    push_decimal(&mut out, 9);
    out.push(' ');
    push_decimal(&mut out, 10);
    out.push(' ');
    push_decimal(&mut out, 1_234_567_890);
    out.push(' ');
    push_decimal(&mut out, u64::MAX);
    assert_eq!(out, "0 9 10 1234567890 18446744073709551615");
}

#[test]
fn ascii_bytes_become_characters() {
    let mut out = String::from(">");
    push_ascii(&mut out, b"Bearer abc");
    assert_eq!(out, ">Bearer abc");
}
