use mesh::text::{push_decimal, push_hex8, push_signed_decimal};

#[test]
fn hex8_is_zero_padded_lowercase() {
    let mut s = String::from("id=");
    push_hex8(&mut s, 0xAB);
    assert_eq!(s, "id=000000ab");
    let mut t = String::new();
    push_hex8(&mut t, u32::MAX);
    assert_eq!(t, "ffffffff");
    let mut z = String::new();
    push_hex8(&mut z, 0);
    assert_eq!(z, "00000000");
}

#[test]
fn decimal_text() {
    let mut s = String::new();
    push_decimal(&mut s, 0);
    s.push(' ');
    push_decimal(&mut s, 1234567890);
    s.push(' ');
    push_decimal(&mut s, u64::MAX);
    assert_eq!(s, "0 1234567890 18446744073709551615");
    let mut t = String::new();
    push_signed_decimal(&mut t, -42);
    t.push(' ');
    push_signed_decimal(&mut t, i64::MIN);
    t.push(' ');
    push_signed_decimal(&mut t, 7);
    assert_eq!(t, "-42 -9223372036854775808 7");
}
