use ptsession::markers::find_one;
use ptsession::render::{push_bytes, push_decimal, push_text};

fn decimal(n: u64) -> String {
    let mut out = Vec::new();
    push_decimal(&mut out, n);
    String::from_utf8(out).unwrap()
}

#[test]
fn numbers_are_written_in_decimal() {
    assert_eq!(decimal(0), "0");
    assert_eq!(decimal(9), "9");
    assert_eq!(decimal(10), "10");
    assert_eq!(decimal(44100), "44100");
    assert_eq!(decimal(1_000_000_007), "1000000007");
    assert_eq!(decimal(u64::MAX), "18446744073709551615");
}

#[test]
fn text_and_bytes_are_appended() {
    let mut out = b"a".to_vec();
    push_text(&mut out, "bc\n");
    push_bytes(&mut out, &[0xff, 0x00]);
    push_text(&mut out, "");
    push_decimal(&mut out, 12);
    assert_eq!(out, b"abc\n\xff\x0012");
}

#[test]
fn first_byte_one_is_found() {
    let data = [1, 0, 2, 1, 1];
    assert_eq!(find_one(&data, 0), Some(0));
    assert_eq!(find_one(&data, 1), Some(3));
    assert_eq!(find_one(&data, 4), Some(4));
    assert_eq!(find_one(&data, 5), None);
    assert_eq!(find_one(&data, 100), None);
    assert_eq!(find_one(&[0, 2, 3], 0), None);
}
