use quanergy_client::cloud::Frame;
use quanergy_client::text::{
    ascii_eq_ignore_case, chars_of, contains_chars, decimal_string, parse_unsigned_chars, push_decimal, string_from_chars, trim_chars,
};

#[test]
fn text_rules() {
    assert!(ascii_eq_ignore_case("AlL", "all"));
    assert!(!ascii_eq_ignore_case("al", "all"));
    let t = trim_chars(&chars_of("\u{3000} a b \t"));
    assert_eq!(string_from_chars(&t), "a b");
    assert!(contains_chars(&chars_of("abcab"), &chars_of("ca")));
    assert!(!contains_chars(&chars_of("ab"), &chars_of("abc")));
    assert_eq!(parse_unsigned_chars(&chars_of("+0012"), 100), Some(12));
    assert_eq!(parse_unsigned_chars(&chars_of("101"), 100), None);
    assert_eq!(parse_unsigned_chars(&chars_of("+"), 100), None);
    let mut s = String::from("n=");
    push_decimal(&mut s, 0);
    push_decimal(&mut s, 907);
    assert_eq!(s, "n=0907");
    assert_eq!(decimal_string(1_700_000_000), "1700000000");
}

#[test]
fn frame_basics() {
    let f: Frame<u8> = Frame::new("q");
    assert!(f.is_empty());
    assert_eq!(f.len(), 0);
    assert_eq!(f.height, 1);
    let mut g = Frame::with_points("q", vec![1u8, 2]);
    assert_eq!(g.width, 2);
    g.points.push(3);
    g.width = 0;
    g.height = 5;
    g.refresh_unorganized_dims();
    assert_eq!((g.width, g.height), (3, 1));
}
