//! The container adapters: pushing quoted output into vectors, text
//! strings and `bstr` byte strings, and the borrowed-input conversions.

use bstr::{BStr, BString};
use shell_quote::{Bash, Quotable, QuoteExt, QuoteRefExt, Sh};

#[test]
fn vec_push_quoted_appends() {
    let mut out: Vec<u8> = b"cp ".to_vec();
    out.push_quoted(Sh, Quotable::from("a b"));
    assert_eq!(out, b"cp 'a b'".to_vec());
}

#[test]
fn string_push_quoted_appends() {
    let mut out = String::from("cp ");
    out.push_quoted(Sh, Quotable::from("a b"));
    assert_eq!(out, "cp 'a b'");
}

#[test]
fn string_output() {
    let out: String = Quotable::from("it's").quoted(Bash);
    assert_eq!(out, "'it'\\''s'");
}

#[test]
fn string_output_reads_sh_bytes_as_code_points() {
    // the minimal dialect embeds the byte raw; as text it becomes the
    // character of that code point
    let out: String = Quotable::from(&[0xFF][..]).quoted(Sh);
    assert_eq!(out, "'\u{FF}'");
}

#[test]
fn string_output_is_ascii_under_bash() {
    let out: String = Quotable::from(&[0xFF][..]).quoted(Bash);
    assert_eq!(out, "$'\\xFF'");
}

#[test]
fn bstring_push_quoted_appends() {
    let mut out = BString::from("cp ");
    out.push_quoted(Bash, Quotable::from(&[0x07][..]));
    assert_eq!(out, BString::from("cp $'\\a'"));
}

#[test]
fn bstring_output() {
    let out: BString = Quotable::from("x y").quoted(Sh);
    assert_eq!(out, BString::from("'x y'"));
}

#[test]
fn quotable_from_byte_sources() {
    let from_slice: Vec<u8> = Quotable::from(&b"a b"[..]).quoted(Sh);
    let from_array: Vec<u8> = Quotable::from(b"a b").quoted(Sh);
    let owned: Vec<u8> = b"a b".to_vec();
    let from_vec: Vec<u8> = Quotable::from(&owned).quoted(Sh);
    assert_eq!(from_slice, b"'a b'".to_vec());
    assert_eq!(from_array, b"'a b'".to_vec());
    assert_eq!(from_vec, b"'a b'".to_vec());
}

#[test]
fn quotable_from_text_sources() {
    let text = String::from("a b");
    let from_str: Vec<u8> = Quotable::from(text.as_str()).quoted(Sh);
    let from_string: Vec<u8> = Quotable::from(&text).quoted(Sh);
    assert_eq!(from_str, b"'a b'".to_vec());
    assert_eq!(from_string, b"'a b'".to_vec());
}

#[test]
fn quotable_from_bstring() {
    let b = BString::from(&b"a b"[..]);
    let out: Vec<u8> = Quotable::from(&b).quoted(Sh);
    assert_eq!(out, b"'a b'".to_vec());
}

#[test]
fn quotable_from_bstr() {
    let b = <&BStr>::from(&b"a b"[..]);
    let out: Vec<u8> = Quotable::from(b).quoted(Sh);
    assert_eq!(out, b"'a b'".to_vec());
}

#[test]
fn non_utf8_text_source_quotes_its_bytes() {
    // a str's bytes, not its chars, are what is quoted
    let out: Vec<u8> = Quotable::from("é").quoted(Bash);
    assert_eq!(out, b"$'\\xC3\\xA9'".to_vec());
}
