//! Concrete quoting scenarios for both dialects.

use shell_quote::{Bash, Quotable, QuoteRefExt, Sh};

fn sh_quote(b: &[u8]) -> Vec<u8> {
    Quotable::from(b).quoted(Sh)
}

fn bash_quote(b: &[u8]) -> Vec<u8> {
    Quotable::from(b).quoted(Bash)
}

#[test]
fn sh_empty() {
    assert_eq!(sh_quote(b""), b"''".to_vec());
}

#[test]
fn bash_empty() {
    assert_eq!(bash_quote(b""), b"''".to_vec());
}

#[test]
fn sh_bare_word() {
    assert_eq!(sh_quote(b"hello"), b"hello".to_vec());
}

#[test]
fn bash_bare_word() {
    assert_eq!(bash_quote(b"hello"), b"hello".to_vec());
}

#[test]
fn bare_punctuation_unchanged() {
    let input = b"-_.,:/@%+=aZ09";
    assert_eq!(sh_quote(input), input.to_vec());
    assert_eq!(bash_quote(input), input.to_vec());
}

#[test]
fn sh_space() {
    assert_eq!(sh_quote(b"hello world"), b"'hello world'".to_vec());
}

#[test]
fn bash_space() {
    assert_eq!(bash_quote(b"hello world"), b"'hello world'".to_vec());
}

#[test]
fn sh_embedded_quote() {
    // close, backslash-escaped quote, reopen
    assert_eq!(sh_quote(b"it's"), b"'it'\\''s'".to_vec());
}

#[test]
fn bash_embedded_quote() {
    // no must-escape byte, so the single-quote strategy is used here too
    assert_eq!(bash_quote(b"it's"), b"'it'\\''s'".to_vec());
}

#[test]
fn sh_quote_only() {
    assert_eq!(sh_quote(b"'"), b"''\\'''".to_vec());
}

#[test]
fn sh_bell_is_literal() {
    // the minimal dialect has no escapes: the bell byte is embedded raw
    assert_eq!(sh_quote(&[0x07, b'A']), vec![b'\'', 0x07, b'A', b'\'']);
}

#[test]
fn bash_bell_uses_mnemonic() {
    assert_eq!(bash_quote(&[0x07, b'A']), b"$'\\aA'".to_vec());
}

#[test]
fn bash_mnemonics() {
    let input = [0x0A, 0x09, 0x0D, 0x5C, 0x27, 0x07, 0x08, 0x0C, 0x0B];
    assert_eq!(
        bash_quote(&input),
        b"$'\\n\\t\\r\\\\\\'\\a\\b\\f\\v'".to_vec()
    );
}

#[test]
fn bash_hex_escapes_upper_case() {
    assert_eq!(
        bash_quote(&[0x00, 0x1B, 0x7F, 0xFF]),
        b"$'\\x00\\x1B\\x7F\\xFF'".to_vec()
    );
}

#[test]
fn bash_newline_alone_stays_single_quoted() {
    // newline needs no escape quoting, so the portable form is preferred
    assert_eq!(bash_quote(b"a\nb"), b"'a\nb'".to_vec());
}

#[test]
fn sh_newline_is_literal() {
    assert_eq!(sh_quote(b"a\nb"), b"'a\nb'".to_vec());
}

#[test]
fn sh_high_byte_is_literal() {
    assert_eq!(sh_quote(&[0xFF]), vec![b'\'', 0xFF, b'\'']);
}

#[test]
fn bash_high_byte_is_escaped() {
    assert_eq!(bash_quote(&[0xFF]), b"$'\\xFF'".to_vec());
}

#[test]
fn sh_nul_is_literal() {
    assert_eq!(sh_quote(&[0x00]), vec![b'\'', 0x00, b'\'']);
}

#[test]
fn bash_nul_is_escaped() {
    assert_eq!(bash_quote(&[0x00]), b"$'\\x00'".to_vec());
}

#[test]
fn bash_mixed_quote_and_bell() {
    assert_eq!(bash_quote(b"it's\x07"), b"$'it\\'s\\a'".to_vec());
}

#[test]
fn bash_backslash_without_escape_trigger() {
    // a backslash alone is printable: single quotes carry it verbatim
    assert_eq!(bash_quote(b"a\\b"), b"'a\\b'".to_vec());
}

#[test]
fn bash_dollar_is_quoted() {
    assert_eq!(bash_quote(b"$HOME"), b"'$HOME'".to_vec());
}
