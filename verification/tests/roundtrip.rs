//! Round-trip and output-safety checks: quoted output, read back through a
//! small reference reader of the shell word grammar, yields the input.

use shell_quote::{Bash, Quotable, QuoteRefExt, Sh};

fn is_bare(b: u8) -> bool {
    b.is_ascii_alphanumeric() || b"-_./,:@%+=".contains(&b)
}

enum Mode {
    Unquoted,
    Single,
    Ansi,
}

fn hex_value(b: u8) -> Option<u8> {
    match b {
        b'0'..=b'9' => Some(b - b'0'),
        b'A'..=b'F' => Some(b - b'A' + 10),
        b'a'..=b'f' => Some(b - b'a' + 10),
        _ => None,
    }
}

fn mnemonic(b: u8) -> Option<u8> {
    match b {
        b'n' => Some(0x0A),
        b't' => Some(0x09),
        b'r' => Some(0x0D),
        b'\\' => Some(0x5C),
        b'\'' => Some(0x27),
        b'a' => Some(0x07),
        b'b' => Some(0x08),
        b'f' => Some(0x0C),
        b'v' => Some(0x0B),
        _ => None,
    }
}

/// Read one shell word: bare-safe bytes, backslash escapes, single-quote
/// groups, and (for the extended dialect) ANSI-C `$'...'` quoting.
fn read_word(extended: bool, s: &[u8]) -> Option<Vec<u8>> {
    let mut out = Vec::new();
    let mut mode = Mode::Unquoted;
    let mut i: usize = 0;
    loop {
        match mode {
            Mode::Unquoted => {
                if i == s.len() {
                    return Some(out);
                }
                let b = s[i];
                if b == b'\'' {
                    mode = Mode::Single;
                    i += 1;
                } else if b == b'\\' {
                    if i + 1 >= s.len() {
                        return None;
                    }
                    if s[i + 1] != b'\n' {
                        out.push(s[i + 1]);
                    }
                    i += 2;
                } else if extended && b == b'$' && i + 1 < s.len() && s[i + 1] == b'\'' {
                    mode = Mode::Ansi;
                    i += 2;
                } else if is_bare(b) {
                    out.push(b);
                    i += 1;
                } else {
                    return None;
                }
            }
            Mode::Single => {
                if i == s.len() {
                    return None;
                }
                let b = s[i];
                if b == b'\'' {
                    mode = Mode::Unquoted;
                } else {
                    out.push(b);
                }
                i += 1;
            }
            Mode::Ansi => {
                if i == s.len() {
                    return None;
                }
                let b = s[i];
                if b == b'\'' {
                    mode = Mode::Unquoted;
                    i += 1;
                } else if b == b'\\' {
                    if i + 1 >= s.len() {
                        return None;
                    }
                    if s[i + 1] == b'x' {
                        let h1 = if i + 2 < s.len() { hex_value(s[i + 2]) } else { None };
                        let h2 = if i + 3 < s.len() { hex_value(s[i + 3]) } else { None };
                        match (h1, h2) {
                            (Some(a), Some(c)) => {
                                out.push(a * 16 + c);
                                i += 4;
                            }
                            (Some(a), None) => {
                                out.push(a);
                                i += 3;
                            }
                            _ => return None,
                        }
                    } else if let Some(v) = mnemonic(s[i + 1]) {
                        out.push(v);
                        i += 2;
                    } else {
                        return None;
                    }
                } else {
                    out.push(b);
                    i += 1;
                }
            }
        }
    }
}

fn samples() -> Vec<Vec<u8>> {
    let mut inputs: Vec<Vec<u8>> = vec![
        b"".to_vec(),
        b"hello".to_vec(),
        b"hello world".to_vec(),
        b"it's".to_vec(),
        b"'".to_vec(),
        b"''".to_vec(),
        b"'\\'".to_vec(),
        b"a\nb".to_vec(),
        b"a\tb".to_vec(),
        b"$HOME `ls` \"x\" ; & | > < ( ) * ? [ ] ~ ! # { }".to_vec(),
        vec![0x00],
        vec![0x07, b'A'],
        vec![0xFF, b'a'],
        vec![0x01, b'0'],
        vec![0xC3, 0xA9],
        (0u8..=255).collect(),
    ];
    for b in 0u8..=255 {
        inputs.push(vec![b]);
        inputs.push(vec![b, b'x']);
        inputs.push(vec![b'\'', b]);
    }
    inputs
}

#[test]
fn sh_round_trips() {
    for input in samples() {
        let quoted: Vec<u8> = Quotable::from(&input).quoted(Sh);
        assert_eq!(read_word(false, &quoted), Some(input.clone()), "input {input:?}");
    }
}

#[test]
fn bash_round_trips() {
    for input in samples() {
        let quoted: Vec<u8> = Quotable::from(&input).quoted(Bash);
        assert_eq!(read_word(true, &quoted), Some(input.clone()), "input {input:?}");
    }
}

#[test]
fn bash_output_is_ascii() {
    for input in samples() {
        let quoted: Vec<u8> = Quotable::from(&input).quoted(Bash);
        for &b in &quoted {
            assert!(b < 0x80, "input {input:?} produced byte {b:#x}");
            assert!((0x20..0x7F).contains(&b) || b == b'\n');
        }
    }
}

#[test]
fn sh_output_is_ascii_for_ascii_input() {
    for input in samples() {
        if input.iter().all(|&b| (0x20..0x7F).contains(&b)) {
            let quoted: Vec<u8> = Quotable::from(&input).quoted(Sh);
            assert!(quoted.iter().all(|&b| b < 0x80), "input {input:?}");
        }
    }
}

#[test]
fn bare_safe_input_is_unchanged() {
    for input in samples() {
        if !input.is_empty() && input.iter().all(|&b| is_bare(b)) {
            let sh_out: Vec<u8> = Quotable::from(&input).quoted(Sh);
            let bash_out: Vec<u8> = Quotable::from(&input).quoted(Bash);
            assert_eq!(sh_out, input);
            assert_eq!(bash_out, input);
        }
    }
}
