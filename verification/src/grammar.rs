//! A specification-level model of how a shell parses one word.
//!
//! The model covers exactly the constructs the quoters emit: bare-safe bytes
//! taken literally, backslash escapes outside quotes, single-quote groups,
//! and (extended dialect only) ANSI-C `$'...'` escape quoting with backslash
//! mnemonics and hexadecimal byte escapes. Any other construct parses to
//! `None`: bytes that a shell may expand, split, or glob are outside the
//! model, so the model never claims a parse that a real shell could disagree
//! with. The round-trip laws state that quoted output parses back, under
//! this grammar, to exactly the input bytes.

use vstd::prelude::*;
use crate::ascii::{all_bare_safe, bare_safe, BACKSLASH, DOLLAR, NEWLINE, SINGLE_QUOTE};
use crate::quoter::{escape_all, single_quote_escape};

verus! {

/// The two supported shell dialects. The set is closed: no further dialect
/// can be introduced, which keeps the output guarantees provable by
/// exhaustive case analysis.
#[derive(Clone, Copy, PartialEq, Eq, Structural, Debug)]
pub enum Dialect {
    /// The minimal POSIX-compatible dialect: single-quote quoting only.
    Sh,
    /// The extended dialect: adds ANSI-C `$'...'` escape quoting.
    Bash,
}

/// The state of the word parser between bytes.
#[derive(Clone, Copy, PartialEq, Eq, Structural, Debug)]
pub enum ParseState {
    /// Outside any quoting construct.
    Unquoted,
    /// Inside a single-quote group.
    Single,
    /// Inside an ANSI-C `$'...'` group (extended dialect only).
    Ansi,
}

/// A hexadecimal digit byte, upper or lower case.
pub open spec fn is_hex_digit(b: u8) -> bool {
    (0x30 <= b <= 0x39) || (0x41 <= b <= 0x46) || (0x61 <= b <= 0x66)
}

/// The value of a hexadecimal digit byte.
pub open spec fn hex_value(b: u8) -> u8
    recommends
        is_hex_digit(b),
{
    if 0x30 <= b <= 0x39 {
        (b - 0x30) as u8
    } else if 0x41 <= b <= 0x46 {
        (b - 0x37) as u8
    } else {
        (b - 0x57) as u8
    }
}

/// The byte value of a backslash mnemonic escape inside `$'...'`, if the
/// mnemonic is one the model knows: `\n`, `\t`, `\r`, `\\`, `\'`, `\a`,
/// `\b`, `\f`, `\v`.
pub open spec fn mnemonic_escape(b: u8) -> Option<u8> {
    if b == 0x6E {  // n
        Some(0x0A)
    } else if b == 0x74 {  // t
        Some(0x09)
    } else if b == 0x72 {  // r
        Some(0x0D)
    } else if b == 0x5C {  // backslash
        Some(0x5C)
    } else if b == 0x27 {  // single quote
        Some(0x27)
    } else if b == 0x61 {  // a
        Some(0x07)
    } else if b == 0x62 {  // b
        Some(0x08)
    } else if b == 0x66 {  // f
        Some(0x0C)
    } else if b == 0x76 {  // v
        Some(0x0B)
    } else {
        None
    }
}

/// One byte prepended to a parse result, if the rest parsed.
pub open spec fn prepend_byte(b: u8, r: Option<Seq<u8>>) -> Option<Seq<u8>> {
    match r {
        Some(t) => Some(seq![b] + t),
        None => None,
    }
}

/// A sequence prepended to a parse result, if the rest parsed.
pub open spec fn prepend_bytes(s: Seq<u8>, r: Option<Seq<u8>>) -> Option<Seq<u8>> {
    match r {
        Some(t) => Some(s + t),
        None => None,
    }
}

/// Parse the remainder `s` of a word, starting in state `st`, under dialect
/// `d`: the bytes the word denotes, or `None` where the input is not a
/// single word made of the modelled constructs.
pub open spec fn parse_from(d: Dialect, st: ParseState, s: Seq<u8>) -> Option<Seq<u8>>
    decreases s.len(),
{
    match st {
        ParseState::Unquoted => {
            if s.len() == 0 {
                Some(Seq::empty())
            } else if s[0] == SINGLE_QUOTE {
                parse_from(d, ParseState::Single, s.skip(1))
            } else if s[0] == BACKSLASH {
                if s.len() >= 2 {
                    if s[1] == NEWLINE {
                        // line continuation: both bytes vanish
                        parse_from(d, ParseState::Unquoted, s.skip(2))
                    } else {
                        prepend_byte(s[1], parse_from(d, ParseState::Unquoted, s.skip(2)))
                    }
                } else {
                    None
                }
            } else if d == Dialect::Bash && s[0] == DOLLAR && s.len() >= 2
                && s[1] == SINGLE_QUOTE {
                parse_from(d, ParseState::Ansi, s.skip(2))
            } else if bare_safe(s[0]) {
                prepend_byte(s[0], parse_from(d, ParseState::Unquoted, s.skip(1)))
            } else {
                None
            }
        },
        ParseState::Single => {
            if s.len() == 0 {
                None  // unterminated quoting
            } else if s[0] == SINGLE_QUOTE {
                parse_from(d, ParseState::Unquoted, s.skip(1))
            } else {
                // everything but the quote character is preserved verbatim
                prepend_byte(s[0], parse_from(d, ParseState::Single, s.skip(1)))
            }
        },
        ParseState::Ansi => {
            if d == Dialect::Sh {
                None  // the minimal dialect has no escape quoting
            } else if s.len() == 0 {
                None  // unterminated quoting
            } else if s[0] == SINGLE_QUOTE {
                parse_from(d, ParseState::Unquoted, s.skip(1))
            } else if s[0] == BACKSLASH {
                if s.len() < 2 {
                    None
                } else if s[1] == 0x78 {  // x: up to two hex digits, greedily
                    if s.len() >= 4 && is_hex_digit(s[2]) && is_hex_digit(s[3]) {
                        prepend_byte(
                            (hex_value(s[2]) * 16 + hex_value(s[3])) as u8,
                            parse_from(d, ParseState::Ansi, s.skip(4)),
                        )
                    } else if s.len() >= 3 && is_hex_digit(s[2]) {
                        prepend_byte(hex_value(s[2]), parse_from(d, ParseState::Ansi, s.skip(3)))
                    } else {
                        None
                    }
                } else {
                    match mnemonic_escape(s[1]) {
                        Some(v) => prepend_byte(v, parse_from(d, ParseState::Ansi, s.skip(2))),
                        None => None,  // escapes the model does not cover
                    }
                }
            } else {
                prepend_byte(s[0], parse_from(d, ParseState::Ansi, s.skip(1)))
            }
        },
    }
}

/// Parse a whole word under dialect `d`.
pub open spec fn parse_word(d: Dialect, s: Seq<u8>) -> Option<Seq<u8>> {
    parse_from(d, ParseState::Unquoted, s)
}

/// A word of bare-safe bytes parses, unquoted, to itself.
pub proof fn lemma_parse_bare(d: Dialect, s: Seq<u8>)
    requires
        all_bare_safe(s),
    ensures
        parse_from(d, ParseState::Unquoted, s) == Some(s),
    decreases s.len(),
{
    if s.len() == 0 {
        assert(Seq::<u8>::empty() =~= s);
    } else {
        assert(bare_safe(s[0]));
        assert(s[0] != SINGLE_QUOTE && s[0] != BACKSLASH && s[0] != DOLLAR);
        assert forall|i: int| 0 <= i < s.skip(1).len() implies bare_safe(#[trigger] s.skip(1)[i]) by {
            assert(s.skip(1)[i] == s[i + 1]);
        }
        lemma_parse_bare(d, s.skip(1));
        assert(seq![s[0]] + s.skip(1) =~= s);
    }
}

/// The single-quote strategy's body, followed by the closing quote and any
/// remainder, parses from inside a single-quote group to the original bytes
/// followed by whatever the remainder parses to.
pub proof fn lemma_parse_single_quoted(d: Dialect, s: Seq<u8>, rest: Seq<u8>)
    ensures
        parse_from(
            d,
            ParseState::Single,
            escape_all(single_quote_escape(), s) + seq![SINGLE_QUOTE] + rest,
        ) == prepend_bytes(s, parse_from(d, ParseState::Unquoted, rest)),
    decreases s.len(),
{
    let f = single_quote_escape();
    let t = escape_all(f, s) + seq![SINGLE_QUOTE] + rest;
    if s.len() == 0 {
        assert(escape_all(f, s) =~= Seq::<u8>::empty());
        assert(t[0] == SINGLE_QUOTE);
        assert(t.skip(1) =~= rest);
        assert(parse_from(d, ParseState::Single, t) == parse_from(d, ParseState::Unquoted, rest));
        match parse_from(d, ParseState::Unquoted, rest) {
            Some(v) => {
                assert(Seq::<u8>::empty() + v =~= v);
            },
            None => {},
        }
    } else {
        let b = s[0];
        let s1 = s.skip(1);
        let t1 = escape_all(f, s1) + seq![SINGLE_QUOTE] + rest;
        lemma_parse_single_quoted(d, s1, rest);
        assert(escape_all(f, s) == f(b) + escape_all(f, s1));
        if b == SINGLE_QUOTE {
            assert(f(b) =~= seq![SINGLE_QUOTE, BACKSLASH, SINGLE_QUOTE, SINGLE_QUOTE]);
            assert(t =~= seq![SINGLE_QUOTE, BACKSLASH, SINGLE_QUOTE, SINGLE_QUOTE] + t1);
            let u1 = t.skip(1);
            let u2 = u1.skip(2);
            assert(u1 =~= seq![BACKSLASH, SINGLE_QUOTE, SINGLE_QUOTE] + t1);
            assert(u2 =~= seq![SINGLE_QUOTE] + t1);
            assert(t[0] == SINGLE_QUOTE);
            assert(parse_from(d, ParseState::Single, t) == parse_from(d, ParseState::Unquoted, u1));
            assert(u1[0] == BACKSLASH && u1.len() >= 2 && u1[1] == SINGLE_QUOTE);
            assert(u1[1] != NEWLINE);
            assert(parse_from(d, ParseState::Unquoted, u1) == prepend_byte(
                SINGLE_QUOTE,
                parse_from(d, ParseState::Unquoted, u2),
            ));
            assert(u2[0] == SINGLE_QUOTE);
            assert(u2.skip(1) =~= t1);
            assert(parse_from(d, ParseState::Unquoted, u2) == parse_from(d, ParseState::Single, t1));
            match parse_from(d, ParseState::Unquoted, rest) {
                Some(v) => {
                    assert(seq![b] + (s1 + v) =~= s + v);
                },
                None => {},
            }
        } else {
            assert(f(b) =~= seq![b]);
            assert(t =~= seq![b] + t1);
            assert(t[0] == b && b != SINGLE_QUOTE);
            assert(t.skip(1) =~= t1);
            assert(parse_from(d, ParseState::Single, t) == prepend_byte(
                b,
                parse_from(d, ParseState::Single, t1),
            ));
            match parse_from(d, ParseState::Unquoted, rest) {
                Some(v) => {
                    assert(seq![b] + (s1 + v) =~= s + v);
                },
                None => {},
            }
        }
    }
}

} // verus!
