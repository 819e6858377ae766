//! The extended quoter: single-quote quoting, plus ANSI-C `$'...'` escape
//! quoting for bytes that single quotes cannot carry robustly.

use vstd::prelude::*;
use vstd::arithmetic::div_mod::lemma_fundamental_div_mod;
use crate::ascii::{
    all_bare_safe, any_must_escape, contains_must_escape, is_all_bare_safe, must_escape, BACKSLASH,
    DOLLAR, NEWLINE, SINGLE_QUOTE,
};
use crate::grammar::{
    hex_value, is_hex_digit, lemma_parse_bare, lemma_parse_single_quoted, mnemonic_escape,
    parse_from, parse_word, prepend_byte, prepend_bytes, Dialect, ParseState,
};
use crate::quoter::{
    escape_all, lemma_escape_all_push, lemma_single_quote_escape_bytes, push_bytes,
    push_single_quoted, single_quote_escape, single_quoted, QuoterSealed,
};
use crate::{Quotable, Quoter};

verus! {

/// Quote byte strings for shells of the Bash family.
///
/// Where the input holds a byte that single quotes cannot carry robustly —
/// a control byte other than newline, delete, or any byte at or above
/// 0x80 — the whole word is emitted in the dialect's ANSI-C `$'...'` form,
/// whose output is pure ASCII. Otherwise the more portable single-quote
/// strategy is preferred. A NUL byte is escaped like any other control
/// byte, but no shell can pass it through to a command's argument list: the
/// operating system's argument passing ends a word at the first NUL, so
/// input containing NUL is outside what any quoting can protect.
pub struct Bash;

/// The byte that spells a hexadecimal digit, upper case.
pub open spec fn hex_digit_byte(v: u8) -> u8
    recommends
        v < 16,
{
    if v < 10 {
        (0x30 + v) as u8
    } else {
        (0x37 + v) as u8
    }
}

/// The expansion of one byte inside the `$'...'` form: a two-character
/// backslash mnemonic where one is defined, a four-character `\xHH` escape
/// for the remaining control, delete and high bytes, and the byte itself
/// for the printable rest.
pub open spec fn bash_escape_byte(b: u8) -> Seq<u8> {
    if b == 0x0A {  // newline
        seq![BACKSLASH, 0x6E]
    } else if b == 0x09 {  // tab
        seq![BACKSLASH, 0x74]
    } else if b == 0x0D {  // carriage return
        seq![BACKSLASH, 0x72]
    } else if b == 0x5C {  // backslash
        seq![BACKSLASH, 0x5C]
    } else if b == 0x27 {  // single quote
        seq![BACKSLASH, 0x27]
    } else if b == 0x07 {  // alert
        seq![BACKSLASH, 0x61]
    } else if b == 0x08 {  // backspace
        seq![BACKSLASH, 0x62]
    } else if b == 0x0C {  // form feed
        seq![BACKSLASH, 0x66]
    } else if b == 0x0B {  // vertical tab
        seq![BACKSLASH, 0x76]
    } else if must_escape(b) {
        seq![BACKSLASH, 0x78, hex_digit_byte(b / 16), hex_digit_byte(b % 16)]
    } else {
        seq![b]
    }
}

/// The `$'...'` form's per-byte expansion, as a function value.
pub open spec fn bash_escape() -> spec_fn(u8) -> Seq<u8> {
    |b: u8| bash_escape_byte(b)
}

/// The escape-quoting strategy: the expanded bytes wrapped in `$'` and `'`.
pub open spec fn ansi_quoted(s: Seq<u8>) -> Seq<u8> {
    seq![DOLLAR, SINGLE_QUOTE] + escape_all(bash_escape(), s) + seq![SINGLE_QUOTE]
}

/// The quoted form of `s` under the extended dialect: unchanged where `s`
/// is non-empty and wholly bare-safe; the `$'...'` form where some byte
/// requires escaping; otherwise the single-quote strategy (an empty `s`
/// becomes the empty single-quote pair).
pub open spec fn bash_quoted(s: Seq<u8>) -> Seq<u8> {
    if s.len() > 0 && all_bare_safe(s) {
        s
    } else if any_must_escape(s) {
        ansi_quoted(s)
    } else {
        single_quoted(s)
    }
}

/// The byte that spells hexadecimal digit `v`, upper case.
fn hex_digit(v: u8) -> (r: u8)
    requires
        v < 16,
    ensures
        r == hex_digit_byte(v),
{
    if v < 10 {
        0x30 + v
    } else {
        0x37 + v
    }
}

/// Append the `$'...'` form of `bytes` to `sout`.
fn push_ansi_quoted(bytes: &[u8], sout: &mut Vec<u8>)
    ensures
        final(sout)@ == old(sout)@ + ansi_quoted(bytes@),
{
    sout.push(DOLLAR);
    sout.push(SINGLE_QUOTE);
    let n = bytes.len();
    let mut i: usize = 0;
    while i < n
        invariant
            0 <= i <= n,
            n == bytes@.len(),
            sout@ == old(sout)@ + seq![DOLLAR, SINGLE_QUOTE] + escape_all(
                bash_escape(),
                bytes@.take(i as int),
            ),
        decreases n - i,
    {
        let b = bytes[i];
        if b == 0x0A {
            sout.push(BACKSLASH);
            sout.push(0x6E);
        } else if b == 0x09 {
            sout.push(BACKSLASH);
            sout.push(0x74);
        } else if b == 0x0D {
            sout.push(BACKSLASH);
            sout.push(0x72);
        } else if b == 0x5C {
            sout.push(BACKSLASH);
            sout.push(0x5C);
        } else if b == 0x27 {
            sout.push(BACKSLASH);
            sout.push(0x27);
        } else if b == 0x07 {
            sout.push(BACKSLASH);
            sout.push(0x61);
        } else if b == 0x08 {
            sout.push(BACKSLASH);
            sout.push(0x62);
        } else if b == 0x0C {
            sout.push(BACKSLASH);
            sout.push(0x66);
        } else if b == 0x0B {
            sout.push(BACKSLASH);
            sout.push(0x76);
        } else if b < 0x20 || b >= 0x7F {
            sout.push(BACKSLASH);
            sout.push(0x78);
            sout.push(hex_digit(b / 16));
            sout.push(hex_digit(b % 16));
        } else {
            sout.push(b);
        }
        proof {
            lemma_escape_all_push(bash_escape(), bytes@.take(i as int), b);
            assert(bytes@.take(i as int + 1) =~= bytes@.take(i as int).push(b));
            assert(sout@ =~= old(sout)@ + seq![DOLLAR, SINGLE_QUOTE] + escape_all(
                bash_escape(),
                bytes@.take(i as int + 1),
            ));
        }
        i += 1;
    }
    sout.push(SINGLE_QUOTE);
    proof {
        assert(bytes@.take(n as int) =~= bytes@);
        assert(sout@ =~= old(sout)@ + ansi_quoted(bytes@));
    }
}

impl QuoterSealed for Bash {
    open spec fn quoted_bytes(b: Seq<u8>) -> Seq<u8> {
        bash_quoted(b)
    }

    fn quote(s: Quotable<'_>) -> (r: Vec<u8>) {
        let mut out: Vec<u8> = Vec::new();
        Self::quote_into(s, &mut out);
        proof {
            assert(Seq::<u8>::empty() + bash_quoted(s@) =~= bash_quoted(s@));
        }
        out
    }

    fn quote_into(s: Quotable<'_>, sout: &mut Vec<u8>) {
        let bytes: &[u8] = s.bytes;
        if bytes.len() > 0 && is_all_bare_safe(bytes) {
            push_bytes(sout, bytes);
        } else if contains_must_escape(bytes) {
            push_ansi_quoted(bytes, sout);
        } else {
            push_single_quoted(bytes, sout);
        }
    }
}

impl Quoter for Bash {

}

/// The `$'...'` form's body, followed by the closing quote and any
/// remainder, parses from inside the escape-quoting group to the original
/// bytes followed by whatever the remainder parses to.
proof fn lemma_parse_ansi(s: Seq<u8>, rest: Seq<u8>)
    ensures
        parse_from(
            Dialect::Bash,
            ParseState::Ansi,
            escape_all(bash_escape(), s) + seq![SINGLE_QUOTE] + rest,
        ) == prepend_bytes(s, parse_from(Dialect::Bash, ParseState::Unquoted, rest)),
    decreases s.len(),
{
    let d = Dialect::Bash;
    let f = bash_escape();
    let t = escape_all(f, s) + seq![SINGLE_QUOTE] + rest;
    if s.len() == 0 {
        assert(escape_all(f, s) =~= Seq::<u8>::empty());
        assert(t[0] == SINGLE_QUOTE);
        assert(t.skip(1) =~= rest);
        assert(parse_from(d, ParseState::Ansi, t) == parse_from(d, ParseState::Unquoted, rest));
        match parse_from(d, ParseState::Unquoted, rest) {
            Some(v) => {
                assert(Seq::<u8>::empty() + v =~= v);
            },
            None => {},
        }
    } else {
        let b = s[0];
        let s1 = s.skip(1);
        let t1 = escape_all(f, s1) + seq![SINGLE_QUOTE] + rest;
        lemma_parse_ansi(s1, rest);
        assert(escape_all(f, s) == f(b) + escape_all(f, s1));
        let head = bash_escape_byte(b);
        assert(t =~= head + t1);
        if head.len() == 2 {
            let m = head[1];
            assert(t[0] == BACKSLASH && t[1] == m);
            assert(m != 0x78);
            assert(mnemonic_escape(m) == Some(b));
            assert(t.skip(2) =~= t1);
            assert(parse_from(d, ParseState::Ansi, t) == prepend_byte(
                b,
                parse_from(d, ParseState::Ansi, t1),
            ));
        } else if head.len() == 4 {
            assert(must_escape(b));
            lemma_fundamental_div_mod(b as int, 16);
            assert(b / 16 < 16 && b % 16 < 16);
            let h1 = head[2];
            let h2 = head[3];
            assert(h1 == hex_digit_byte(b / 16) && h2 == hex_digit_byte(b % 16));
            assert(is_hex_digit(h1) && is_hex_digit(h2));
            assert(hex_value(h1) == b / 16 && hex_value(h2) == b % 16);
            assert((hex_value(h1) * 16 + hex_value(h2)) as u8 == b);
            assert(t[0] == BACKSLASH && t[1] == 0x78);
            assert(t.len() >= 4 && is_hex_digit(t[2]) && is_hex_digit(t[3]));
            assert(t.skip(4) =~= t1);
            assert(parse_from(d, ParseState::Ansi, t) == prepend_byte(
                b,
                parse_from(d, ParseState::Ansi, t1),
            ));
        } else {
            assert(head =~= seq![b]);
            assert(t[0] == b);
            assert(b != SINGLE_QUOTE && b != BACKSLASH);
            assert(t.skip(1) =~= t1);
            assert(parse_from(d, ParseState::Ansi, t) == prepend_byte(
                b,
                parse_from(d, ParseState::Ansi, t1),
            ));
        }
        match parse_from(d, ParseState::Unquoted, rest) {
            Some(v) => {
                assert(seq![b] + (s1 + v) =~= s + v);
            },
            None => {},
        }
    }
}

/// Round trip: under the extended dialect's grammar, the quoted form of any
/// byte string parses back to exactly that string, as one word.
pub proof fn lemma_bash_round_trip(b: Seq<u8>)
    ensures
        parse_word(Dialect::Bash, bash_quoted(b)) == Some(b),
{
    let d = Dialect::Bash;
    let none: Seq<u8> = Seq::empty();
    if b.len() > 0 && all_bare_safe(b) {
        lemma_parse_bare(d, b);
    } else if any_must_escape(b) {
        let q = ansi_quoted(b);
        assert(q[0] == DOLLAR && q[1] == SINGLE_QUOTE);
        assert(q[0] != SINGLE_QUOTE && q[0] != BACKSLASH);
        assert(q.skip(2) =~= escape_all(bash_escape(), b) + seq![SINGLE_QUOTE] + none);
        lemma_parse_ansi(b, none);
        assert(parse_from(d, ParseState::Unquoted, none) == Some(none));
        assert(b + none =~= b);
    } else {
        let q = single_quoted(b);
        assert(q[0] == SINGLE_QUOTE);
        assert(q.skip(1) =~= escape_all(single_quote_escape(), b) + seq![SINGLE_QUOTE] + none);
        lemma_parse_single_quoted(d, b, none);
        assert(parse_from(d, ParseState::Unquoted, none) == Some(none));
        assert(b + none =~= b);
    }
}

/// Every byte of the `$'...'` body is printable ASCII.
proof fn lemma_bash_escape_bytes(s: Seq<u8>)
    ensures
        forall|i: int|
            0 <= i < escape_all(bash_escape(), s).len() ==> 0x20 <= #[trigger] escape_all(
                bash_escape(),
                s,
            )[i] < 0x7F,
    decreases s.len(),
{
    let f = bash_escape();
    if s.len() > 0 {
        let b = s[0];
        let s1 = s.skip(1);
        lemma_bash_escape_bytes(s1);
        assert(escape_all(f, s) == f(b) + escape_all(f, s1));
        assert forall|i: int| 0 <= i < escape_all(f, s).len() implies 0x20 <= #[trigger] escape_all(
            f,
            s,
        )[i] < 0x7F by {
            let head = f(b);
            if i < head.len() {
                if head.len() == 4 {
                    lemma_fundamental_div_mod(b as int, 16);
                    assert(b / 16 < 16 && b % 16 < 16);
                }
                assert(0x20 <= head[i] < 0x7F);
            } else {
                assert(escape_all(f, s)[i] == escape_all(f, s1)[i - head.len()]);
            }
        }
    }
}

/// ASCII-safety: under the extended dialect, every byte of the quoted
/// output is printable ASCII or the newline (a newline appears only where
/// the input held one and no byte forced escape quoting); in particular no
/// output byte is at or above 0x80.
pub proof fn lemma_bash_ascii_safe(b: Seq<u8>)
    ensures
        forall|i: int|
            0 <= i < bash_quoted(b).len() ==> (0x20 <= #[trigger] bash_quoted(b)[i] < 0x7F
                || bash_quoted(b)[i] == NEWLINE),
        forall|i: int| 0 <= i < bash_quoted(b).len() ==> #[trigger] bash_quoted(b)[i] < 0x80,
{
    if b.len() > 0 && all_bare_safe(b) {
        assert forall|i: int| 0 <= i < bash_quoted(b).len() implies (0x20 <= #[trigger] bash_quoted(
            b,
        )[i] < 0x7F || bash_quoted(b)[i] == NEWLINE) by {
            assert(crate::ascii::bare_safe(b[i]));
        }
    } else if any_must_escape(b) {
        lemma_bash_escape_bytes(b);
        let body = escape_all(bash_escape(), b);
        assert forall|i: int| 0 <= i < bash_quoted(b).len() implies (0x20 <= #[trigger] bash_quoted(
            b,
        )[i] < 0x7F || bash_quoted(b)[i] == NEWLINE) by {
            if 2 <= i < 2 + body.len() {
                assert(bash_quoted(b)[i] == body[i - 2]);
            }
        }
    } else {
        lemma_single_quote_escape_bytes(b);
        let body = escape_all(single_quote_escape(), b);
        assert forall|i: int| 0 <= i < bash_quoted(b).len() implies (0x20 <= #[trigger] bash_quoted(
            b,
        )[i] < 0x7F || bash_quoted(b)[i] == NEWLINE) by {
            if 1 <= i < 1 + body.len() {
                let e = body[i - 1];
                assert(bash_quoted(b)[i] == e);
                if !(e == SINGLE_QUOTE || e == BACKSLASH) {
                    assert(b.contains(e));
                    let k = choose|k: int| 0 <= k < b.len() && b[k] == e;
                    assert(!must_escape(b[k]));
                }
            }
        }
    }
}

/// No-op on safe input: a non-empty, wholly bare-safe input is returned
/// unchanged.
pub proof fn lemma_bash_bare_unchanged(b: Seq<u8>)
    requires
        b.len() > 0,
        all_bare_safe(b),
    ensures
        bash_quoted(b) == b,
{
}

/// Empty input: the quoted form of the empty string is the two-character
/// empty single-quote pair; escape quoting is never chosen for emptiness
/// alone.
pub proof fn lemma_bash_empty()
    ensures
        bash_quoted(Seq::<u8>::empty()) =~= seq![SINGLE_QUOTE, SINGLE_QUOTE],
{
    assert(escape_all(single_quote_escape(), Seq::<u8>::empty()) =~= Seq::<u8>::empty());
}

} // verus!
