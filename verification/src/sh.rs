//! The minimal POSIX-compatible quoter: single-quote quoting only.

use vstd::prelude::*;
use crate::ascii::{all_bare_safe, is_all_bare_safe, BACKSLASH, SINGLE_QUOTE};
use crate::grammar::{
    lemma_parse_bare, lemma_parse_single_quoted, parse_from, parse_word, Dialect, ParseState,
};
use crate::quoter::{
    escape_all, lemma_single_quote_escape_bytes, push_bytes, push_single_quoted, single_quote_escape,
    single_quoted, QuoterSealed,
};
use crate::{Quotable, Quoter};

verus! {

/// Quote byte strings for a minimal POSIX-compatible shell.
///
/// Only single-quote quoting exists in this dialect, so every byte other
/// than the single-quote character — control bytes, newlines, and bytes at
/// or above 0x80 included — is carried verbatim inside the quotes; POSIX
/// single-quote semantics preserve them all. A NUL byte is carried like any
/// other, but no shell can pass it through to a command's argument list:
/// the operating system's argument passing ends a word at the first NUL, so
/// input containing NUL is outside what any quoting can protect.
pub struct Sh;

/// The quoted form of `s` under the minimal dialect: unchanged where `s` is
/// non-empty and wholly bare-safe, otherwise the single-quote strategy (an
/// empty `s` becomes the empty single-quote pair).
pub open spec fn sh_quoted(s: Seq<u8>) -> Seq<u8> {
    if s.len() > 0 && all_bare_safe(s) {
        s
    } else {
        single_quoted(s)
    }
}

impl QuoterSealed for Sh {
    open spec fn quoted_bytes(b: Seq<u8>) -> Seq<u8> {
        sh_quoted(b)
    }

    fn quote(s: Quotable<'_>) -> (r: Vec<u8>) {
        let mut out: Vec<u8> = Vec::new();
        Self::quote_into(s, &mut out);
        proof {
            assert(Seq::<u8>::empty() + sh_quoted(s@) =~= sh_quoted(s@));
        }
        out
    }

    fn quote_into(s: Quotable<'_>, sout: &mut Vec<u8>) {
        let bytes: &[u8] = s.bytes;
        if bytes.len() > 0 && is_all_bare_safe(bytes) {
            push_bytes(sout, bytes);
        } else {
            push_single_quoted(bytes, sout);
        }
    }
}

impl Quoter for Sh {

}

/// Round trip: under the minimal dialect's grammar, the quoted form of any
/// byte string parses back to exactly that string, as one word.
pub proof fn lemma_sh_round_trip(b: Seq<u8>)
    ensures
        parse_word(Dialect::Sh, sh_quoted(b)) == Some(b),
{
    if b.len() > 0 && all_bare_safe(b) {
        lemma_parse_bare(Dialect::Sh, b);
    } else {
        let q = single_quoted(b);
        assert(q[0] == SINGLE_QUOTE);
        assert(q.skip(1) =~= escape_all(single_quote_escape(), b) + seq![SINGLE_QUOTE]
            + Seq::<u8>::empty());
        lemma_parse_single_quoted(Dialect::Sh, b, Seq::<u8>::empty());
        assert(parse_from(Dialect::Sh, ParseState::Unquoted, Seq::<u8>::empty()) == Some(
            Seq::<u8>::empty(),
        ));
        assert(b + Seq::<u8>::empty() =~= b);
    }
}

/// Portability: the minimal dialect's output is made only of constructs the
/// extended dialect shares, so it parses to the same word there too.
pub proof fn lemma_sh_output_portable(b: Seq<u8>)
    ensures
        parse_word(Dialect::Bash, sh_quoted(b)) == Some(b),
{
    if b.len() > 0 && all_bare_safe(b) {
        lemma_parse_bare(Dialect::Bash, b);
    } else {
        let q = single_quoted(b);
        assert(q[0] == SINGLE_QUOTE);
        assert(q.skip(1) =~= escape_all(single_quote_escape(), b) + seq![SINGLE_QUOTE]
            + Seq::<u8>::empty());
        lemma_parse_single_quoted(Dialect::Bash, b, Seq::<u8>::empty());
        assert(parse_from(Dialect::Bash, ParseState::Unquoted, Seq::<u8>::empty()) == Some(
            Seq::<u8>::empty(),
        ));
        assert(b + Seq::<u8>::empty() =~= b);
    }
}

/// Output provenance: every byte of the quoted form is the single-quote
/// character, the backslash, or a byte of the input. This dialect adds no
/// escapes for control or high bytes, so it is ASCII-safe exactly as far as
/// its input is.
pub proof fn lemma_sh_output_bytes(b: Seq<u8>)
    ensures
        forall|i: int|
            0 <= i < sh_quoted(b).len() ==> (#[trigger] sh_quoted(b)[i] == SINGLE_QUOTE
                || sh_quoted(b)[i] == BACKSLASH || b.contains(sh_quoted(b)[i])),
{
    if b.len() > 0 && all_bare_safe(b) {
        assert forall|i: int| 0 <= i < b.len() implies b.contains(#[trigger] b[i]) by {}
    } else {
        lemma_single_quote_escape_bytes(b);
        let body = escape_all(single_quote_escape(), b);
        assert forall|i: int| 0 <= i < single_quoted(b).len() implies (#[trigger] single_quoted(
            b,
        )[i] == SINGLE_QUOTE || single_quoted(b)[i] == BACKSLASH || b.contains(
            single_quoted(b)[i],
        )) by {
            if 1 <= i < 1 + body.len() {
                assert(single_quoted(b)[i] == body[i - 1]);
            }
        }
    }
}

/// ASCII-safety, as far as this dialect can give it: where every input byte
/// is below 0x80, so is every byte of the quoted output.
pub proof fn lemma_sh_ascii_safe(b: Seq<u8>)
    requires
        forall|i: int| 0 <= i < b.len() ==> #[trigger] b[i] < 0x80,
    ensures
        forall|i: int| 0 <= i < sh_quoted(b).len() ==> #[trigger] sh_quoted(b)[i] < 0x80,
{
    lemma_sh_output_bytes(b);
    assert forall|i: int| 0 <= i < sh_quoted(b).len() implies #[trigger] sh_quoted(b)[i]
        < 0x80 by {
        let e = sh_quoted(b)[i];
        if b.contains(e) {
            let k = choose|k: int| 0 <= k < b.len() && b[k] == e;
            assert(b[k] < 0x80);
        }
    }
}

/// No-op on safe input: a non-empty, wholly bare-safe input is returned
/// unchanged.
pub proof fn lemma_sh_bare_unchanged(b: Seq<u8>)
    requires
        b.len() > 0,
        all_bare_safe(b),
    ensures
        sh_quoted(b) == b,
{
}

/// Empty input: the quoted form of the empty string is the two-character
/// empty single-quote pair.
pub proof fn lemma_sh_empty()
    ensures
        sh_quoted(Seq::<u8>::empty()) =~= seq![SINGLE_QUOTE, SINGLE_QUOTE],
{
    assert(escape_all(single_quote_escape(), Seq::<u8>::empty()) =~= Seq::<u8>::empty());
}

} // verus!
