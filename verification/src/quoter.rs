//! The common quoting contract and the machinery both dialects share: the
//! per-byte escape expansion and the single-quote strategy.

use vstd::prelude::*;
use crate::ascii::{BACKSLASH, SINGLE_QUOTE};
use crate::Quotable;

verus! {

/// The contract both quoters implement: quote a string of bytes into a new
/// vector, or append the quoted form to an existing one, with identical
/// content. Sealed: the crate's output guarantees hold only because the set
/// of implementations is closed.
pub trait QuoterSealed {
    /// The quoted form of `b` under this dialect.
    spec fn quoted_bytes(b: Seq<u8>) -> Seq<u8>;

    /// Quote/escape a string of bytes into a new [`Vec<u8>`].
    fn quote(s: Quotable<'_>) -> (r: Vec<u8>)
        ensures
            r@ == Self::quoted_bytes(s@),
    ;

    /// Quote/escape a string of bytes onto the end of an existing [`Vec<u8>`].
    fn quote_into(s: Quotable<'_>, sout: &mut Vec<u8>)
        ensures
            final(sout)@ == old(sout)@ + Self::quoted_bytes(s@),
    ;
}

/// Each byte of `s` replaced by its expansion under `f`, in order.
pub open spec fn escape_all(f: spec_fn(u8) -> Seq<u8>, s: Seq<u8>) -> Seq<u8>
    decreases s.len(),
{
    if s.len() == 0 {
        Seq::empty()
    } else {
        f(s[0]) + escape_all(f, s.skip(1))
    }
}

/// Extending the input by one byte extends the expansion by that byte's
/// escape.
pub proof fn lemma_escape_all_push(f: spec_fn(u8) -> Seq<u8>, s: Seq<u8>, b: u8)
    ensures
        escape_all(f, s.push(b)) == escape_all(f, s) + f(b),
    decreases s.len(),
{
    if s.len() == 0 {
        let single: Seq<u8> = seq![b];
        assert(s.push(b) =~= single);
        assert(single.skip(1) =~= s);
        assert(single[0] == b);
        assert(escape_all(f, single) == f(b) + escape_all(f, s));
        assert(escape_all(f, s) =~= Seq::<u8>::empty());
        assert(f(b) + Seq::<u8>::empty() =~= Seq::<u8>::empty() + f(b));
    } else {
        lemma_escape_all_push(f, s.skip(1), b);
        assert(s.push(b).skip(1) =~= s.skip(1).push(b));
        assert(s.push(b)[0] == s[0]);
        assert(f(s[0]) + (escape_all(f, s.skip(1)) + f(b)) =~= (f(s[0]) + escape_all(
            f,
            s.skip(1),
        )) + f(b));
    }
}

/// The expansion of one byte under the single-quote strategy: the quote
/// character closes the group, appears backslash-escaped outside it, and
/// reopens a group; every other byte stands for itself.
pub open spec fn single_quote_escape_byte(b: u8) -> Seq<u8> {
    if b == SINGLE_QUOTE {
        seq![SINGLE_QUOTE, BACKSLASH, SINGLE_QUOTE, SINGLE_QUOTE]
    } else {
        seq![b]
    }
}

/// The single-quote strategy's per-byte expansion, as a function value.
pub open spec fn single_quote_escape() -> spec_fn(u8) -> Seq<u8> {
    |b: u8| single_quote_escape_byte(b)
}

/// The single-quote strategy: the expanded bytes wrapped in single quotes.
/// An empty input becomes the empty single-quote pair.
pub open spec fn single_quoted(s: Seq<u8>) -> Seq<u8> {
    seq![SINGLE_QUOTE] + escape_all(single_quote_escape(), s) + seq![SINGLE_QUOTE]
}

/// Every byte of the single-quote strategy's expansion is the quote
/// character, the backslash, or a byte of the input.
pub proof fn lemma_single_quote_escape_bytes(s: Seq<u8>)
    ensures
        forall|i: int|
            0 <= i < escape_all(single_quote_escape(), s).len() ==> (#[trigger] escape_all(
                single_quote_escape(),
                s,
            )[i] == SINGLE_QUOTE || escape_all(single_quote_escape(), s)[i] == BACKSLASH
                || s.contains(escape_all(single_quote_escape(), s)[i])),
    decreases s.len(),
{
    let f = single_quote_escape();
    if s.len() > 0 {
        let b = s[0];
        let s1 = s.skip(1);
        lemma_single_quote_escape_bytes(s1);
        assert(escape_all(f, s) == f(b) + escape_all(f, s1));
        assert forall|i: int| 0 <= i < escape_all(f, s).len() implies (#[trigger] escape_all(
            f,
            s,
        )[i] == SINGLE_QUOTE || escape_all(f, s)[i] == BACKSLASH || s.contains(
            escape_all(f, s)[i],
        )) by {
            let head = f(b);
            let e = escape_all(f, s)[i];
            if i < head.len() {
                if b != SINGLE_QUOTE {
                    assert(e == b);
                    assert(s[0] == b);
                }
            } else {
                let j = i - head.len();
                let e1 = escape_all(f, s1)[j];
                assert(e == e1);
                if !(e1 == SINGLE_QUOTE || e1 == BACKSLASH) {
                    assert(s1.contains(e1));
                    let k = choose|k: int| 0 <= k < s1.len() && s1[k] == e1;
                    assert(s[k + 1] == e1);
                }
            }
        }
    }
}

/// Append a slice's bytes to a vector, unchanged.
pub(crate) fn push_bytes(sout: &mut Vec<u8>, bytes: &[u8])
    ensures
        final(sout)@ == old(sout)@ + bytes@,
{
    let n = bytes.len();
    let mut i: usize = 0;
    while i < n
        invariant
            0 <= i <= n,
            n == bytes@.len(),
            sout@ == old(sout)@ + bytes@.take(i as int),
        decreases n - i,
    {
        sout.push(bytes[i]);
        proof {
            assert(bytes@.take(i as int + 1) =~= bytes@.take(i as int).push(bytes@[i as int]));
            assert(sout@ =~= old(sout)@ + bytes@.take(i as int + 1));
        }
        i += 1;
    }
    proof {
        assert(bytes@.take(n as int) =~= bytes@);
    }
}

/// Append the single-quote strategy's output for `bytes` to `sout`.
pub(crate) fn push_single_quoted(bytes: &[u8], sout: &mut Vec<u8>)
    ensures
        final(sout)@ == old(sout)@ + single_quoted(bytes@),
{
    sout.push(SINGLE_QUOTE);
    let n = bytes.len();
    let mut i: usize = 0;
    while i < n
        invariant
            0 <= i <= n,
            n == bytes@.len(),
            sout@ == old(sout)@ + seq![SINGLE_QUOTE] + escape_all(
                single_quote_escape(),
                bytes@.take(i as int),
            ),
        decreases n - i,
    {
        let b = bytes[i];
        if b == SINGLE_QUOTE {
            sout.push(SINGLE_QUOTE);
            sout.push(BACKSLASH);
            sout.push(SINGLE_QUOTE);
            sout.push(SINGLE_QUOTE);
        } else {
            sout.push(b);
        }
        proof {
            lemma_escape_all_push(single_quote_escape(), bytes@.take(i as int), b);
            assert(bytes@.take(i as int + 1) =~= bytes@.take(i as int).push(b));
            assert(sout@ =~= old(sout)@ + seq![SINGLE_QUOTE] + escape_all(
                single_quote_escape(),
                bytes@.take(i as int + 1),
            ));
        }
        i += 1;
    }
    sout.push(SINGLE_QUOTE);
    proof {
        assert(bytes@.take(n as int) =~= bytes@);
        assert(sout@ =~= old(sout)@ + single_quoted(bytes@));
    }
}

} // verus!
