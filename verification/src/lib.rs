//! Shell quoting for byte strings.
//!
//! Turns an arbitrary byte slice into a byte sequence that a command shell
//! parses back to exactly the original bytes, as a single word. Two dialects
//! are supported: [`Sh`] (POSIX single-quote quoting only) and [`Bash`]
//! (adds ANSI-C `$'...'` escape quoting for bytes that single quotes cannot
//! carry robustly).

use vstd::prelude::*;
use vstd::string::StringSliceAdditionalSpecFns;

pub mod ascii;
pub mod bash;
mod byte_string;
pub mod grammar;
mod quoter;
pub mod sh;

pub use ascii::ByteClass;
pub use bash::Bash;
pub use byte_string::{bstr_bytes, bstring_bytes};
pub use grammar::Dialect;
pub use sh::Sh;

use quoter::QuoterSealed;

verus! {

/// A string of bytes that can be quoted/escaped: a borrowed view over the
/// caller's data. Build one with the [`From`] conversions from byte slices,
/// arrays, vectors and strings.
pub struct Quotable<'a> {
    pub(crate) bytes: &'a [u8],
}

impl<'a> View for Quotable<'a> {
    type V = Seq<u8>;

    closed spec fn view(&self) -> Seq<u8> {
        self.bytes@
    }
}

/// A quoting/escaping strategy that turns a string of bytes into a
/// shell-safe form.
///
/// **This trait is sealed** and cannot be implemented outside of this crate:
/// the output guarantees (among them, that the extended dialect's output is
/// always ASCII) hold by exhaustive analysis of the two implementations.
pub trait Quoter: QuoterSealed {

}

/// The bytes of `s`, each read as the character of its own code point.
/// Where every byte is ASCII — which the quoters guarantee for every input
/// under the extended dialect, and for ASCII input under the minimal one —
/// this is exactly the text whose encoding is `s`.
pub open spec fn chars_of_bytes(s: Seq<u8>) -> Seq<char> {
    s.map_values(|b: u8| b as char)
}

/// Extension trait for pushing shell-quoted byte strings into byte
/// container types: [`Vec<u8>`], [`String`], and [`bstr::BString`].
pub trait QuoteExt {
    /// Append the quoted form of `s` under the quoter `Q` to `self`.
    fn push_quoted<'a, Q: Quoter>(&mut self, q: Q, s: Quotable<'a>);
}

impl QuoteExt for Vec<u8> {
    fn push_quoted<'a, Q: Quoter>(&mut self, _q: Q, s: Quotable<'a>)
        ensures
            final(self)@ == old(self)@ + Q::quoted_bytes(s@),
    {
        Q::quote_into(s, self);
    }
}

/// Relies on `String::push`: appends exactly the one character.
#[verifier::external_body]
fn push_char(s: &mut String, c: char)
    ensures
        final(s)@ == old(s)@ + seq![c],
{
    s.push(c);
}

impl QuoteExt for String {
    fn push_quoted<'a, Q: Quoter>(&mut self, _q: Q, s: Quotable<'a>)
        ensures
            final(self)@ == old(self)@ + chars_of_bytes(Q::quoted_bytes(s@)),
    {
        let quoted = Q::quote(s);
        let n = quoted.len();
        let mut i: usize = 0;
        while i < n
            invariant
                0 <= i <= n,
                n == quoted@.len(),
                quoted@ == Q::quoted_bytes(s@),
                self@ == old(self)@ + chars_of_bytes(quoted@.take(i as int)),
            decreases n - i,
        {
            let b = quoted[i];
            push_char(self, b as char);
            proof {
                assert(quoted@.take(i as int + 1) =~= quoted@.take(i as int).push(b));
                assert(chars_of_bytes(quoted@.take(i as int + 1)) =~= chars_of_bytes(
                    quoted@.take(i as int),
                ).push(b as char));
                assert(self@ =~= old(self)@ + chars_of_bytes(quoted@.take(i as int + 1)));
            }
            i += 1;
        }
        proof {
            assert(quoted@.take(n as int) =~= quoted@);
        }
    }
}

/// Extension trait for quoting a byte string into a freshly produced owned
/// container: [`Vec<u8>`], [`String`], or [`bstr::BString`].
pub trait QuoteRefExt<Output>: Sized {
    /// The bytes `self` denotes.
    spec fn input_bytes(s: Self) -> Seq<u8>;

    /// How `Output` holds a quoted byte sequence.
    spec fn holds_quoted(r: Output, quoted: Seq<u8>) -> bool;

    /// The quoted form of `self` under the quoter `Q`.
    fn quoted<Q: Quoter>(self, q: Q) -> (r: Output)
        ensures
            Self::holds_quoted(r, Q::quoted_bytes(Self::input_bytes(self))),
    ;
}

impl<'a> QuoteRefExt<Vec<u8>> for Quotable<'a> {
    open spec fn input_bytes(s: Quotable<'a>) -> Seq<u8> {
        s@
    }

    open spec fn holds_quoted(r: Vec<u8>, quoted: Seq<u8>) -> bool {
        r@ == quoted
    }

    fn quoted<Q: Quoter>(self, _q: Q) -> (r: Vec<u8>) {
        Q::quote(self)
    }
}

impl<'a> QuoteRefExt<String> for Quotable<'a> {
    open spec fn input_bytes(s: Quotable<'a>) -> Seq<u8> {
        s@
    }

    open spec fn holds_quoted(r: String, quoted: Seq<u8>) -> bool {
        r@ == chars_of_bytes(quoted)
    }

    fn quoted<Q: Quoter>(self, q: Q) -> (r: String) {
        let mut out = String::new();
        out.push_quoted(q, self);
        proof {
            assert(Seq::<char>::empty() + chars_of_bytes(Q::quoted_bytes(self@)) =~= chars_of_bytes(
                Q::quoted_bytes(self@),
            ));
        }
        out
    }
}

impl<'a> From<&'a [u8]> for Quotable<'a> {
    fn from(source: &'a [u8]) -> (r: Quotable<'a>)
        ensures
            r@ == source@,
    {
        Quotable { bytes: source }
    }
}

impl<'a> vstd::std_specs::convert::FromSpecImpl<&'a [u8]> for Quotable<'a> {
    open spec fn obeys_from_spec() -> bool {
        true
    }

    closed spec fn from_spec(v: &'a [u8]) -> Quotable<'a> {
        Quotable { bytes: v }
    }
}

impl<'a, const N: usize> From<&'a [u8; N]> for Quotable<'a> {
    fn from(source: &'a [u8; N]) -> (r: Quotable<'a>)
        ensures
            r@ == source@,
    {
        Quotable { bytes: source.as_slice() }
    }
}

impl<'a, const N: usize> vstd::std_specs::convert::FromSpecImpl<&'a [u8; N]> for Quotable<'a> {
    open spec fn obeys_from_spec() -> bool {
        false
    }

    closed spec fn from_spec(v: &'a [u8; N]) -> Quotable<'a> {
        vstd::pervasive::arbitrary()
    }
}

impl<'a> From<&'a Vec<u8>> for Quotable<'a> {
    fn from(source: &'a Vec<u8>) -> (r: Quotable<'a>)
        ensures
            r@ == source@,
    {
        Quotable { bytes: source.as_slice() }
    }
}

impl<'a> vstd::std_specs::convert::FromSpecImpl<&'a Vec<u8>> for Quotable<'a> {
    open spec fn obeys_from_spec() -> bool {
        false
    }

    closed spec fn from_spec(v: &'a Vec<u8>) -> Quotable<'a> {
        vstd::pervasive::arbitrary()
    }
}

impl<'a> From<&'a str> for Quotable<'a> {
    fn from(source: &'a str) -> (r: Quotable<'a>)
        ensures
            r@ == source.spec_bytes(),
    {
        Quotable { bytes: source.as_bytes() }
    }
}

impl<'a> vstd::std_specs::convert::FromSpecImpl<&'a str> for Quotable<'a> {
    open spec fn obeys_from_spec() -> bool {
        false
    }

    closed spec fn from_spec(v: &'a str) -> Quotable<'a> {
        vstd::pervasive::arbitrary()
    }
}

impl<'a> From<&'a String> for Quotable<'a> {
    fn from(source: &'a String) -> (r: Quotable<'a>)
        ensures
            r@ == vstd::utf8::encode_utf8(source@),
    {
        Quotable { bytes: source.as_str().as_bytes() }
    }
}

impl<'a> vstd::std_specs::convert::FromSpecImpl<&'a String> for Quotable<'a> {
    open spec fn obeys_from_spec() -> bool {
        false
    }

    closed spec fn from_spec(v: &'a String) -> Quotable<'a> {
        vstd::pervasive::arbitrary()
    }
}

} // verus!
