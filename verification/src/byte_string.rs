//! Quoting into and out of `bstr`'s owned byte string.

use vstd::prelude::*;
use crate::quoter::QuoterSealed;
use crate::{Quotable, QuoteExt, QuoteRefExt, Quoter};

verus! {

#[verifier::external_type_specification]
#[verifier::external_body]
pub struct ExBString(bstr::BString);

#[verifier::external_type_specification]
#[verifier::external_body]
pub struct ExBStr(bstr::BStr);

/// The bytes a [`bstr::BStr`] holds.
pub uninterp spec fn bstr_bytes(s: &bstr::BStr) -> Seq<u8>;

/// Relies on `<bstr::BStr as AsRef<[u8]>>::as_ref`, an identity cast of the
/// reference: the slice holds exactly the byte string's bytes.
#[verifier::external_body]
fn bstr_as_bytes(s: &bstr::BStr) -> (r: &[u8])
    ensures
        r@ == bstr_bytes(s),
{
    s.as_ref()
}

/// The bytes a [`bstr::BString`] holds.
pub uninterp spec fn bstring_bytes(s: bstr::BString) -> Seq<u8>;

/// Relies on `<bstr::BString as From<Vec<u8>>>::from`, which wraps the
/// vector without touching its bytes: the new byte string holds exactly the
/// vector's bytes.
#[verifier::external_body]
fn bstring_from_vec(v: Vec<u8>) -> (r: bstr::BString)
    ensures
        bstring_bytes(r) == v@,
{
    bstr::BString::from(v)
}

/// Relies on `Vec::extend_from_slice`, reached through `bstr::BString`'s
/// `DerefMut` to its inner `Vec<u8>`: appends exactly the slice's bytes.
#[verifier::external_body]
fn bstring_extend(s: &mut bstr::BString, bytes: &[u8])
    ensures
        bstring_bytes(*final(s)) == bstring_bytes(*old(s)) + bytes@,
{
    s.extend_from_slice(bytes);
}

/// Relies on `<bstr::BString as AsRef<[u8]>>::as_ref`, which borrows the
/// inner vector: the slice holds exactly the byte string's bytes.
#[verifier::external_body]
fn bstring_as_bytes(s: &bstr::BString) -> (r: &[u8])
    ensures
        r@ == bstring_bytes(*s),
{
    s.as_ref()
}

impl QuoteExt for bstr::BString {
    fn push_quoted<'a, Q: Quoter>(&mut self, _q: Q, s: Quotable<'a>)
        ensures
            bstring_bytes(*final(self)) == bstring_bytes(*old(self)) + Q::quoted_bytes(s@),
    {
        let quoted = Q::quote(s);
        bstring_extend(self, quoted.as_slice());
    }
}

impl<'a> QuoteRefExt<bstr::BString> for Quotable<'a> {
    open spec fn input_bytes(s: Quotable<'a>) -> Seq<u8> {
        s@
    }

    open spec fn holds_quoted(r: bstr::BString, quoted: Seq<u8>) -> bool {
        bstring_bytes(r) == quoted
    }

    fn quoted<Q: Quoter>(self, _q: Q) -> (r: bstr::BString) {
        bstring_from_vec(Q::quote(self))
    }
}

impl<'a> From<&'a bstr::BStr> for Quotable<'a> {
    fn from(source: &'a bstr::BStr) -> (r: Quotable<'a>)
        ensures
            r@ == bstr_bytes(source),
    {
        Quotable { bytes: bstr_as_bytes(source) }
    }
}

impl<'a> vstd::std_specs::convert::FromSpecImpl<&'a bstr::BStr> for Quotable<'a> {
    open spec fn obeys_from_spec() -> bool {
        false
    }

    closed spec fn from_spec(v: &'a bstr::BStr) -> Quotable<'a> {
        vstd::pervasive::arbitrary()
    }
}

impl<'a> From<&'a bstr::BString> for Quotable<'a> {
    fn from(source: &'a bstr::BString) -> (r: Quotable<'a>)
        ensures
            r@ == bstring_bytes(*source),
    {
        Quotable { bytes: bstring_as_bytes(source) }
    }
}

impl<'a> vstd::std_specs::convert::FromSpecImpl<&'a bstr::BString> for Quotable<'a> {
    open spec fn obeys_from_spec() -> bool {
        false
    }

    closed spec fn from_spec(v: &'a bstr::BString) -> Quotable<'a> {
        vstd::pervasive::arbitrary()
    }
}

} // verus!
