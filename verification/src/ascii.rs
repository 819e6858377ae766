//! Byte classifier: assigns every byte value a class that drives the
//! quoting decisions of both dialects.

use vstd::prelude::*;

verus! {

/// The single-quote character `'`.
pub const SINGLE_QUOTE: u8 = 0x27;

/// The backslash character `\`.
pub const BACKSLASH: u8 = 0x5C;

/// The dollar character `$`, which opens escape quoting in the extended dialect.
pub const DOLLAR: u8 = 0x24;

/// The newline character.
pub const NEWLINE: u8 = 0x0A;

/// The class of a byte with respect to shell quoting.
#[derive(Clone, Copy, PartialEq, Eq, Structural, Debug)]
pub enum ByteClass {
    /// May appear unquoted, outside any quoting construct.
    BareSafe,
    /// Unsafe unquoted, but representable verbatim inside single quotes
    /// (printable bytes other than the quote character, and the newline).
    QuoteLiteral,
    /// The single-quote character itself: inside single-quote quoting it must
    /// be closed over, escaped, and the quoting reopened.
    QuoteBreaking,
    /// Control and non-printable bytes (except newline) and bytes at or above
    /// 0x80: representable robustly only through escape quoting.
    MustEscape,
}

/// A byte that never needs any quoting construct: ASCII letters, digits, and
/// the punctuation `-`, `_`, `.`, `/`, `,`, `:`, `@`, `%`, `+`, `=`.
pub open spec fn bare_safe(b: u8) -> bool {
    (0x41 <= b <= 0x5A) || (0x61 <= b <= 0x7A) || (0x30 <= b <= 0x39)
        || b == 0x2D || b == 0x5F || b == 0x2E || b == 0x2F || b == 0x2C
        || b == 0x3A || b == 0x40 || b == 0x25 || b == 0x2B || b == 0x3D
}

/// A byte that escape quoting must (or should, for robustness) represent as
/// an escape: control bytes other than newline, delete, and every byte at or
/// above 0x80.
pub open spec fn must_escape(b: u8) -> bool {
    (b < 0x20 && b != NEWLINE) || b >= 0x7F
}

/// The class of a byte; total over all 256 values.
pub open spec fn byte_class(b: u8) -> ByteClass {
    if b == SINGLE_QUOTE {
        ByteClass::QuoteBreaking
    } else if bare_safe(b) {
        ByteClass::BareSafe
    } else if must_escape(b) {
        ByteClass::MustEscape
    } else {
        ByteClass::QuoteLiteral
    }
}

/// Every byte of the sequence is bare-safe.
pub open spec fn all_bare_safe(s: Seq<u8>) -> bool {
    forall|i: int| 0 <= i < s.len() ==> bare_safe(#[trigger] s[i])
}

/// Some byte of the sequence requires escape quoting.
pub open spec fn any_must_escape(s: Seq<u8>) -> bool {
    exists|i: int| 0 <= i < s.len() && must_escape(#[trigger] s[i])
}

/// Classify one byte.
pub fn classify(b: u8) -> (c: ByteClass)
    ensures
        c == byte_class(b),
{
    if b == SINGLE_QUOTE {
        ByteClass::QuoteBreaking
    } else if (0x41 <= b && b <= 0x5A) || (0x61 <= b && b <= 0x7A)
        || (0x30 <= b && b <= 0x39) || b == 0x2D || b == 0x5F || b == 0x2E
        || b == 0x2F || b == 0x2C || b == 0x3A || b == 0x40 || b == 0x25
        || b == 0x2B || b == 0x3D {
        ByteClass::BareSafe
    } else if (b < 0x20 && b != NEWLINE) || b >= 0x7F {
        ByteClass::MustEscape
    } else {
        ByteClass::QuoteLiteral
    }
}

/// The fast-path query: does the slice consist solely of bare-safe bytes?
pub fn is_all_bare_safe(bytes: &[u8]) -> (r: bool)
    ensures
        r == all_bare_safe(bytes@),
{
    let n = bytes.len();
    let mut i: usize = 0;
    while i < n
        invariant
            0 <= i <= n,
            n == bytes@.len(),
            forall|j: int| 0 <= j < i ==> bare_safe(#[trigger] bytes@[j]),
        decreases n - i,
    {
        if !matches!(classify(bytes[i]), ByteClass::BareSafe) {
            return false;
        }
        i += 1;
    }
    true
}

/// Does some byte of the slice require escape quoting?
pub fn contains_must_escape(bytes: &[u8]) -> (r: bool)
    ensures
        r == any_must_escape(bytes@),
{
    let n = bytes.len();
    let mut i: usize = 0;
    while i < n
        invariant
            0 <= i <= n,
            n == bytes@.len(),
            forall|j: int| 0 <= j < i ==> !must_escape(#[trigger] bytes@[j]),
        decreases n - i,
    {
        if matches!(classify(bytes[i]), ByteClass::MustEscape) {
            return true;
        }
        i += 1;
    }
    false
}

} // verus!
