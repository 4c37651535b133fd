//! The glyph codec: code page 437 (wingdings dialect) between characters and
//! single-byte glyph indices.
use vstd::prelude::*;

verus! {

/// The glyph index that the code page 437 wingdings dialect gives `c`, if any.
pub uninterp spec fn cp437_glyph(c: char) -> Option<u8>;

/// The character that the code page 437 wingdings dialect shows at glyph `b`.
pub uninterp spec fn cp437_char(b: u8) -> char;

/// Characters that the dialect keeps at their own code point.
pub open spec fn is_plain_ascii(c: char) -> bool {
    c == '\0' || ('\u{20}' <= c && c <= '\u{7E}')
}

/// Relies on `codepage_437::CP437_WINGDINGS.encode`: the glyph index of `c`,
/// and for NUL and printable ASCII the code point itself (the dialect's
/// overlap rule, which no mapping of the dialect overrides).
#[verifier::external_body]
fn cp437_encode(c: char) -> (r: Option<u8>)
    ensures
        r == cp437_glyph(c),
        is_plain_ascii(c) ==> r == Some(c as u8),
{
    codepage_437::CP437_WINGDINGS.encode(c)
}

/// Relies on `codepage_437::CP437_WINGDINGS.decode`: a lookup in the dialect's
/// table of 256 distinct characters, each of which `encode` maps back to its
/// own index (the crate's `encode::normal` test checks every index).
#[verifier::external_body]
fn cp437_decode(b: u8) -> (r: char)
    ensures
        r == cp437_char(b),
        cp437_glyph(r) == Some(b),
{
    codepage_437::CP437_WINGDINGS.decode(b)
}

/// The glyph index of `ch`, or `None` where the code page has no glyph for it.
pub fn encode(ch: char) -> (r: Option<u8>)
    ensures
        r == cp437_glyph(ch),
        is_plain_ascii(ch) ==> r == Some(ch as u8),
{
    cp437_encode(ch)
}

/// Converts a char to its code page 437 glyph index; the char must have one.
pub fn ch_to_u8(ch: char) -> (r: u8)
    requires
        cp437_glyph(ch) is Some,
    ensures
        cp437_glyph(ch) == Some(r),
{
    match cp437_encode(ch) {
        Some(b) => b,
        None => 0,
    }
}

/// Converts a glyph index to its character. Every index has one, and that
/// character encodes back to the same index.
pub fn u8_to_ch(u: u8) -> (r: char)
    ensures
        r == cp437_char(u),
        cp437_glyph(r) == Some(u),
{
    cp437_decode(u)
}

} // verus!
