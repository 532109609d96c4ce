//! ASCII bytes as text.

use crate::emitter::is_ascii_bytes;
use vstd::prelude::*;

verus! {

/// The characters that ASCII bytes stand for.
pub open spec fn ascii_chars(bytes: Seq<u8>) -> Seq<char> {
    Seq::new(bytes.len(), |i: int| bytes[i] as char)
}

/// [`String::from_utf8`] on ASCII bytes. Trusted: ASCII is valid UTF-8,
/// so the conversion succeeds and the string has one character for each
/// byte, the one with that byte's code.
#[verifier::external_body]
pub(crate) fn string_from_ascii(bytes: Vec<u8>) -> (out: String)
    requires
        is_ascii_bytes(bytes@),
    ensures
        out@ == ascii_chars(bytes@),
{
    match String::from_utf8(bytes) {
        Ok(text) => text,
        Err(_) => String::new(),
    }
}

} // verus!
