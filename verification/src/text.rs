//! Turning byte slices of the input line back into `String`s for token
//! payloads and messages.

use vstd::prelude::*;

verus! {

/// The characters that UTF-8 (lossy) decoding yields for a byte sequence.
pub uninterp spec fn decoded(bytes: Seq<u8>) -> Seq<char>;

/// Whether every byte of the sequence is ASCII.
pub open spec fn is_ascii_bytes(bytes: Seq<u8>) -> bool {
    forall|k: int| 0 <= k < bytes.len() ==> bytes[k] < 128
}

/// The character sequence an ASCII byte sequence stands for.
pub open spec fn ascii_chars(bytes: Seq<u8>) -> Seq<char> {
    bytes.map(|k: int, b: u8| b as char)
}

/// Relies on `String::from_utf8_lossy`: the decoding depends on the bytes
/// alone, and bytes that are valid UTF-8 — in particular, ASCII bytes —
/// decode to exactly the characters they encode.
#[verifier::external_body]
pub fn bytes_to_string(bytes: &Vec<u8>) -> (r: String)
    ensures
        r@ == decoded(bytes@),
        is_ascii_bytes(bytes@) ==> r@ == ascii_chars(bytes@),
{
    String::from_utf8_lossy(bytes).into_owned()
}

} // verus!
