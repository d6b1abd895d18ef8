//! Plain-text extraction: the file's content passes through unchanged, then
//! is decoded as UTF-8 for display; bytes that are not valid text fail.

use vstd::prelude::*;
use vstd::utf8::{decode_utf8, encode_utf8, valid_utf8};

verus! {

/// What plain-text extraction returns: the content itself, untouched.
pub open spec fn spec_extract_plain(content: Seq<u8>) -> Seq<u8> {
    content
}

/// Extracts a plain-text file: a pure pass-through of its bytes, with no
/// transformation and no trimming.
pub fn extract_plain(content: &[u8]) -> (r: Vec<u8>)
    ensures
        r@ == spec_extract_plain(content@),
{
    vstd::slice::slice_to_vec(content)
}

/// Plain-text extraction is the identity on the content, so repeating it any
/// number of times returns the same bytes as extracting once.
pub proof fn lemma_plain_extraction_idempotent(content: Seq<u8>)
    ensures
        spec_extract_plain(content) == content,
        spec_extract_plain(spec_extract_plain(content)) == spec_extract_plain(content),
{
}

/// Relies on `core::str::from_utf8`: it succeeds exactly on valid UTF-8 and
/// returns the characters those bytes encode.
#[verifier::external_body]
pub(crate) fn decode_text(content: &[u8]) -> (r: Option<String>)
    ensures
        r is Some <==> valid_utf8(content@),
        r matches Some(s) ==> s@ == decode_utf8(content@),
{
    core::str::from_utf8(content).ok().map(str::to_owned)
}

/// A decoded plain-text result is faithful to the file: re-encoding the
/// characters gives back exactly the original byte content.
pub proof fn lemma_decoded_text_reencodes(content: Seq<u8>)
    requires
        valid_utf8(content),
    ensures
        encode_utf8(decode_utf8(content)) == content,
{
    vstd::utf8::decode_utf8_encode_utf8(content);
}

} // verus!
