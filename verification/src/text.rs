//! Text and its UTF-8 form.

use crate::octets::same_bytes;
use vstd::prelude::*;
use vstd::utf8::*;

verus! {

/// What `String::from_utf8_lossy` makes of bytes that are not UTF-8.
pub uninterp spec fn utf8_repaired(bytes: Seq<u8>) -> Seq<char>;

/// The text that `bytes` spells, with whatever is not UTF-8 replaced.
pub open spec fn lossy(bytes: Seq<u8>) -> Seq<char> {
    if valid_utf8(bytes) {
        decode_utf8(bytes)
    } else {
        utf8_repaired(bytes)
    }
}

/// `String::from_utf8_lossy`: bytes that are UTF-8 give the text they encode. Of other
/// bytes only that the text is a function of them is claimed, not where the replacement
/// characters stand.
#[verifier::external_body]
pub(crate) fn lossy_text(bytes: &[u8]) -> (text: String)
    ensures
        valid_utf8(bytes@) ==> text@ == decode_utf8(bytes@),
        !valid_utf8(bytes@) ==> text@ == utf8_repaired(bytes@),
{
    String::from_utf8_lossy(bytes).into_owned()
}

/// Text survives the way through its UTF-8 form.
pub proof fn law_lossy_of_utf8(text: Seq<char>)
    ensures
        lossy(encode_utf8(text)) == text,
{
    encode_utf8_valid_utf8(text);
    encode_utf8_decode_utf8(text);
}

/// Whether two texts are equal.
pub fn same_text(left: &str, right: &str) -> (same: bool)
    ensures
        same == (left@ == right@),
{
    proof {
        encode_utf8_decode_utf8(left@);
        encode_utf8_decode_utf8(right@);
    }
    same_bytes(left.as_bytes(), right.as_bytes())
}

/// Bytes that are UTF-8 spell the text that they encode, and only that text encodes to
/// them; other bytes spell what is made of them by repair.
pub proof fn law_lossy(bytes: Seq<u8>)
    ensures
        valid_utf8(bytes) ==> encode_utf8(lossy(bytes)) == bytes,
        !valid_utf8(bytes) ==> lossy(bytes) == utf8_repaired(bytes),
{
    if valid_utf8(bytes) {
        decode_utf8_encode_utf8(bytes);
    }
}

} // verus!
