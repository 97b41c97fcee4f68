//! The text of a shielded memo.

use vstd::prelude::*;
use vstd::string::*;
use vstd::utf8::*;

verus! {

/// The size of a memo field in bytes.
pub const MEMO_BYTES: usize = 512;

/// Bytes without the zeros at their end.
pub open spec fn without_padding(b: Seq<u8>) -> Seq<u8>
    decreases b.len(),
{
    if b.len() > 0 && b.last() == 0 {
        without_padding(b.drop_last())
    } else {
        b
    }
}

/// The text of a memo field: none if the bytes are too many, if the first marks
/// another kind of memo, or if they are no text.
pub open spec fn memo_text(b: Seq<u8>) -> Option<Seq<char>> {
    if b.len() <= MEMO_BYTES && (b.len() == 0 || b[0] <= 0xF4) && valid_utf8(without_padding(b)) {
        Some(decode_utf8(without_padding(b)))
    } else {
        None
    }
}

/// `Memo::from_bytes`: the text where the bytes are a text memo.
#[verifier::external_body]
pub(crate) fn decode_text_memo(b: &[u8]) -> (r: Option<String>)
    ensures
        r is Some <==> memo_text(b@) is Some,
        r matches Some(s) ==> memo_text(b@) == Some(s@),
{
    match zcash_protocol::memo::Memo::from_bytes(b) {
        Ok(zcash_protocol::memo::Memo::Text(t)) => Some(String::from(t)),
        _ => None,
    }
}

/// A memo reads as the text that was written, without the zeros that fill the field:
/// they never belong to the text.
pub proof fn padding_is_no_text(b: Seq<u8>)
    requires
        0 < b.len() < MEMO_BYTES,
    ensures
        memo_text(b.push(0)) == memo_text(b),
        b.len() < 512,
        b[0] > 0xF4 ==> memo_text(b) is None,
{
    assert(b.push(0).drop_last() =~= b);
}

} // verus!
