//! Transaction ids: raw bytes as stored, and the hexadecimal text that is shown.

use vstd::prelude::*;

verus! {

/// The lower-case hexadecimal digit of a number below sixteen.
pub open spec fn hex_digit(n: int) -> char {
    if n < 10 {
        (48 + n) as u8 as char
    } else {
        (87 + n) as u8 as char
    }
}

/// Bytes in lower-case hexadecimal, two digits each, high digit first.
pub open spec fn hex_text(b: Seq<u8>) -> Seq<char> {
    Seq::new(
        2 * b.len(),
        |i: int|
            hex_digit(
                if i % 2 == 0 {
                    b[i / 2] as int / 16
                } else {
                    b[i / 2] as int % 16
                },
            ),
    )
}

/// Whether `c` is a hexadecimal digit, in either case.
pub open spec fn is_hex(c: char) -> bool {
    ('0' <= c <= '9') || ('a' <= c <= 'f') || ('A' <= c <= 'F')
}

/// The number that a hexadecimal digit stands for.
pub open spec fn hex_value(c: char) -> int {
    if '0' <= c <= '9' {
        c as int - 48
    } else if 'a' <= c <= 'f' {
        c as int - 87
    } else {
        c as int - 55
    }
}

/// The bytes that a hexadecimal text stands for; none if its length is odd or it
/// holds anything but digits.
pub open spec fn hex_bytes(s: Seq<char>) -> Option<Seq<u8>> {
    if s.len() % 2 == 0 && forall|i: int| 0 <= i < s.len() ==> is_hex(#[trigger] s[i]) {
        Some(
            Seq::new(
                s.len() / 2,
                |i: int| (hex_value(s[2 * i]) * 16 + hex_value(s[2 * i + 1])) as u8,
            ),
        )
    } else {
        None
    }
}

/// The shown form of a transaction id: its bytes reversed, in hexadecimal.
pub open spec fn txid_text(b: Seq<u8>) -> Seq<char> {
    hex_text(b.reverse())
}

/// `hex::encode`: bytes in lower-case hexadecimal.
#[verifier::external_body]
pub(crate) fn hex_encode(b: &[u8]) -> (r: String)
    ensures
        r@ == hex_text(b@),
{
    hex::encode(b)
}

/// `hex::decode`: the bytes of a hexadecimal text, an error on an odd length or
/// on a character that is no hexadecimal digit.
#[verifier::external_body]
fn hex_decode(s: &str) -> (r: Option<Vec<u8>>)
    ensures
        r is Some <==> hex_bytes(s@) is Some,
        r matches Some(b) ==> hex_bytes(s@) == Some(b@),
{
    hex::decode(s).ok()
}

/// `TxId::from_bytes` and the `Display` of `TxId`: the bytes of a transaction id
/// reversed, in lower-case hexadecimal.
#[verifier::external_body]
fn txid_to_string(b: [u8; 32]) -> (r: String)
    ensures
        r@ == txid_text(b@),
{
    zcash_protocol::TxId::from_bytes(b).to_string()
}

/// The shown form of a stored transaction id, which is none unless it has 32
/// bytes.
pub fn txid_display(txid: &[u8]) -> (r: Option<String>)
    ensures
        r is Some <==> txid@.len() == 32,
        r matches Some(s) ==> s@ == txid_text(txid@),
{
    if txid.len() != 32 {
        return None;
    }
    let mut b: [u8; 32] = [0u8;32];
    let mut i: usize = 0;
    while i < 32
        invariant
            i <= 32,
            txid@.len() == 32,
            forall|k: int| 0 <= k < i ==> b@[k] == txid@[k],
        decreases 32 - i,
    {
        b[i] = txid[i];
        i += 1;
    }
    assert(b@ =~= txid@);
    Some(txid_to_string(b))
}

/// The shown form of a stored transaction id, empty unless it has 32 bytes.
pub fn txid_hex(txid: &[u8]) -> (r: String)
    ensures
        r@ == (if txid@.len() == 32 {
            txid_text(txid@)
        } else {
            Seq::empty()
        }),
{
    match txid_display(txid) {
        Some(s) => s,
        None => String::new(),
    }
}

/// The stored form of a transaction id from its shown form, which is none unless
/// that is the hexadecimal text of 32 bytes.
pub open spec fn txid_blob(s: Seq<char>) -> Option<Seq<u8>> {
    match hex_bytes(s) {
        Some(b) => if b.len() == 32 {
            Some(b.reverse())
        } else {
            None
        },
        None => None,
    }
}

/// The stored form of a transaction id from its shown form.
pub fn txid_blob_from_hex(s: &str) -> (r: Option<Vec<u8>>)
    ensures
        r is Some <==> txid_blob(s@) is Some,
        r matches Some(b) ==> txid_blob(s@) == Some(b@),
{
    match hex_decode(s) {
        None => None,
        Some(b) => {
            if b.len() != 32 {
                return None;
            }
            let mut r: Vec<u8> = Vec::new();
            let mut i: usize = b.len();
            while i > 0
                invariant
                    i <= b.len(),
                    r@ == b@.reverse().take(b.len() - i),
                decreases i,
            {
                i -= 1;
                r.push(b[i]);
                assert(b@.reverse().take(b.len() - i) =~= b@.reverse().take(b.len() - i - 1).push(
                    b@[i as int],
                ));
            }
            assert(b@.reverse().take(b.len() - i) =~= b@.reverse());
            Some(r)
        },
    }
}

proof fn lemma_hex_digit(n: int)
    requires
        0 <= n < 16,
    ensures
        is_hex(hex_digit(n)),
        hex_value(hex_digit(n)) == n,
{
}

/// Reading printed bytes gives the bytes back.
pub proof fn hex_round_trip(b: Seq<u8>)
    ensures
        hex_bytes(hex_text(b)) == Some(b),
{
    let s = hex_text(b);
    assert forall|i: int| 0 <= i < s.len() implies is_hex(#[trigger] s[i]) by {
        lemma_hex_digit(b[i / 2] as int / 16);
        lemma_hex_digit(b[i / 2] as int % 16);
    }
    let t = hex_bytes(s)->0;
    assert forall|i: int| 0 <= i < b.len() implies t[i] == b[i] by {
        lemma_hex_digit(b[i] as int / 16);
        lemma_hex_digit(b[i] as int % 16);
        assert((2 * i) / 2 == i && (2 * i + 1) / 2 == i);
        assert((2 * i) % 2 == 0 && (2 * i + 1) % 2 == 1);
        assert(s[2 * i] == hex_digit(b[i] as int / 16));
        assert(s[2 * i + 1] == hex_digit(b[i] as int % 16));
    }
    assert(t =~= b);
}

/// A shown transaction id leads back to the stored one.
pub proof fn txid_round_trip(b: Seq<u8>)
    requires
        b.len() == 32,
    ensures
        txid_blob(txid_text(b)) == Some(b),
{
    hex_round_trip(b.reverse());
    assert(b.reverse().reverse() =~= b);
}

/// A transaction id is shown last byte first.
pub proof fn a_txid_is_shown_last_byte_first(b: Seq<u8>)
    requires
        b.len() > 0,
    ensures
        txid_text(b).len() == 2 * b.len(),
        txid_text(b)[0] == hex_digit(b.last() as int / 16),
        txid_text(b)[1] == hex_digit(b.last() as int % 16),
{
}

} // verus!
