//! Big-endian encoding of the 64-bit counter value.

use vstd::prelude::*;

verus! {

/// The big-endian encoding of `v`: eight bytes, most significant first.
pub open spec fn be_bytes_of(v: u64) -> Seq<u8> {
    seq![
        (v >> 56) as u8,
        (v >> 48) as u8,
        (v >> 40) as u8,
        (v >> 32) as u8,
        (v >> 24) as u8,
        (v >> 16) as u8,
        (v >> 8) as u8,
        v as u8,
    ]
}

/// The value held by the first eight bytes of `b`, read big-endian.
pub open spec fn be_value_of(b: Seq<u8>) -> u64
    recommends
        b.len() >= 8,
{
    (((b[0] as u64) << 56) | ((b[1] as u64) << 48) | ((b[2] as u64) << 40) | ((b[3] as u64) << 32)
        | ((b[4] as u64) << 24) | ((b[5] as u64) << 16) | ((b[6] as u64) << 8) | (b[7] as u64))
}

/// Encodes `value` as eight big-endian bytes.
pub fn encode_be(value: u64) -> (b: Vec<u8>)
    ensures
        b@ == be_bytes_of(value),
        b@.len() == 8,
{
    let b0: u8 = #[verifier::truncate] ((value >> 56) as u8);
    let b1: u8 = #[verifier::truncate] ((value >> 48) as u8);
    let b2: u8 = #[verifier::truncate] ((value >> 40) as u8);
    let b3: u8 = #[verifier::truncate] ((value >> 32) as u8);
    let b4: u8 = #[verifier::truncate] ((value >> 24) as u8);
    let b5: u8 = #[verifier::truncate] ((value >> 16) as u8);
    let b6: u8 = #[verifier::truncate] ((value >> 8) as u8);
    let b7: u8 = #[verifier::truncate] (value as u8);
    let b: Vec<u8> = vec![b0, b1, b2, b3, b4, b5, b6, b7];
    proof {
        assert(b@ =~= be_bytes_of(value));
    }
    b
}

/// Reads the first eight bytes of `b` as a big-endian value.  Returns
/// `None` exactly when fewer than eight bytes are present: a short value is
/// never zero-filled or truncated silently.
pub fn decode_be(b: &Vec<u8>) -> (r: Option<u64>)
    ensures
        b@.len() >= 8 ==> r == Some(be_value_of(b@)),
        b@.len() < 8 ==> r is None,
{
    if b.len() < 8 {
        return None;
    }
    let v: u64 = (((b[0] as u64) << 56) | ((b[1] as u64) << 48) | ((b[2] as u64) << 40)
        | ((b[3] as u64) << 32) | ((b[4] as u64) << 24) | ((b[5] as u64) << 16)
        | ((b[6] as u64) << 8) | (b[7] as u64));
    Some(v)
}

/// Round trip: decoding the big-endian encoding of a value yields that
/// value back, for every 64-bit value.
pub proof fn lemma_be_round_trip(v: u64)
    ensures
        be_value_of(be_bytes_of(v)) == v,
{
    let b = be_bytes_of(v);
    assert(b[0] == (v >> 56) as u8);
    assert(b[1] == (v >> 48) as u8);
    assert(b[2] == (v >> 40) as u8);
    assert(b[3] == (v >> 32) as u8);
    assert(b[4] == (v >> 24) as u8);
    assert(b[5] == (v >> 16) as u8);
    assert(b[6] == (v >> 8) as u8);
    assert(b[7] == v as u8);
    assert(((((v >> 56) as u8) as u64) << 56) | ((((v >> 48) as u8) as u64) << 48)
        | ((((v >> 40) as u8) as u64) << 40) | ((((v >> 32) as u8) as u64) << 32)
        | ((((v >> 24) as u8) as u64) << 24) | ((((v >> 16) as u8) as u64) << 16)
        | ((((v >> 8) as u8) as u64) << 8) | ((v as u8) as u64) == v) by (bit_vector);
}

} // verus!
