//! Identity generation: a candidate identity is the canonical serialization
//! of the drawn randomness, the extrinsic index and the block number, and
//! the attribute is the parity of the payload's first byte.

use vstd::prelude::*;

use crate::types::Gender;

verus! {

/// Little-endian bytes of a `u32`.
pub open spec fn u32_le_bytes(x: u32) -> Seq<u8> {
    seq![
        (x & 0xff) as u8,
        ((x >> 8) & 0xff) as u8,
        ((x >> 16) & 0xff) as u8,
        ((x >> 24) & 0xff) as u8,
    ]
}

/// Little-endian bytes of a `u64`.
pub open spec fn u64_le_bytes(x: u64) -> Seq<u8> {
    seq![
        (x & 0xff) as u8,
        ((x >> 8) & 0xff) as u8,
        ((x >> 16) & 0xff) as u8,
        ((x >> 24) & 0xff) as u8,
        ((x >> 32) & 0xff) as u8,
        ((x >> 40) & 0xff) as u8,
        ((x >> 48) & 0xff) as u8,
        ((x >> 56) & 0xff) as u8,
    ]
}

/// Canonical serialization of the three identity ingredients: the randomness
/// bytes, then the extrinsic index, then the block number, both little-endian.
pub open spec fn payload_of(random: Seq<u8>, extrinsic_index: u32, block_number: u64) -> Seq<u8> {
    random + u32_le_bytes(extrinsic_index) + u64_le_bytes(block_number)
}

/// An even leading byte classifies as `Male`, an odd one as `Female`.
pub open spec fn gender_of(payload: Seq<u8>) -> Gender {
    if payload[0] % 2 == 0 {
        Gender::Male
    } else {
        Gender::Female
    }
}

/// Byte-for-byte copy of an identity.
pub fn clone_bytes(v: &Vec<u8>) -> (r: Vec<u8>)
    ensures
        r@ == v@,
{
    let mut r: Vec<u8> = Vec::new();
    let mut i: usize = 0;
    while i < v.len()
        invariant
            i <= v@.len(),
            r@.len() == i,
            forall|j: int| 0 <= j < i ==> r@[j] == v@[j],
        decreases v@.len() - i,
    {
        r.push(v[i]);
        i = i + 1;
    }
    proof {
        assert(r@ =~= v@);
    }
    r
}

/// Derive a candidate identity and its attribute from the drawn randomness,
/// the sequence number of the call within the block, and the block number.
///
/// The result is a pure function of the three inputs, as deterministic
/// replay demands; uniqueness of the candidate is the caller's to check.
pub fn gen_dna_gender(random: &Vec<u8>, extrinsic_index: u32, block_number: u64) -> (r: (
    Vec<u8>,
    Gender,
))
    ensures
        r.0@ == payload_of(random@, extrinsic_index, block_number),
        r.1 == gender_of(r.0@),
{
    let mut payload = clone_bytes(random);
    payload.push((extrinsic_index & 0xff) as u8);
    payload.push(((extrinsic_index >> 8) & 0xff) as u8);
    payload.push(((extrinsic_index >> 16) & 0xff) as u8);
    payload.push(((extrinsic_index >> 24) & 0xff) as u8);
    payload.push((block_number & 0xff) as u8);
    payload.push(((block_number >> 8) & 0xff) as u8);
    payload.push(((block_number >> 16) & 0xff) as u8);
    payload.push(((block_number >> 24) & 0xff) as u8);
    payload.push(((block_number >> 32) & 0xff) as u8);
    payload.push(((block_number >> 40) & 0xff) as u8);
    payload.push(((block_number >> 48) & 0xff) as u8);
    payload.push(((block_number >> 56) & 0xff) as u8);
    proof {
        assert(payload@ =~= payload_of(random@, extrinsic_index, block_number));
    }
    let gender = if payload[0] % 2 == 0 {
        Gender::Male
    } else {
        Gender::Female
    };
    (payload, gender)
}

} // verus!
