//! The mandated digest: a fixed 32-byte Keccak-256 hash, and the seed a
//! request payload deterministically derives from it.

use vstd::prelude::*;
use tiny_keccak::Hasher;
use crate::encoding::be_val;

verus! {

/// The 32-byte Keccak-256 digest of a byte string. The digest is a function
/// of the bytes alone; its value is not spelled out here.
pub uninterp spec fn keccak256_of(data: Seq<u8>) -> Seq<u8>;

/// Relies on tiny_keccak's Keccak-256 (`Keccak::v256`, `update`,
/// `finalize`): a deterministic function of the input bytes that always
/// fills exactly 32 output bytes.
#[verifier::external_body]
pub(crate) fn keccak256(data: &Vec<u8>) -> (r: Vec<u8>)
    ensures
        r@ == keccak256_of(data@),
        r@.len() == 32,
{
    let mut keccak = tiny_keccak::Keccak::v256();
    let mut hash = [0u8; 32];
    keccak.update(data.as_slice());
    keccak.finalize(&mut hash);
    hash.to_vec()
}

/// The seed a payload derives: the first eight bytes of its mandated-hash
/// digest, read big-endian.
pub open spec fn seed_of(payload: Seq<u8>) -> nat {
    be_val(keccak256_of(payload).take(8))
}

/// Derives the synthesizer seed from a request payload.
pub fn seed_from_payload(payload: &Vec<u8>) -> (seed: u64)
    ensures
        seed == seed_of(payload@),
{
    let h = keccak256(payload);
    let seed = crate::encoding::read_be_u64(&h, 0);
    proof {
        assert(h@.subrange(0, 8) =~= keccak256_of(payload@).take(8));
    }
    seed
}

/// The seed is a pure function of the payload: any two values admitted by
/// `seed_from_payload`'s contract for the same payload are equal.
pub proof fn lemma_seed_deterministic(payload: Seq<u8>, s1: u64, s2: u64)
    requires
        s1 == seed_of(payload),
        s2 == seed_of(payload),
    ensures
        s1 == s2,
{
}

} // verus!
