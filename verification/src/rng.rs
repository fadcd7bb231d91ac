//! Deterministic expansion of a `(seed, attempt)` pair into candidate key
//! material, built on the splitmix64 mixing function.

use vstd::prelude::*;

verus! {

use vstd::bytes::spec_u64_to_le_bytes;
use vstd::bytes::u64_to_le_bytes;
use vstd::wrapping::u64_specs;

/// One round of the splitmix64 mixer: an additive constant followed by two
/// xor-shift-multiply steps, all in wrapping 64-bit arithmetic.
pub open spec fn splitmix64_spec(x: u64) -> u64 {
    let a = u64_specs::wrapping_add(x, 0x9E37_79B9_7F4A_7C15);
    let b = u64_specs::wrapping_mul(a ^ (a >> 30), 0xBF58_476D_1CE4_E5B9);
    let c = u64_specs::wrapping_mul(b ^ (b >> 27), 0x94D0_49BB_1331_11EB);
    c ^ (c >> 31)
}

/// Advance the splitmix64 state once.
pub fn splitmix64(x: u64) -> (r: u64)
    ensures
        r == splitmix64_spec(x),
{
    let a = x.wrapping_add(0x9E37_79B9_7F4A_7C15);
    let b = (a ^ (a >> 30)).wrapping_mul(0xBF58_476D_1CE4_E5B9);
    let c = (b ^ (b >> 27)).wrapping_mul(0x94D0_49BB_1331_11EB);
    c ^ (c >> 31)
}

/// The 32 bytes of key material assigned to one attempt index: the mixer is
/// seeded with `base_seed XOR attempt` and advanced four times, each state
/// emitting eight little-endian bytes.  A pure function of its two arguments,
/// which is what makes attempt-indexed resumption valid.
pub open spec fn key_material(base_seed: u64, attempt: u64) -> Seq<u8> {
    let s1 = splitmix64_spec(base_seed ^ attempt);
    let s2 = splitmix64_spec(s1);
    let s3 = splitmix64_spec(s2);
    let s4 = splitmix64_spec(s3);
    spec_u64_to_le_bytes(s1) + spec_u64_to_le_bytes(s2) + spec_u64_to_le_bytes(s3)
        + spec_u64_to_le_bytes(s4)
}

/// Derive the 32 bytes of candidate key material for one attempt.  Total:
/// it never fails, for every seed and every attempt index.
pub fn key_material_from_attempt(base_seed: u64, attempt: u64) -> (out: Vec<u8>)
    ensures
        out@ == key_material(base_seed, attempt),
        out@.len() == 32,
{
    let s1 = splitmix64(base_seed ^ attempt);
    let s2 = splitmix64(s1);
    let s3 = splitmix64(s2);
    let s4 = splitmix64(s3);
    let mut out = u64_to_le_bytes(s1);
    let mut chunk2 = u64_to_le_bytes(s2);
    out.append(&mut chunk2);
    let mut chunk3 = u64_to_le_bytes(s3);
    out.append(&mut chunk3);
    let mut chunk4 = u64_to_le_bytes(s4);
    out.append(&mut chunk4);
    proof {
        assert(out@ =~= key_material(base_seed, attempt));
    }
    out
}

/// Law: key material is deterministic.  Two derivations that agree on the
/// seed and the attempt index produce the same 32 bytes, in any run of any
/// process, so a resumed search re-creates exactly the keys the interrupted
/// search would have produced.
pub proof fn lemma_key_material_deterministic(
    seed1: u64,
    attempt1: u64,
    seed2: u64,
    attempt2: u64,
)
    requires
        seed1 == seed2,
        attempt1 == attempt2,
    ensures
        key_material(seed1, attempt1) == key_material(seed2, attempt2),
{
}

} // verus!
