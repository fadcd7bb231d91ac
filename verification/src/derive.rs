//! Deterministic candidate key derivation: raw key material, or a
//! mnemonic-derived child key, for one attempt index.

use vstd::prelude::*;

verus! {

use crate::config::KeyMode;
use crate::external::bip39_of;
use crate::external::bip39_phrase_and_seed;
use crate::external::hd_child_of;
use crate::external::hd_child_secret;
use crate::external::scalar_ok;
use crate::external::secret_key_in_range;
use crate::rng::key_material;
use crate::rng::key_material_from_attempt;

/// A candidate produced for one attempt: the 32 secret key bytes, plus
/// the mnemonic phrase in mnemonic mode.  Produced fresh per attempt and
/// short-lived; never cached.
pub struct CandidateKey {
    pub secret: Vec<u8>,
    pub mnemonic: Option<String>,
}

/// The mnemonic-mode outcome for one attempt: the key material seeds a
/// BIP-39 mnemonic, whose seed derives a child key at the path; any
/// failure, or an out-of-range child scalar, yields no candidate.
pub open spec fn mnemonic_candidate_of(seed: u64, attempt: u64, path: Seq<char>) -> Option<
    (Seq<char>, Seq<u8>),
> {
    match bip39_of(key_material(seed, attempt)) {
        Some(v) => match hd_child_of(v.1, path) {
            Some(sk) => if scalar_ok(sk) {
                Some((v.0, sk))
            } else {
                None
            },
            None => None,
        },
        None => None,
    }
}

/// The candidate for one attempt under a derivation mode: the optional
/// mnemonic phrase and the secret key bytes, or nothing when the attempt
/// is skipped.  A pure function of seed, attempt and mode.
pub open spec fn candidate_of(seed: u64, attempt: u64, mode: KeyMode) -> Option<
    (Option<Seq<char>>, Seq<u8>),
> {
    match mode {
        KeyMode::Raw => if scalar_ok(key_material(seed, attempt)) {
            Some((None, key_material(seed, attempt)))
        } else {
            None
        },
        KeyMode::Mnemonic { path } => match mnemonic_candidate_of(seed, attempt, path@) {
            Some(v) => Some((Some(v.0), v.1)),
            None => None,
        },
    }
}

/// Derive the candidate key for one attempt, or nothing when the attempt
/// is skipped (an out-of-range scalar, or a mnemonic or path derivation
/// failure).  Skips are silent: the caller simply moves to the next
/// attempt index.
pub fn derive_candidate(base_seed: u64, attempt: u64, mode: &KeyMode) -> (r: Option<CandidateKey>)
    ensures
        (match (r, candidate_of(base_seed, attempt, *mode)) {
            (Some(c), Some(v)) => {
                &&& c.secret@ == v.1
                &&& c.secret@.len() == 32
                &&& scalar_ok(c.secret@)
                &&& (match (c.mnemonic, v.0) {
                    (Some(m), Some(ph)) => m@ == ph,
                    (None, None) => true,
                    _ => false,
                })
            },
            (None, None) => true,
            _ => false,
        }),
{
    match mode {
        KeyMode::Raw => {
            let material = key_material_from_attempt(base_seed, attempt);
            if !secret_key_in_range(material.as_slice()) {
                return None;
            }
            Some(CandidateKey { secret: material, mnemonic: None })
        },
        KeyMode::Mnemonic { path } => {
            let entropy = key_material_from_attempt(base_seed, attempt);
            let pair: (String, Vec<u8>) = match bip39_phrase_and_seed(entropy.as_slice()) {
                Some(p) => p,
                None => {
                    return None;
                },
            };
            let child: Vec<u8> = match hd_child_secret(pair.1.as_slice(), path.as_str()) {
                Some(c) => c,
                None => {
                    return None;
                },
            };
            if !secret_key_in_range(child.as_slice()) {
                return None;
            }
            Some(CandidateKey { secret: child, mnemonic: Some(pair.0) })
        },
    }
}

} // verus!
