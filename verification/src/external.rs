//! Trusted boundary of the library: declarations for the outside crates the
//! search relies on (digests, elliptic-curve keys, mnemonic and hierarchical
//! key derivation, Bech32 encoding) and for the few std functions that have
//! no specification in vstd.  Every contract in this module is believed, not
//! verified; each doc comment names the outside functions relied on.

use vstd::prelude::*;

verus! {

/// Relies on `String::from_utf8`: bytes below 0x80 are single-byte UTF-8
/// code points, so an all-ASCII byte vector converts to the string whose
/// characters are exactly those bytes.
#[verifier::external_body]
pub(crate) fn ascii_to_string(bytes: Vec<u8>) -> (r: String)
    requires
        forall|i: int| 0 <= i < bytes@.len() ==> bytes@[i] < 128,
    ensures
        r@.len() == bytes@.len(),
        forall|i: int| 0 <= i < bytes@.len() ==> r@[i] == bytes@[i] as char,
{
    String::from_utf8(bytes).expect("ASCII bytes are valid UTF-8")
}

/// The lowercase form of a character sequence, as `str::to_lowercase`
/// computes it.
pub uninterp spec fn lower_of(s: Seq<char>) -> Seq<char>;

/// Relies on `str::to_lowercase`: the lowercase form depends on the
/// characters of the input alone; an empty string stays empty.
#[verifier::external_body]
pub(crate) fn lowercase(s: &str) -> (r: String)
    ensures
        r@ == lower_of(s@),
        s@.len() == 0 ==> r@.len() == 0,
{
    s.to_lowercase()
}

/// The SHA-256 digest of a byte string.
pub uninterp spec fn sha256_of(data: Seq<u8>) -> Seq<u8>;

/// Relies on `sha2::Sha256` through the one-shot `Digest::digest`: the
/// 32-byte SHA-256 digest is a function of the input bytes alone.
#[verifier::external_body]
pub(crate) fn sha256(data: &[u8]) -> (r: Vec<u8>)
    ensures
        r@ == sha256_of(data@),
        r@.len() == 32,
{
    <sha2::Sha256 as sha2::Digest>::digest(data).to_vec()
}

/// The RIPEMD-160 digest of a byte string.
pub uninterp spec fn ripemd160_of(data: Seq<u8>) -> Seq<u8>;

/// Relies on `ripemd::Ripemd160` through the one-shot `Digest::digest`: the
/// 20-byte RIPEMD-160 digest is a function of the input bytes alone.
#[verifier::external_body]
pub(crate) fn ripemd160(data: &[u8]) -> (r: Vec<u8>)
    ensures
        r@ == ripemd160_of(data@),
        r@.len() == 20,
{
    <ripemd::Ripemd160 as ripemd::Digest>::digest(data).to_vec()
}

/// Whether a byte string is a valid secp256k1 secret scalar (32 bytes,
/// nonzero, below the curve order).
pub uninterp spec fn scalar_ok(secret: Seq<u8>) -> bool;

/// Relies on `secp256k1::SecretKey::from_slice`: it accepts exactly the
/// 32-byte strings that are valid secret scalars, a property of the bytes
/// alone.
#[verifier::external_body]
pub(crate) fn secret_key_in_range(secret: &[u8]) -> (r: bool)
    ensures
        r == scalar_ok(secret@),
{
    secp256k1::SecretKey::from_slice(secret).is_ok()
}

/// The 33-byte compressed public key of a valid secret scalar.
pub uninterp spec fn pubkey_of(secret: Seq<u8>) -> Seq<u8>;

/// Relies on `secp256k1::SecretKey::from_slice`,
/// `secp256k1::PublicKey::from_secret_key` and `PublicKey::serialize`: a
/// valid secret scalar determines its compressed 33-byte public key, a
/// function of the secret bytes alone; invalid bytes have none.
#[verifier::external_body]
pub(crate) fn secret_to_public_key(secret: &[u8]) -> (r: Option<Vec<u8>>)
    ensures
        r is Some <==> scalar_ok(secret@),
        r matches Some(v) ==> v@ == pubkey_of(secret@) && v@.len() == 33,
{
    match secp256k1::SecretKey::from_slice(secret) {
        Ok(sk) => {
            let secp = secp256k1::Secp256k1::new();
            let pk = secp256k1::PublicKey::from_secret_key(&secp, &sk);
            Some(pk.serialize().to_vec())
        },
        Err(_) => None,
    }
}

/// The Bech32/Bech32m segwit address for the given HRP, witness version and
/// witness program.
pub uninterp spec fn segwit_address_of(
    hrp: Seq<char>,
    witness_version: u8,
    program: Seq<u8>,
    bech32m: bool,
) -> Seq<char>;

/// Relies on `bech32::encode`, `bech32::u5::try_from_u8` and the
/// `bech32::ToBase32` impl for byte slices: the output (HRP, separator,
/// witness version, 5-bit-regrouped program, checksum in the requested
/// variant) is a function of the arguments alone; for the fixed lowercase
/// HRP "bc" and a witness version of at most 16 the encoder cannot fail.
#[verifier::external_body]
pub(crate) fn bech32_encode_segwit(
    hrp: &str,
    witness_version: u8,
    program: &[u8],
    bech32m: bool,
) -> (r: String)
    requires
        hrp@ == "bc"@,
        witness_version <= 16,
    ensures
        r@ == segwit_address_of(hrp@, witness_version, program@, bech32m),
{
    let variant = if bech32m { bech32::Variant::Bech32m } else { bech32::Variant::Bech32 };
    let version = bech32::u5::try_from_u8(witness_version).expect("witness version is small");
    let mut data = vec![version];
    data.extend(bech32::ToBase32::to_base32(&program));
    bech32::encode(hrp, data, variant).expect("the lowercase HRP bc is valid")
}

/// The BIP-39 outcome for an entropy string: the English mnemonic phrase
/// and the 64-byte seed for the empty passphrase, if the entropy length is
/// accepted.
pub uninterp spec fn bip39_of(entropy: Seq<u8>) -> Option<(Seq<char>, Seq<u8>)>;

/// Relies on `bip39::Mnemonic::from_entropy_in` (English),
/// `Mnemonic::to_string` and `Mnemonic::to_seed` with the empty passphrase:
/// phrase and seed are functions of the entropy alone, and 32 bytes of
/// entropy (256 bits, a 24-word phrase) are always accepted.
#[verifier::external_body]
pub(crate) fn bip39_phrase_and_seed(entropy: &[u8]) -> (r: Option<(String, Vec<u8>)>)
    ensures
        (match r {
            Some(p) => bip39_of(entropy@) matches Some(v) && v.0 == p.0@ && v.1 == p.1@
                && p.1@.len() == 64,
            None => bip39_of(entropy@) is None,
        }),
        entropy@.len() == 32 ==> r is Some,
{
    match bip39::Mnemonic::from_entropy_in(bip39::Language::English, entropy) {
        Ok(m) => {
            let seed = m.to_seed("");
            Some((m.to_string(), seed.to_vec()))
        },
        Err(_) => None,
    }
}

/// Whether a string parses as a BIP-32 derivation path.
pub uninterp spec fn hd_path_valid(path: Seq<char>) -> bool;

/// Relies on `bip32::DerivationPath::from_str`: whether a string is a
/// well-formed derivation path is a property of the string alone.
#[verifier::external_body]
pub(crate) fn hd_path_ok(path: &str) -> (r: bool)
    ensures
        r == hd_path_valid(path@),
{
    <bip32::DerivationPath as core::str::FromStr>::from_str(path).is_ok()
}

/// The 32-byte child secret key derived from a seed at a derivation path,
/// if the path parses and every derivation step succeeds.
pub uninterp spec fn hd_child_of(seed: Seq<u8>, path: Seq<char>) -> Option<Seq<u8>>;

/// Relies on `bip32::DerivationPath::from_str`,
/// `bip32::XPrv::derive_from_path` and `bip32::PrivateKey::to_bytes`: the
/// child secret key at a path is a 32-byte function of seed and path alone;
/// a parse or derivation failure yields none.
#[verifier::external_body]
pub(crate) fn hd_child_secret(seed: &[u8], path: &str) -> (r: Option<Vec<u8>>)
    ensures
        (match r {
            Some(v) => hd_child_of(seed@, path@) matches Some(h) && h == v@ && v@.len() == 32,
            None => hd_child_of(seed@, path@) is None,
        }),
{
    let parsed = match <bip32::DerivationPath as core::str::FromStr>::from_str(path) {
        Ok(p) => p,
        Err(_) => return None,
    };
    match bip32::XPrv::derive_from_path(seed, &parsed) {
        Ok(x) => Some(bip32::PrivateKey::to_bytes(x.private_key()).to_vec()),
        Err(_) => None,
    }
}

} // verus!
