//! Address encodings for candidate secret keys: Base58Check (P2PKH and
//! WIF) and Bech32/Bech32m segwit addresses.

use vstd::prelude::*;

verus! {

use vstd::slice::slice_subrange;
use vstd::slice::slice_to_vec;
use crate::base58::base58_chars;
use crate::base58::encode_base58;
use crate::config::AddressFormat;
use crate::external::bech32_encode_segwit;
use crate::external::pubkey_of;
use crate::external::ripemd160;
use crate::external::ripemd160_of;
use crate::external::scalar_ok;
use crate::external::secret_to_public_key;
use crate::external::segwit_address_of;
use crate::external::sha256;
use crate::external::sha256_of;

/// Per-attempt encoding errors; both are recovered by skipping the
/// attempt, never by aborting the search.
#[derive(Clone, Copy, Debug, PartialEq, Eq, Structural)]
pub enum EncodingError {
    UnsupportedWitnessVersion,
    InvalidSecretKey,
}

/// Double SHA-256, the checksum digest of Base58Check payloads and of the
/// configuration fingerprint.
pub open spec fn sha256d(data: Seq<u8>) -> Seq<u8> {
    sha256_of(sha256_of(data))
}

/// Compute double SHA-256.
pub fn double_sha256(data: &[u8]) -> (r: Vec<u8>)
    ensures
        r@ == sha256d(data@),
        r@.len() == 32,
{
    let first = sha256(data);
    sha256(first.as_slice())
}

/// The 25-byte versioned P2PKH payload: version byte 0x00, then
/// RIPEMD-160 of SHA-256 of the compressed public key, then the first
/// four bytes of the double-SHA-256 checksum.
pub open spec fn p2pkh_payload(secret: Seq<u8>) -> Seq<u8> {
    let versioned = seq![0u8] + ripemd160_of(sha256_of(pubkey_of(secret)));
    versioned + sha256d(versioned).take(4)
}

/// The P2PKH address text of a valid secret key.
pub open spec fn p2pkh_address_chars(secret: Seq<u8>) -> Seq<char> {
    base58_chars(p2pkh_payload(secret))
}

/// The segwit witness program: hash160 of the compressed public key for
/// witness version 0, the x coordinate (the compressed key without its
/// parity byte) for version 1.
pub open spec fn segwit_program(secret: Seq<u8>, witness_version: u8) -> Seq<u8> {
    if witness_version == 0 {
        ripemd160_of(sha256_of(pubkey_of(secret)))
    } else {
        pubkey_of(secret).skip(1)
    }
}

/// The segwit address text of a valid secret key: Bech32 for witness
/// version 0, Bech32m for version 1, mainnet HRP.
pub open spec fn segwit_address_chars(secret: Seq<u8>, witness_version: u8) -> Seq<char> {
    segwit_address_of(
        "bc"@,
        witness_version,
        segwit_program(secret, witness_version),
        witness_version != 0,
    )
}

/// The address text of a valid secret key under the given format and
/// witness version.
pub open spec fn address_chars(secret: Seq<u8>, format: AddressFormat, witness_version: u8) -> Seq<
    char,
> {
    match format {
        AddressFormat::P2pkh => p2pkh_address_chars(secret),
        AddressFormat::Bech32 => segwit_address_chars(secret, witness_version),
    }
}

/// Encode the address of `secret` into `out`, replacing its contents.
/// Succeeds exactly when the secret is a valid scalar and, for segwit,
/// the witness version is 0 or 1; on failure `out` is left unchanged.
pub fn encode_address(
    secret: &[u8],
    format: AddressFormat,
    witness_version: u8,
    out: &mut String,
) -> (r: Result<(), EncodingError>)
    ensures
        r is Ok <==> scalar_ok(secret@) && (format == AddressFormat::Bech32 ==> witness_version
            <= 1),
        r is Ok ==> final(out)@ == address_chars(secret@, format, witness_version),
        r is Err ==> *final(out) == *old(out),
        !scalar_ok(secret@) ==> r == Err::<(), EncodingError>(EncodingError::InvalidSecretKey),
        scalar_ok(secret@) && r is Err ==> r == Err::<(), EncodingError>(
            EncodingError::UnsupportedWitnessVersion,
        ),
{
    let pubkey: Vec<u8> = match secret_to_public_key(secret) {
        Some(v) => v,
        None => {
            return Err(EncodingError::InvalidSecretKey);
        },
    };
    match format {
        AddressFormat::P2pkh => {
            let sha = sha256(pubkey.as_slice());
            let mut rip = ripemd160(sha.as_slice());
            let mut payload: Vec<u8> = Vec::new();
            payload.push(0x00);
            payload.append(&mut rip);
            proof {
                assert(payload@ =~= seq![0u8] + ripemd160_of(sha256_of(pubkey_of(secret@))));
            }
            let checksum = double_sha256(payload.as_slice());
            payload.push(checksum[0]);
            payload.push(checksum[1]);
            payload.push(checksum[2]);
            payload.push(checksum[3]);
            proof {
                assert(payload@ =~= p2pkh_payload(secret@));
            }
            encode_base58(payload.as_slice(), out);
            Ok(())
        },
        AddressFormat::Bech32 => {
            if witness_version > 1 {
                return Err(EncodingError::UnsupportedWitnessVersion);
            }
            let program: Vec<u8> = if witness_version == 0 {
                let sha = sha256(pubkey.as_slice());
                ripemd160(sha.as_slice())
            } else {
                let tail = slice_subrange(pubkey.as_slice(), 1, 33);
                slice_to_vec(tail)
            };
            proof {
                assert(program@ =~= segwit_program(secret@, witness_version));
            }
            let addr = bech32_encode_segwit(
                "bc",
                witness_version,
                program.as_slice(),
                witness_version != 0,
            );
            *out = addr;
            Ok(())
        },
    }
}

/// The WIF payload of a secret key: version byte 0x80, the 32 secret
/// bytes, the compressed-key flag 0x01, and the 4-byte checksum.
pub open spec fn wif_payload(secret: Seq<u8>) -> Seq<u8> {
    let body = seq![0x80u8] + secret + seq![0x01u8];
    body + sha256d(body).take(4)
}

/// The WIF text of a secret key.
pub open spec fn wif_chars(secret: Seq<u8>) -> Seq<char> {
    base58_chars(wif_payload(secret))
}

/// Render a secret key in wallet import format (compressed), for
/// human-facing reporting only; matching never looks at it.
pub fn wif_from_secret(secret: &[u8]) -> (r: String)
    ensures
        r@ == wif_chars(secret@),
{
    let mut payload: Vec<u8> = Vec::new();
    payload.push(0x80);
    let mut body = slice_to_vec(secret);
    payload.append(&mut body);
    payload.push(0x01);
    proof {
        assert(payload@ =~= seq![0x80u8] + secret@ + seq![0x01u8]);
    }
    let checksum = double_sha256(payload.as_slice());
    payload.push(checksum[0]);
    payload.push(checksum[1]);
    payload.push(checksum[2]);
    payload.push(checksum[3]);
    proof {
        assert(payload@ =~= wif_payload(secret@));
    }
    let mut out = String::new();
    encode_base58(payload.as_slice(), &mut out);
    out
}

} // verus!
