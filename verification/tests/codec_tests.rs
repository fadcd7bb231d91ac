use bech32::FromBase32;
use sha2::Digest;
use vanity_bitcoin::address::encode_address;
use vanity_bitcoin::address::wif_from_secret;
use vanity_bitcoin::address::EncodingError;
use vanity_bitcoin::base58::encode_base58;
use vanity_bitcoin::config::AddressFormat;
use vanity_bitcoin::hexstr::to_hex;

fn secret_one() -> Vec<u8> {
    let mut s = vec![0u8; 32];
    s[31] = 1;
    s
}

#[test]
fn base58_known_vector() {
    // Classic hash160 payload with version byte and checksum.
    let payload = hex::decode("00010966776006953D5567439E5E39F86A0D273BEE").unwrap();
    let checksum_src = sha2::Sha256::digest(sha2::Sha256::digest(&payload));
    let mut full = payload.clone();
    full.extend_from_slice(&checksum_src[..4]);
    let mut out = String::new();
    encode_base58(&full, &mut out);
    assert_eq!(out, "16UwLL9Risc3QfPqBUvKofHmBQ7wMtjvM");
}

#[test]
fn base58_leading_zero_law() {
    let mut out = String::new();
    encode_base58(&[], &mut out);
    assert_eq!(out, "1");
    encode_base58(&[0], &mut out);
    assert_eq!(out, "1");
    encode_base58(&[0, 0, 0], &mut out);
    assert_eq!(out, "111");
    encode_base58(&[1], &mut out);
    assert_eq!(out, "2");
    encode_base58(&[0xde, 0xad, 0xbe, 0xef], &mut out);
    assert_eq!(out, "6h8cQN");
    assert!(!out.starts_with('1'));
    encode_base58(&[0, 0, 0xde, 0xad, 0xbe, 0xef], &mut out);
    assert_eq!(out, "116h8cQN");
}

#[test]
fn base58_roundtrip_external_decode() {
    // Decoding the encoder's output with an outside decoder reproduces the
    // 25-byte payload, and its checksum still validates.
    let payload = hex::decode("00010966776006953D5567439E5E39F86A0D273BEE").unwrap();
    let checksum_src = sha2::Sha256::digest(sha2::Sha256::digest(&payload));
    let mut full = payload.clone();
    full.extend_from_slice(&checksum_src[..4]);
    assert_eq!(full.len(), 25);
    let mut out = String::new();
    encode_base58(&full, &mut out);
    let decoded = bs58::decode(&out).into_vec().unwrap();
    assert_eq!(decoded, full);
    let body = &decoded[..21];
    let check = sha2::Sha256::digest(sha2::Sha256::digest(body));
    assert_eq!(&decoded[21..], &check[..4]);
}

#[test]
fn hex_vector() {
    assert_eq!(to_hex(&[0xde, 0xad, 0xbe, 0xef]), "deadbeef");
    assert_eq!(to_hex(&[]), "");
    assert_eq!(to_hex(&[0x00, 0x0f]), "000f");
}

#[test]
fn p2pkh_address_of_secret_one() {
    let secret = secret_one();
    let mut addr = String::new();
    let r = encode_address(&secret, AddressFormat::P2pkh, 0, &mut addr);
    assert!(r.is_ok());
    assert_eq!(addr, "1BgGZ9tcN4rm9KBzDn7KprQz87SZ26SAMH");
}

#[test]
fn wif_of_secret_one() {
    let secret = secret_one();
    let wif = wif_from_secret(&secret);
    assert_eq!(wif, "KwDiBf89QgGbjEhKnhXJuH7LrciVrZi3qYjgd9M7rFU73sVHnoWn");
}

#[test]
fn segwit_v0_address_of_secret_one() {
    let secret = secret_one();
    let mut addr = String::new();
    let r = encode_address(&secret, AddressFormat::Bech32, 0, &mut addr);
    assert!(r.is_ok());
    assert_eq!(addr, "bc1qw508d6qejxtdg4y5r3zarvary0c5xw7kv8f3t4");
}

#[test]
fn segwit_checksum_variants() {
    // Witness version 0 validates under Bech32, version 1 under Bech32m.
    let secret = secret_one();

    let mut addr0 = String::new();
    encode_address(&secret, AddressFormat::Bech32, 0, &mut addr0).unwrap();
    let (hrp0, data0, variant0) = bech32::decode(&addr0).unwrap();
    assert_eq!(hrp0, "bc");
    assert_eq!(variant0, bech32::Variant::Bech32);
    assert_eq!(data0[0].to_u8(), 0);
    let program0 = Vec::<u8>::from_base32(&data0[1..]).unwrap();
    let pubkey = hex::decode("0279BE667EF9DCBBAC55A06295CE870B07029BFCDB2DCE28D959F2815B16F81798")
        .unwrap();
    let expected0 = ripemd::Ripemd160::digest(sha2::Sha256::digest(&pubkey));
    assert_eq!(program0, expected0.to_vec());

    let mut addr1 = String::new();
    encode_address(&secret, AddressFormat::Bech32, 1, &mut addr1).unwrap();
    let (hrp1, data1, variant1) = bech32::decode(&addr1).unwrap();
    assert_eq!(hrp1, "bc");
    assert_eq!(variant1, bech32::Variant::Bech32m);
    assert_eq!(data1[0].to_u8(), 1);
    let program1 = Vec::<u8>::from_base32(&data1[1..]).unwrap();
    assert_eq!(program1, pubkey[1..].to_vec());
}

#[test]
fn encode_address_error_cases() {
    let secret = secret_one();
    let mut addr = String::new();
    assert_eq!(
        encode_address(&secret, AddressFormat::Bech32, 2, &mut addr),
        Err(EncodingError::UnsupportedWitnessVersion)
    );
    let zero = vec![0u8; 32];
    assert_eq!(
        encode_address(&zero, AddressFormat::P2pkh, 0, &mut addr),
        Err(EncodingError::InvalidSecretKey)
    );
    let short = vec![1u8; 5];
    assert_eq!(
        encode_address(&short, AddressFormat::P2pkh, 0, &mut addr),
        Err(EncodingError::InvalidSecretKey)
    );
}
