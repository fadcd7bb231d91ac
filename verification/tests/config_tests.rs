use sha2::Digest;
use vanity_bitcoin::config::config_fingerprint;
use vanity_bitcoin::config::config_hash_hex;
use vanity_bitcoin::config::AddressFormat;
use vanity_bitcoin::config::ConfigError;
use vanity_bitcoin::config::KeyMode;
use vanity_bitcoin::config::SearchConfig;

fn base_config() -> SearchConfig {
    SearchConfig::new(
        AddressFormat::P2pkh,
        0,
        Some("1A".to_string()),
        Some("Q".to_string()),
        None,
        42,
    )
    .unwrap()
}

#[test]
fn config_new_valid() {
    let c = base_config();
    assert_eq!(c.format, AddressFormat::P2pkh);
    assert_eq!(c.witness_version, 0);
    assert_eq!(c.prefix, Some("1A".to_string()));
    assert_eq!(c.suffix, Some("Q".to_string()));
    assert_eq!(c.base_seed, 42);
    assert!(matches!(c.mode, KeyMode::Raw));
}

#[test]
fn config_new_errors() {
    let e = SearchConfig::new(AddressFormat::Bech32, 17, Some("q".into()), None, None, 1);
    assert_eq!(e.unwrap_err(), ConfigError::WitnessVersionOutOfRange);

    let e = SearchConfig::new(AddressFormat::P2pkh, 1, Some("1A".into()), None, None, 1);
    assert_eq!(e.unwrap_err(), ConfigError::WitnessVersionWithoutSegwit);

    let e = SearchConfig::new(
        AddressFormat::P2pkh,
        0,
        Some("1A".into()),
        None,
        Some("not a path".to_string()),
        1,
    );
    assert_eq!(e.unwrap_err(), ConfigError::InvalidHdPath);

    let e = SearchConfig::new(AddressFormat::P2pkh, 0, Some("0".into()), None, None, 1);
    assert_eq!(e.unwrap_err(), ConfigError::InvalidPatternChar);

    let e = SearchConfig::new(AddressFormat::P2pkh, 0, None, None, None, 1);
    assert_eq!(e.unwrap_err(), ConfigError::MissingPattern);
}

#[test]
fn config_new_accepts_hd_path() {
    let c = SearchConfig::new(
        AddressFormat::P2pkh,
        0,
        Some("1A".into()),
        None,
        Some("m/44'/0'/0'/0/0".to_string()),
        9,
    )
    .unwrap();
    match c.mode {
        KeyMode::Mnemonic { path } => assert_eq!(path, "m/44'/0'/0'/0/0"),
        KeyMode::Raw => panic!("expected mnemonic mode"),
    }
}

#[test]
fn fingerprint_stable() {
    let c = base_config();
    let a = config_fingerprint(&c);
    let b = config_fingerprint(&c);
    assert_eq!(a, b);
    assert_eq!(a.len(), 32);
    assert_eq!(config_hash_hex(&c), hex::encode(&a));
}

#[test]
fn fingerprint_exact_value() {
    // The fingerprint is double SHA-256 over the fixed serialization:
    // seed (little endian), prefix bytes + 0xff, suffix bytes + 0x01,
    // mode tag (0x10 raw / 0x22 + path), format tag (0x01 / 0x02 + wv).
    let c = base_config();
    let mut preimage: Vec<u8> = Vec::new();
    preimage.extend_from_slice(&42u64.to_le_bytes());
    preimage.extend_from_slice(b"1A");
    preimage.push(0xff);
    preimage.extend_from_slice(b"Q");
    preimage.push(0x01);
    preimage.push(0x10);
    preimage.push(0x01);
    let expected = sha2::Sha256::digest(sha2::Sha256::digest(&preimage));
    assert_eq!(config_fingerprint(&c), expected.to_vec());
}

#[test]
fn fingerprint_field_sensitivity() {
    // Changing any single field changes the fingerprint.
    let base = base_config();
    let base_hash = config_hash_hex(&base);

    let mut seed_changed = base.clone();
    seed_changed.base_seed = 43;
    assert_ne!(config_hash_hex(&seed_changed), base_hash);

    let mut prefix_changed = base.clone();
    prefix_changed.prefix = Some("1B".to_string());
    assert_ne!(config_hash_hex(&prefix_changed), base_hash);

    let mut prefix_dropped = base.clone();
    prefix_dropped.prefix = None;
    assert_ne!(config_hash_hex(&prefix_dropped), base_hash);

    let mut suffix_changed = base.clone();
    suffix_changed.suffix = Some("R".to_string());
    assert_ne!(config_hash_hex(&suffix_changed), base_hash);

    let mut mode_changed = base.clone();
    mode_changed.mode = KeyMode::Mnemonic {
        path: "m/44'/0'/0'/0/0".to_string(),
    };
    assert_ne!(config_hash_hex(&mode_changed), base_hash);

    let bech = SearchConfig::new(
        AddressFormat::Bech32,
        0,
        Some("q".to_string()),
        None,
        None,
        42,
    )
    .unwrap();
    let bech_hash = config_hash_hex(&bech);
    let mut witness_changed = bech.clone();
    witness_changed.witness_version = 1;
    assert_ne!(config_hash_hex(&witness_changed), bech_hash);

    let mut format_changed = bech.clone();
    format_changed.format = AddressFormat::P2pkh;
    assert_ne!(config_hash_hex(&format_changed), bech_hash);
}
