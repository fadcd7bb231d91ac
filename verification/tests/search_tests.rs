use core::str::FromStr;
use vanity_bitcoin::config::AddressFormat;
use vanity_bitcoin::config::KeyMode;
use vanity_bitcoin::config::SearchConfig;
use vanity_bitcoin::derive::derive_candidate;
use vanity_bitcoin::rng::key_material_from_attempt;
use vanity_bitcoin::search::search_attempt;
use vanity_bitcoin::search::search_range;
use vanity_bitcoin::search::ResultSlot;
use vanity_bitcoin::search::Scheduler;

#[test]
fn scheduler_claims_are_contiguous() {
    let mut s = Scheduler::new(0, 5000);
    assert_eq!(s.claim_batch(), Some((0, 2048)));
    assert_eq!(s.claim_batch(), Some((2048, 4096)));
    assert_eq!(s.claim_batch(), Some((4096, 5000)));
    assert_eq!(s.claim_batch(), None);
    assert_eq!(s.claim_batch(), None);
}

#[test]
fn scheduler_exhausted_budget() {
    let mut s = Scheduler::new(300, 300);
    assert_eq!(s.claim_batch(), None);
}

#[test]
fn result_slot_first_write_wins() {
    let mut slot = ResultSlot::new();
    let c1 = derive_candidate(1, 0, &KeyMode::Raw).unwrap();
    let c2 = derive_candidate(1, 1, &KeyMode::Raw).unwrap();
    assert!(slot.publish(c1, "addr1".to_string(), 10));
    assert!(!slot.publish(c2, "addr2".to_string(), 4));
    let taken = slot.take_result().unwrap();
    assert_eq!(taken.1, "addr1");
    assert_eq!(taken.2, 10);
    assert!(slot.take_result().is_none());
}

#[test]
fn derive_raw_uses_key_material() {
    let material = key_material_from_attempt(42, 3);
    let candidate = derive_candidate(42, 3, &KeyMode::Raw).unwrap();
    assert_eq!(candidate.secret, material);
    assert!(candidate.mnemonic.is_none());
}

#[test]
fn derive_mnemonic_matches_collaborators() {
    // The mnemonic-mode pipeline agrees with the BIP-39 and BIP-32 crates
    // called directly on the same key material.
    let path = "m/44'/0'/0'/0/0";
    let mode = KeyMode::Mnemonic {
        path: path.to_string(),
    };
    let candidate = derive_candidate(7, 11, &mode).unwrap();

    let entropy = key_material_from_attempt(7, 11);
    let mnemonic = bip39::Mnemonic::from_entropy_in(bip39::Language::English, &entropy).unwrap();
    assert_eq!(candidate.mnemonic.as_deref(), Some(mnemonic.to_string().as_str()));
    assert_eq!(mnemonic.to_string().split(' ').count(), 24);

    let seed = mnemonic.to_seed("");
    let parsed = bip32::DerivationPath::from_str(path).unwrap();
    let xprv = bip32::XPrv::derive_from_path(&seed, &parsed).unwrap();
    let expected = bip32::PrivateKey::to_bytes(xprv.private_key());
    assert_eq!(candidate.secret, expected.to_vec());
}

#[test]
fn scenario_first_match_is_reported_exactly() {
    // seed=42, Raw mode, P2PKH, prefix "1A": the search over a bounded
    // range finds the first attempt whose address starts with "1A" and
    // reports that exact attempt index.
    let config = SearchConfig::new(
        AddressFormat::P2pkh,
        0,
        Some("1A".to_string()),
        None,
        None,
        42,
    )
    .unwrap();
    let found = search_range(&config, 0, 2000).expect("a 1-in-58 prefix appears within 2000 tries");
    let (_candidate, address, index) = found;
    assert!(address.starts_with("1A"));
    // Nothing before it matches: the reported attempt count is exact.
    for attempt in 0..index {
        assert!(search_attempt(&config, attempt).is_none());
    }
    // The attempt count at discovery, as a report would state it.
    let attempts_needed = index + 1;
    assert!(attempts_needed >= 1);
    // And the match is reproducible.
    let again = search_range(&config, 0, 2000).unwrap();
    assert_eq!(again.1, address);
    assert_eq!(again.2, index);
}

#[test]
fn scenario_bech32_prefix_matches_from_start() {
    // Every P2WPKH mainnet address starts with "bc1q", so the very first
    // valid attempt matches.
    let config = SearchConfig::new(
        AddressFormat::Bech32,
        0,
        Some("bc1q".to_string()),
        None,
        None,
        1,
    )
    .unwrap();
    let found = search_range(&config, 0, 16).unwrap();
    assert_eq!(found.2, 0);
    assert!(found.1.starts_with("bc1q"));
}

#[test]
fn search_attempt_respects_suffix() {
    let config = SearchConfig::new(
        AddressFormat::P2pkh,
        0,
        None,
        Some("Z".to_string()),
        None,
        5,
    )
    .unwrap();
    let found = search_range(&config, 0, 3000).expect("a 1-in-58 suffix appears within 3000 tries");
    assert!(found.1.ends_with('Z'));
}
