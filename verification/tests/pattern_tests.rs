use vanity_bitcoin::config::AddressFormat;
use vanity_bitcoin::config::ConfigError;
use vanity_bitcoin::pattern::ensure_charset;
use vanity_bitcoin::pattern::matches_pattern;
use vanity_bitcoin::pattern::prepare_pattern;

#[test]
fn matches_prefix_only() {
    assert!(matches_pattern("1ABCD", Some("1A"), None));
    assert!(matches_pattern("1A", Some("1A"), None));
    assert!(!matches_pattern("1BCD", Some("1A"), None));
    assert!(!matches_pattern("1", Some("1A"), None));
}

#[test]
fn matches_suffix_only() {
    assert!(matches_pattern("xyzQQ", None, Some("QQ")));
    assert!(!matches_pattern("QQxyz", None, Some("QQ")));
    assert!(!matches_pattern("Q", None, Some("QQ")));
}

#[test]
fn matches_combined_requires_both() {
    // Both constraints hold independently; they may overlap in the middle.
    assert!(matches_pattern("1A1", Some("1A"), Some("A1")));
    // An address too short to satisfy both without overlap: the prefix
    // holds but the suffix does not.
    assert!(!matches_pattern("1A", Some("1A"), Some("A1")));
    assert!(!matches_pattern("1AxB1", Some("1A"), Some("A1")));
}

#[test]
fn matches_without_constraints() {
    assert!(matches_pattern("anything", None, None));
}

#[test]
fn ensure_charset_base58() {
    assert!(ensure_charset("1AzK", AddressFormat::P2pkh).is_ok());
    assert_eq!(
        ensure_charset("0", AddressFormat::P2pkh),
        Err(ConfigError::InvalidPatternChar)
    );
    assert!(ensure_charset("O", AddressFormat::P2pkh).is_err());
    assert!(ensure_charset("I", AddressFormat::P2pkh).is_err());
    assert!(ensure_charset("l", AddressFormat::P2pkh).is_err());
    assert!(ensure_charset("", AddressFormat::P2pkh).is_ok());
}

#[test]
fn ensure_charset_bech32() {
    assert!(ensure_charset("qpzry9x8", AddressFormat::Bech32).is_ok());
    assert!(ensure_charset("bc1q0", AddressFormat::Bech32).is_ok());
    assert_eq!(
        ensure_charset("Q", AddressFormat::Bech32),
        Err(ConfigError::InvalidPatternChar)
    );
    assert!(ensure_charset("-", AddressFormat::Bech32).is_err());
}

#[test]
fn prepare_pattern_lowercases_bech32() {
    let r = prepare_pattern(Some("AbC".to_string()), AddressFormat::Bech32);
    assert_eq!(r, Ok(Some("abc".to_string())));
}

#[test]
fn prepare_pattern_keeps_base58_case() {
    let r = prepare_pattern(Some("1Ab".to_string()), AddressFormat::P2pkh);
    assert_eq!(r, Ok(Some("1Ab".to_string())));
}

#[test]
fn prepare_pattern_rejects_bad_chars() {
    assert_eq!(
        prepare_pattern(Some("0x".to_string()), AddressFormat::P2pkh),
        Err(ConfigError::InvalidPatternChar)
    );
    // Lowercasing happens first; 'B' becomes 'b' which is fine, but '-'
    // never is.
    assert_eq!(
        prepare_pattern(Some("B-".to_string()), AddressFormat::Bech32),
        Err(ConfigError::InvalidPatternChar)
    );
    assert_eq!(
        prepare_pattern(None, AddressFormat::P2pkh),
        Ok(None)
    );
}
