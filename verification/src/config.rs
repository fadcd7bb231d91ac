//! Search configuration: address format, witness version, patterns, key
//! derivation mode and base seed, with validation and the configuration
//! fingerprint used to guard resumption.

use vstd::prelude::*;

verus! {

use vstd::bytes::spec_u64_to_le_bytes;
use vstd::bytes::u64_to_le_bytes;
use crate::external::hd_path_ok;
use crate::external::hd_path_valid;
use crate::external::sha256;
use crate::external::sha256_of;
use crate::hexstr::hex_chars;
use crate::hexstr::to_hex;
use crate::pattern::normalized_pattern;
use crate::pattern::pattern_ok;
use crate::pattern::prepare_pattern;

/// The two supported address encodings.
#[derive(Clone, Copy, Debug, PartialEq, Eq, Structural)]
pub enum AddressFormat {
    P2pkh,
    Bech32,
}

/// How a candidate secret key is derived from the attempt key material:
/// directly, or through a BIP-39 mnemonic and a BIP-32 derivation path.
#[derive(Clone, Debug)]
pub enum KeyMode {
    Raw,
    Mnemonic { path: String },
}

/// Configuration errors: all fatal, reported before any search work starts.
#[derive(Clone, Copy, Debug, PartialEq, Eq, Structural)]
pub enum ConfigError {
    WitnessVersionOutOfRange,
    WitnessVersionWithoutSegwit,
    InvalidHdPath,
    InvalidPatternChar,
    MissingPattern,
    UnsupportedCheckpointVersion,
    SeedMismatch,
    IncompatibleCheckpoint,
}

impl KeyMode {
    /// The derivation path as a string, in mnemonic mode.
    pub fn path_string(&self) -> (r: Option<&str>)
        ensures
            (match self {
                KeyMode::Raw => r is None,
                KeyMode::Mnemonic { path } => r matches Some(s) && s@ == path@,
            }),
    {
        match self {
            KeyMode::Raw => None,
            KeyMode::Mnemonic { path } => Some(path.as_str()),
        }
    }
}

/// The derivation path of a mode, if any: two modes behave identically
/// exactly when these agree.
pub open spec fn mode_view(m: KeyMode) -> Option<Seq<char>> {
    match m {
        KeyMode::Raw => None,
        KeyMode::Mnemonic { path } => Some(path@),
    }
}

/// Every character is ASCII.
pub open spec fn ascii_chars(s: Seq<char>) -> bool {
    forall|i: int| 0 <= i < s.len() ==> (s[i] as u32) < 128
}

/// The byte of an ASCII character.
pub open spec fn char_byte(c: char) -> u8 {
    (c as u32) as u8
}

/// The bytes of an ASCII character sequence.
pub open spec fn chars_to_bytes(s: Seq<char>) -> Seq<u8> {
    Seq::new(s.len(), |i: int| char_byte(s[i]))
}

/// Immutable per-run search parameters.
#[derive(Clone, Debug)]
pub struct SearchConfig {
    pub format: AddressFormat,
    pub witness_version: u8,
    pub prefix: Option<String>,
    pub suffix: Option<String>,
    pub mode: KeyMode,
    pub base_seed: u64,
}

impl SearchConfig {
    /// Well-formedness: the witness version is in range and only nonzero
    /// for segwit addresses, patterns are normalized to the target
    /// alphabet, the derivation path is ASCII, and at least one pattern is
    /// present.
    pub open spec fn wf(&self) -> bool {
        &&& self.witness_version <= 16
        &&& (self.format == AddressFormat::P2pkh ==> self.witness_version == 0)
        &&& (match self.prefix {
            Some(p) => pattern_ok(p@, self.format),
            None => true,
        })
        &&& (match self.suffix {
            Some(s) => pattern_ok(s@, self.format),
            None => true,
        })
        &&& (match self.mode {
            KeyMode::Raw => true,
            KeyMode::Mnemonic { path } => ascii_chars(path@),
        })
        &&& (self.prefix is Some || self.suffix is Some)
    }
}

/// The first configuration error for the given inputs, in the order the
/// checks run: witness version range, witness version against format,
/// derivation path, prefix alphabet, suffix alphabet, pattern presence.
pub open spec fn config_error_of(
    format: AddressFormat,
    witness_version: u8,
    prefix: Option<Seq<char>>,
    suffix: Option<Seq<char>>,
    mnemonic_path: Option<Seq<char>>,
) -> Option<ConfigError> {
    if witness_version > 16 {
        Some(ConfigError::WitnessVersionOutOfRange)
    } else if format != AddressFormat::Bech32 && witness_version != 0 {
        Some(ConfigError::WitnessVersionWithoutSegwit)
    } else if mnemonic_path matches Some(p) && !(hd_path_valid(p) && ascii_chars(p)) {
        Some(ConfigError::InvalidHdPath)
    } else if prefix matches Some(p) && !pattern_ok(normalized_pattern(p, format), format) {
        Some(ConfigError::InvalidPatternChar)
    } else if suffix matches Some(s) && !pattern_ok(normalized_pattern(s, format), format) {
        Some(ConfigError::InvalidPatternChar)
    } else if prefix is None && suffix is None {
        Some(ConfigError::MissingPattern)
    } else {
        None
    }
}

/// Every character of `s` is ASCII.
fn chars_all_ascii(s: &str) -> (r: bool)
    ensures
        r == ascii_chars(s@),
{
    let n: usize = s.unicode_len();
    let mut i: usize = 0;
    while i < n
        invariant
            i <= n,
            n == s@.len(),
            forall|k: int| 0 <= k < i ==> (s@[k] as u32) < 128,
        decreases n - i,
    {
        let c: char = s.get_char(i);
        if (c as u32) >= 128 {
            return false;
        }
        i += 1;
    }
    true
}

impl SearchConfig {
    /// Validate and normalize the search parameters: rejects out-of-range
    /// or misplaced witness versions, an unparsable or non-ASCII
    /// derivation path, patterns outside the target alphabet (Bech32
    /// patterns are first lowercased), and the absence of both patterns.
    pub fn new(
        format: AddressFormat,
        witness_version: u8,
        prefix: Option<String>,
        suffix: Option<String>,
        mnemonic_path: Option<String>,
        base_seed: u64,
    ) -> (r: Result<SearchConfig, ConfigError>)
        ensures
            ({
                let err = config_error_of(
                    format,
                    witness_version,
                    prefix.deep_view(),
                    suffix.deep_view(),
                    mnemonic_path.deep_view(),
                );
                match r {
                    Ok(c) => {
                        &&& err is None
                        &&& c.wf()
                        &&& c.format == format
                        &&& c.witness_version == witness_version
                        &&& c.base_seed == base_seed
                        &&& (match (prefix, c.prefix) {
                            (Some(p), Some(cp)) => cp@ == normalized_pattern(p@, format),
                            (None, None) => true,
                            _ => false,
                        })
                        &&& (match (suffix, c.suffix) {
                            (Some(s), Some(cs)) => cs@ == normalized_pattern(s@, format),
                            (None, None) => true,
                            _ => false,
                        })
                        &&& (match (mnemonic_path, c.mode) {
                            (Some(p), KeyMode::Mnemonic { path }) => path@ == p@,
                            (None, KeyMode::Raw) => true,
                            _ => false,
                        })
                    },
                    Err(e) => err == Some(e),
                }
            }),
    {
        if witness_version > 16 {
            return Err(ConfigError::WitnessVersionOutOfRange);
        }
        if format != AddressFormat::Bech32 && witness_version != 0 {
            return Err(ConfigError::WitnessVersionWithoutSegwit);
        }
        let mode: KeyMode = match mnemonic_path {
            Some(path) => {
                if !hd_path_ok(path.as_str()) {
                    return Err(ConfigError::InvalidHdPath);
                }
                if !chars_all_ascii(path.as_str()) {
                    return Err(ConfigError::InvalidHdPath);
                }
                KeyMode::Mnemonic { path }
            },
            None => KeyMode::Raw,
        };
        let prefix2: Option<String> = match prepare_pattern(prefix, format) {
            Ok(p) => p,
            Err(e) => {
                return Err(e);
            },
        };
        let suffix2: Option<String> = match prepare_pattern(suffix, format) {
            Ok(s) => s,
            Err(e) => {
                return Err(e);
            },
        };
        if prefix2.is_none() && suffix2.is_none() {
            return Err(ConfigError::MissingPattern);
        }
        Ok(
            SearchConfig {
                format,
                witness_version,
                prefix: prefix2,
                suffix: suffix2,
                mode,
                base_seed,
            },
        )
    }
}

/// The prefix part of the fingerprint preimage: pattern bytes closed by a
/// 0xff tag, or nothing.
pub open spec fn prefix_segment(c: SearchConfig) -> Seq<u8> {
    match c.prefix {
        Some(p) => chars_to_bytes(p@) + seq![0xffu8],
        None => Seq::<u8>::empty(),
    }
}

/// The suffix part of the fingerprint preimage: pattern bytes closed by a
/// 0x01 tag, or nothing.
pub open spec fn suffix_segment(c: SearchConfig) -> Seq<u8> {
    match c.suffix {
        Some(s) => chars_to_bytes(s@) + seq![0x01u8],
        None => Seq::<u8>::empty(),
    }
}

/// The mode part of the fingerprint preimage: a discriminant byte, plus
/// the derivation path bytes in mnemonic mode.
pub open spec fn mode_segment(c: SearchConfig) -> Seq<u8> {
    match c.mode {
        KeyMode::Raw => seq![0x10u8],
        KeyMode::Mnemonic { path } => seq![0x22u8] + chars_to_bytes(path@),
    }
}

/// The format part of the fingerprint preimage: a discriminant byte, plus
/// the witness version for segwit.
pub open spec fn format_segment(c: SearchConfig) -> Seq<u8> {
    match c.format {
        AddressFormat::P2pkh => seq![0x01u8],
        AddressFormat::Bech32 => seq![0x02u8, c.witness_version],
    }
}

/// The fixed serialization of every configuration field that the
/// fingerprint digests: seed, prefix, suffix, mode, format, in that order.
pub open spec fn fingerprint_preimage(c: SearchConfig) -> Seq<u8> {
    spec_u64_to_le_bytes(c.base_seed) + prefix_segment(c) + suffix_segment(c) + mode_segment(c)
        + format_segment(c)
}

/// The 32-byte configuration fingerprint: double SHA-256 of the preimage.
pub open spec fn config_fingerprint_bytes(c: SearchConfig) -> Seq<u8> {
    sha256_of(sha256_of(fingerprint_preimage(c)))
}

/// Append the bytes of an ASCII string.
fn push_ascii_chars(data: &mut Vec<u8>, s: &str)
    requires
        ascii_chars(s@),
    ensures
        final(data)@ == old(data)@ + chars_to_bytes(s@),
{
    let n: usize = s.unicode_len();
    let mut i: usize = 0;
    while i < n
        invariant
            i <= n,
            n == s@.len(),
            ascii_chars(s@),
            data@ == old(data)@ + chars_to_bytes(s@).take(i as int),
        decreases n - i,
    {
        let c: char = s.get_char(i);
        let u: u32 = c as u32;
        data.push(u as u8);
        proof {
            assert(data@ =~= old(data)@ + chars_to_bytes(s@).take(i as int + 1));
        }
        i += 1;
    }
    proof {
        assert(chars_to_bytes(s@).take(s@.len() as int) =~= chars_to_bytes(s@));
    }
}

/// Patterns from the target alphabet are ASCII.
pub proof fn lemma_pattern_ascii(s: Seq<char>, format: AddressFormat)
    requires
        pattern_ok(s, format),
    ensures
        ascii_chars(s),
{
    assert forall|i: int| 0 <= i < s.len() implies (s[i] as u32) < 128 by {
        assert(crate::pattern::pattern_char_ok(s[i], format));
    }
}

/// Compute the configuration fingerprint: double SHA-256 over the fixed
/// serialization of every field.  Deterministic: two computations on equal
/// configurations yield equal bytes.
pub fn config_fingerprint(config: &SearchConfig) -> (r: Vec<u8>)
    requires
        config.wf(),
    ensures
        r@ == config_fingerprint_bytes(*config),
        r@.len() == 32,
{
    let mut data: Vec<u8> = u64_to_le_bytes(config.base_seed);
    let ghost seg0 = spec_u64_to_le_bytes(config.base_seed);
    match &config.prefix {
        Some(p) => {
            proof {
                lemma_pattern_ascii(p@, config.format);
            }
            push_ascii_chars(&mut data, p.as_str());
            data.push(0xff);
        },
        None => {},
    }
    proof {
        assert(data@ =~= seg0 + prefix_segment(*config));
    }
    let ghost seg1 = seg0 + prefix_segment(*config);
    match &config.suffix {
        Some(s) => {
            proof {
                lemma_pattern_ascii(s@, config.format);
            }
            push_ascii_chars(&mut data, s.as_str());
            data.push(0x01);
        },
        None => {},
    }
    proof {
        assert(data@ =~= seg1 + suffix_segment(*config));
    }
    let ghost seg2 = seg1 + suffix_segment(*config);
    match &config.mode {
        KeyMode::Raw => {
            data.push(0x10);
        },
        KeyMode::Mnemonic { path } => {
            data.push(0x22);
            push_ascii_chars(&mut data, path.as_str());
        },
    }
    proof {
        assert(data@ =~= seg2 + mode_segment(*config));
    }
    let ghost seg3 = seg2 + mode_segment(*config);
    match config.format {
        AddressFormat::P2pkh => {
            data.push(0x01);
        },
        AddressFormat::Bech32 => {
            data.push(0x02);
            data.push(config.witness_version);
        },
    }
    proof {
        assert(data@ =~= seg3 + format_segment(*config));
        assert(data@ =~= fingerprint_preimage(*config));
    }
    let first = sha256(data.as_slice());
    let second = sha256(first.as_slice());
    second
}

/// The configuration fingerprint rendered as lowercase hex, as it is
/// stored in checkpoint files.
pub fn config_hash_hex(config: &SearchConfig) -> (r: String)
    requires
        config.wf(),
    ensures
        r@ == hex_chars(config_fingerprint_bytes(*config)),
{
    let fp = config_fingerprint(config);
    to_hex(fp.as_slice())
}

/// Law: the fingerprint is stable.  Recomputing it on an identical
/// configuration yields identical bytes: it is a function of the
/// configuration value alone.
pub proof fn lemma_fingerprint_stable(c1: SearchConfig, c2: SearchConfig)
    requires
        c1 == c2,
    ensures
        config_fingerprint_bytes(c1) == config_fingerprint_bytes(c2),
{
}

/// Two byte strings that differ only in a middle segment differ as wholes.
proof fn lemma_mid_segment_distinct(l: Seq<u8>, x1: Seq<u8>, x2: Seq<u8>, r: Seq<u8>)
    requires
        x1 != x2,
    ensures
        l + x1 + r != l + x2 + r,
{
    if l + x1 + r == l + x2 + r {
        assert((l + x1 + r).len() == (l + x2 + r).len());
        if x1.len() == x2.len() {
            assert forall|i: int| 0 <= i < x1.len() implies x1[i] == x2[i] by {
                assert((l + x1 + r)[l.len() + i] == x1[i]);
                assert((l + x2 + r)[l.len() + i] == x2[i]);
            }
            assert(x1 =~= x2);
        }
        assert(false);
    }
}

/// ASCII characters with equal bytes are equal.
proof fn lemma_char_byte_injective(a: char, b: char)
    requires
        (a as u32) < 128,
        (b as u32) < 128,
        a != b,
    ensures
        char_byte(a) != char_byte(b),
{
    if char_byte(a) == char_byte(b) {
        assert(a as u32 == b as u32);
        vstd::utf8::char_u32_cast(a, a as u32);
        vstd::utf8::char_u32_cast(b, b as u32);
        assert(false);
    }
}

/// Distinct ASCII character sequences have distinct byte sequences.
proof fn lemma_chars_to_bytes_injective(s1: Seq<char>, s2: Seq<char>)
    requires
        ascii_chars(s1),
        ascii_chars(s2),
        s1 != s2,
    ensures
        chars_to_bytes(s1) != chars_to_bytes(s2),
{
    if chars_to_bytes(s1) == chars_to_bytes(s2) {
        assert(chars_to_bytes(s1).len() == s1.len());
        assert(chars_to_bytes(s2).len() == s2.len());
        assert(s1.len() == s2.len());
        assert forall|i: int| 0 <= i < s1.len() implies s1[i] == s2[i] by {
            assert(chars_to_bytes(s1)[i] == chars_to_bytes(s2)[i]);
            if s1[i] != s2[i] {
                lemma_char_byte_injective(s1[i], s2[i]);
            }
        }
        assert(s1 =~= s2);
        assert(false);
    }
}

/// The prefix preimage segment is determined by the prefix's characters.
proof fn lemma_prefix_segment_congruent(c1: SearchConfig, c2: SearchConfig)
    requires
        c1.prefix.deep_view() == c2.prefix.deep_view(),
    ensures
        prefix_segment(c1) == prefix_segment(c2),
{
    match (c1.prefix, c2.prefix) {
        (Some(p1), Some(p2)) => {
            assert(p1@ == p2@);
        },
        (None, None) => {},
        _ => {
            assert(false);
        },
    }
}

/// The suffix preimage segment is determined by the suffix's characters.
proof fn lemma_suffix_segment_congruent(c1: SearchConfig, c2: SearchConfig)
    requires
        c1.suffix.deep_view() == c2.suffix.deep_view(),
    ensures
        suffix_segment(c1) == suffix_segment(c2),
{
    match (c1.suffix, c2.suffix) {
        (Some(s1), Some(s2)) => {
            assert(s1@ == s2@);
        },
        (None, None) => {},
        _ => {
            assert(false);
        },
    }
}

/// Re-associate the preimage around its prefix segment.
proof fn lemma_preimage_shape(c: SearchConfig)
    ensures
        fingerprint_preimage(c) =~= spec_u64_to_le_bytes(c.base_seed) + prefix_segment(c) + (
        suffix_segment(c) + mode_segment(c) + format_segment(c)),
{
}

/// Law: the fingerprint preimage separates seeds.  Two well-formed
/// configurations that agree on everything but the base seed have distinct
/// preimages, so their fingerprints differ unless SHA-256 collides.
pub proof fn lemma_fingerprint_seed_sensitive(c1: SearchConfig, c2: SearchConfig)
    requires
        c1.base_seed != c2.base_seed,
    ensures
        fingerprint_preimage(c1) != fingerprint_preimage(c2),
{
    vstd::bytes::lemma_auto_spec_u64_to_from_le_bytes();
    let b1 = spec_u64_to_le_bytes(c1.base_seed);
    let b2 = spec_u64_to_le_bytes(c2.base_seed);
    if b1 == b2 {
        assert(vstd::bytes::spec_u64_from_le_bytes(b1) == vstd::bytes::spec_u64_from_le_bytes(b2));
        assert(false);
    }
    if fingerprint_preimage(c1) == fingerprint_preimage(c2) {
        assert forall|i: int| 0 <= i < 8 implies b1[i] == b2[i] by {
            assert(fingerprint_preimage(c1)[i] == b1[i]);
            assert(fingerprint_preimage(c2)[i] == b2[i]);
        }
        assert(b1 =~= b2);
        assert(false);
    }
}

/// Law: the fingerprint preimage separates prefixes.  Two well-formed
/// configurations that differ in the prefix alone have distinct preimages.
pub proof fn lemma_fingerprint_prefix_sensitive(c1: SearchConfig, c2: SearchConfig)
    requires
        c1.wf(),
        c2.wf(),
        c1.base_seed == c2.base_seed,
        c1.prefix.deep_view() != c2.prefix.deep_view(),
        c1.suffix.deep_view() == c2.suffix.deep_view(),
        mode_view(c1.mode) == mode_view(c2.mode),
        c1.format == c2.format,
        c1.witness_version == c2.witness_version,
    ensures
        fingerprint_preimage(c1) != fingerprint_preimage(c2),
{
    let l = spec_u64_to_le_bytes(c1.base_seed);
    let r1 = suffix_segment(c1) + mode_segment(c1) + format_segment(c1);
    let r2 = suffix_segment(c2) + mode_segment(c2) + format_segment(c2);
    lemma_suffix_segment_congruent(c1, c2);
    lemma_mode_segment_congruent(c1, c2);
    assert(r1 == r2);
    let x1 = prefix_segment(c1);
    let x2 = prefix_segment(c2);
    match (c1.prefix, c2.prefix) {
        (Some(p1), Some(p2)) => {
            assert(p1@ != p2@);
            lemma_pattern_ascii(p1@, c1.format);
            lemma_pattern_ascii(p2@, c2.format);
            lemma_chars_to_bytes_injective(p1@, p2@);
            if x1 == x2 {
                assert(x1.len() == x2.len());
                assert forall|i: int| 0 <= i < chars_to_bytes(p1@).len() implies chars_to_bytes(
                    p1@,
                )[i] == chars_to_bytes(p2@)[i] by {
                    assert(x1[i] == chars_to_bytes(p1@)[i]);
                    assert(x2[i] == chars_to_bytes(p2@)[i]);
                }
                assert(chars_to_bytes(p1@) =~= chars_to_bytes(p2@));
                assert(false);
            }
        },
        (Some(p1), None) => {
            assert(x1.len() >= 1 && x2.len() == 0);
        },
        (None, Some(p2)) => {
            assert(x1.len() == 0 && x2.len() >= 1);
        },
        (None, None) => {
            assert(false);
        },
    }
    lemma_mid_segment_distinct(l, x1, x2, r1);
    lemma_preimage_shape(c1);
    lemma_preimage_shape(c2);
    assert(fingerprint_preimage(c1) == l + x1 + r1);
    assert(fingerprint_preimage(c2) == l + x2 + r2);
}

/// The mode segment is determined by the mode's derivation path view.
proof fn lemma_mode_segment_congruent(c1: SearchConfig, c2: SearchConfig)
    requires
        mode_view(c1.mode) == mode_view(c2.mode),
    ensures
        mode_segment(c1) == mode_segment(c2),
{
    match (c1.mode, c2.mode) {
        (KeyMode::Mnemonic { path: p1 }, KeyMode::Mnemonic { path: p2 }) => {
            assert(p1@ == p2@);
        },
        (KeyMode::Raw, KeyMode::Raw) => {},
        _ => {
            assert(false);
        },
    }
}

/// Law: the fingerprint preimage separates suffixes.
pub proof fn lemma_fingerprint_suffix_sensitive(c1: SearchConfig, c2: SearchConfig)
    requires
        c1.wf(),
        c2.wf(),
        c1.base_seed == c2.base_seed,
        c1.prefix.deep_view() == c2.prefix.deep_view(),
        c1.suffix.deep_view() != c2.suffix.deep_view(),
        mode_view(c1.mode) == mode_view(c2.mode),
        c1.format == c2.format,
        c1.witness_version == c2.witness_version,
    ensures
        fingerprint_preimage(c1) != fingerprint_preimage(c2),
{
    let l1 = spec_u64_to_le_bytes(c1.base_seed) + prefix_segment(c1);
    let l2 = spec_u64_to_le_bytes(c2.base_seed) + prefix_segment(c2);
    let r1 = mode_segment(c1) + format_segment(c1);
    let r2 = mode_segment(c2) + format_segment(c2);
    match (c1.prefix, c2.prefix) {
        (Some(p1), Some(p2)) => {
            assert(p1@ == p2@);
        },
        (None, None) => {},
        _ => {
            assert(false);
        },
    }
    lemma_mode_segment_congruent(c1, c2);
    assert(l1 == l2);
    assert(r1 == r2);
    let x1 = suffix_segment(c1);
    let x2 = suffix_segment(c2);
    match (c1.suffix, c2.suffix) {
        (Some(s1), Some(s2)) => {
            assert(s1@ != s2@);
            lemma_pattern_ascii(s1@, c1.format);
            lemma_pattern_ascii(s2@, c2.format);
            lemma_chars_to_bytes_injective(s1@, s2@);
            if x1 == x2 {
                assert(x1.len() == x2.len());
                assert forall|i: int| 0 <= i < chars_to_bytes(s1@).len() implies chars_to_bytes(
                    s1@,
                )[i] == chars_to_bytes(s2@)[i] by {
                    assert(x1[i] == chars_to_bytes(s1@)[i]);
                    assert(x2[i] == chars_to_bytes(s2@)[i]);
                }
                assert(chars_to_bytes(s1@) =~= chars_to_bytes(s2@));
                assert(false);
            }
        },
        (Some(s1), None) => {
            assert(x1.len() >= 1 && x2.len() == 0);
        },
        (None, Some(s2)) => {
            assert(x1.len() == 0 && x2.len() >= 1);
        },
        (None, None) => {
            assert(false);
        },
    }
    lemma_mid_segment_distinct(l1, x1, x2, r1);
    assert(fingerprint_preimage(c1) =~= l1 + x1 + r1);
    assert(fingerprint_preimage(c2) =~= l2 + x2 + r2);
}

/// Law: the fingerprint preimage separates derivation modes.
pub proof fn lemma_fingerprint_mode_sensitive(c1: SearchConfig, c2: SearchConfig)
    requires
        c1.wf(),
        c2.wf(),
        c1.base_seed == c2.base_seed,
        c1.prefix.deep_view() == c2.prefix.deep_view(),
        c1.suffix.deep_view() == c2.suffix.deep_view(),
        mode_view(c1.mode) != mode_view(c2.mode),
        c1.format == c2.format,
        c1.witness_version == c2.witness_version,
    ensures
        fingerprint_preimage(c1) != fingerprint_preimage(c2),
{
    let l1 = spec_u64_to_le_bytes(c1.base_seed) + prefix_segment(c1) + suffix_segment(c1);
    let l2 = spec_u64_to_le_bytes(c2.base_seed) + prefix_segment(c2) + suffix_segment(c2);
    let r1 = format_segment(c1);
    let r2 = format_segment(c2);
    lemma_prefix_segment_congruent(c1, c2);
    lemma_suffix_segment_congruent(c1, c2);
    assert(l1 == l2);
    assert(r1 == r2);
    let x1 = mode_segment(c1);
    let x2 = mode_segment(c2);
    match (c1.mode, c2.mode) {
        (KeyMode::Mnemonic { path: p1 }, KeyMode::Mnemonic { path: p2 }) => {
            assert(p1@ != p2@);
            lemma_chars_to_bytes_injective(p1@, p2@);
            if x1 == x2 {
                assert(x1.len() == x2.len());
                assert forall|i: int| 0 <= i < chars_to_bytes(p1@).len() implies chars_to_bytes(
                    p1@,
                )[i] == chars_to_bytes(p2@)[i] by {
                    assert(x1[i + 1] == chars_to_bytes(p1@)[i]);
                    assert(x2[i + 1] == chars_to_bytes(p2@)[i]);
                }
                assert(chars_to_bytes(p1@) =~= chars_to_bytes(p2@));
                assert(false);
            }
        },
        (KeyMode::Raw, KeyMode::Mnemonic { path: p2 }) => {
            if x1 == x2 {
                assert(x1[0] == 0x10u8);
                assert(x2[0] == 0x22u8);
                assert(false);
            }
        },
        (KeyMode::Mnemonic { path: p1 }, KeyMode::Raw) => {
            if x1 == x2 {
                assert(x1[0] == 0x22u8);
                assert(x2[0] == 0x10u8);
                assert(false);
            }
        },
        (KeyMode::Raw, KeyMode::Raw) => {
            assert(false);
        },
    }
    lemma_mid_segment_distinct(l1, x1, x2, r1);
    assert(fingerprint_preimage(c1) =~= l1 + x1 + r1);
    assert(fingerprint_preimage(c2) =~= l2 + x2 + r2);
}

/// Law: the fingerprint preimage separates address formats.
pub proof fn lemma_fingerprint_format_sensitive(c1: SearchConfig, c2: SearchConfig)
    requires
        c1.wf(),
        c2.wf(),
        c1.base_seed == c2.base_seed,
        c1.prefix.deep_view() == c2.prefix.deep_view(),
        c1.suffix.deep_view() == c2.suffix.deep_view(),
        mode_view(c1.mode) == mode_view(c2.mode),
        c1.format != c2.format,
    ensures
        fingerprint_preimage(c1) != fingerprint_preimage(c2),
{
    let l1 = spec_u64_to_le_bytes(c1.base_seed) + prefix_segment(c1) + suffix_segment(c1)
        + mode_segment(c1);
    let l2 = spec_u64_to_le_bytes(c2.base_seed) + prefix_segment(c2) + suffix_segment(c2)
        + mode_segment(c2);
    lemma_prefix_segment_congruent(c1, c2);
    lemma_suffix_segment_congruent(c1, c2);
    lemma_mode_segment_congruent(c1, c2);
    assert(l1 == l2);
    let x1 = format_segment(c1);
    let x2 = format_segment(c2);
    if x1 == x2 {
        assert(x1[0] != x2[0]);
        assert(false);
    }
    lemma_mid_segment_distinct(l1, x1, x2, Seq::<u8>::empty());
    assert(fingerprint_preimage(c1) =~= l1 + x1 + Seq::<u8>::empty());
    assert(fingerprint_preimage(c2) =~= l2 + x2 + Seq::<u8>::empty());
}

/// Law: the fingerprint preimage separates witness versions.
pub proof fn lemma_fingerprint_witness_sensitive(c1: SearchConfig, c2: SearchConfig)
    requires
        c1.wf(),
        c2.wf(),
        c1.base_seed == c2.base_seed,
        c1.prefix.deep_view() == c2.prefix.deep_view(),
        c1.suffix.deep_view() == c2.suffix.deep_view(),
        mode_view(c1.mode) == mode_view(c2.mode),
        c1.format == c2.format,
        c1.witness_version != c2.witness_version,
    ensures
        fingerprint_preimage(c1) != fingerprint_preimage(c2),
{
    let l1 = spec_u64_to_le_bytes(c1.base_seed) + prefix_segment(c1) + suffix_segment(c1)
        + mode_segment(c1);
    let l2 = spec_u64_to_le_bytes(c2.base_seed) + prefix_segment(c2) + suffix_segment(c2)
        + mode_segment(c2);
    lemma_prefix_segment_congruent(c1, c2);
    lemma_suffix_segment_congruent(c1, c2);
    lemma_mode_segment_congruent(c1, c2);
    assert(l1 == l2);
    let x1 = format_segment(c1);
    let x2 = format_segment(c2);
    if c1.format == AddressFormat::P2pkh {
        assert(c1.witness_version == 0 && c2.witness_version == 0);
        assert(false);
    }
    if x1 == x2 {
        assert(x1[1] == c1.witness_version);
        assert(x2[1] == c2.witness_version);
        assert(false);
    }
    lemma_mid_segment_distinct(l1, x1, x2, Seq::<u8>::empty());
    assert(fingerprint_preimage(c1) =~= l1 + x1 + Seq::<u8>::empty());
    assert(fingerprint_preimage(c2) =~= l2 + x2 + Seq::<u8>::empty());
}

} // verus!
