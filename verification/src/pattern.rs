//! Prefix/suffix pattern preparation and matching against encoded
//! addresses.

use vstd::prelude::*;

verus! {

use crate::config::AddressFormat;
use crate::config::ConfigError;
use crate::external::lower_of;
use crate::external::lowercase;

/// Is `c` a character of the Base58 alphabet (which has no `0`, `O`, `I`
/// or `l`)?
pub open spec fn base58_char_ok(c: char) -> bool {
    let u = c as u32;
    (49 <= u && u <= 57)  // '1'..='9'
     || (65 <= u && u <= 72)  // 'A'..='H'
     || (74 <= u && u <= 78)  // 'J'..='N'
     || (80 <= u && u <= 90)  // 'P'..='Z'
     || (97 <= u && u <= 107)  // 'a'..='k'
     || (109 <= u && u <= 122)  // 'm'..='z'

}

/// Is `c` acceptable in a lowercase Bech32 pattern?  Digits and lowercase
/// letters.
pub open spec fn bech32_char_ok(c: char) -> bool {
    let u = c as u32;
    (48 <= u && u <= 57) || (97 <= u && u <= 122)
}

/// Is `c` acceptable in a pattern for the given address format?
pub open spec fn pattern_char_ok(c: char, format: AddressFormat) -> bool {
    match format {
        AddressFormat::P2pkh => base58_char_ok(c),
        AddressFormat::Bech32 => bech32_char_ok(c),
    }
}

/// Every character of `s` is acceptable in a pattern for `format`.
pub open spec fn pattern_ok(s: Seq<char>, format: AddressFormat) -> bool {
    forall|i: int| 0 <= i < s.len() ==> pattern_char_ok(#[trigger] s[i], format)
}

/// A pattern as it takes part in matching: Bech32 patterns are lowercased,
/// Base58 patterns are kept as given.
pub open spec fn normalized_pattern(p: Seq<char>, format: AddressFormat) -> Seq<char> {
    match format {
        AddressFormat::P2pkh => p,
        AddressFormat::Bech32 => lower_of(p),
    }
}

/// Check that every character of `value` belongs to the target encoding's
/// alphabet.
pub fn ensure_charset(value: &str, format: AddressFormat) -> (r: Result<(), ConfigError>)
    ensures
        r is Ok <==> pattern_ok(value@, format),
        r is Err ==> r == Err::<(), ConfigError>(ConfigError::InvalidPatternChar),
{
    let n: usize = value.unicode_len();
    let mut i: usize = 0;
    while i < n
        invariant
            i <= n,
            n == value@.len(),
            forall|k: int| 0 <= k < i ==> pattern_char_ok(#[trigger] value@[k], format),
        decreases n - i,
    {
        let c: char = value.get_char(i);
        let u: u32 = c as u32;
        let ok: bool = match format {
            AddressFormat::P2pkh => (49 <= u && u <= 57) || (65 <= u && u <= 72) || (74 <= u && u
                <= 78) || (80 <= u && u <= 90) || (97 <= u && u <= 107) || (109 <= u && u <= 122),
            AddressFormat::Bech32 => (48 <= u && u <= 57) || (97 <= u && u <= 122),
        };
        if !ok {
            return Err(ConfigError::InvalidPatternChar);
        }
        i += 1;
    }
    Ok(())
}

/// Normalize an optional pattern for its target encoding (Bech32 patterns
/// are lowercased) and check its alphabet.
pub fn prepare_pattern(pattern: Option<String>, format: AddressFormat) -> (r: Result<
    Option<String>,
    ConfigError,
>)
    ensures
        (match pattern {
            None => r == Ok::<Option<String>, ConfigError>(None),
            Some(p) => {
                if pattern_ok(normalized_pattern(p@, format), format) {
                    r matches Ok(Some(q)) && q@ == normalized_pattern(p@, format)
                } else {
                    r == Err::<Option<String>, ConfigError>(ConfigError::InvalidPatternChar)
                }
            },
        }),
{
    match pattern {
        None => Ok(None),
        Some(value) => {
            let normalized: String = match format {
                AddressFormat::P2pkh => value,
                AddressFormat::Bech32 => lowercase(value.as_str()),
            };
            match ensure_charset(normalized.as_str(), format) {
                Ok(_) => Ok(Some(normalized)),
                Err(e) => Err(e),
            }
        },
    }
}

/// `p` is an initial run of `s`.
pub open spec fn is_prefix_of(p: Seq<char>, s: Seq<char>) -> bool {
    p.len() <= s.len() && s.subrange(0, p.len() as int) == p
}

/// `p` is a final run of `s`.
pub open spec fn is_suffix_of(p: Seq<char>, s: Seq<char>) -> bool {
    p.len() <= s.len() && s.subrange(s.len() - p.len(), s.len() as int) == p
}

/// The match criterion: the address starts with the prefix (when one is
/// given) and ends with the suffix (when one is given).  Each constraint
/// is tested independently; with neither constraint everything matches,
/// a case the configuration check rejects beforehand.
pub open spec fn pattern_matches(
    addr: Seq<char>,
    prefix: Option<Seq<char>>,
    suffix: Option<Seq<char>>,
) -> bool {
    &&& (match prefix {
        Some(p) => is_prefix_of(p, addr),
        None => true,
    })
    &&& (match suffix {
        Some(s) => is_suffix_of(s, addr),
        None => true,
    })
}

/// Law: a prefix-only pattern matches exactly the addresses that start
/// with it, a suffix-only pattern exactly those that end with it, and a
/// combined pattern requires both, each tested independently.
pub proof fn lemma_pattern_matches_decomposition(addr: Seq<char>, p: Seq<char>, s: Seq<char>)
    ensures
        pattern_matches(addr, Some(p), None) == is_prefix_of(p, addr),
        pattern_matches(addr, None, Some(s)) == is_suffix_of(s, addr),
        pattern_matches(addr, Some(p), Some(s)) == (is_prefix_of(p, addr) && is_suffix_of(
            s,
            addr,
        )),
{
}

/// Does `s` start with `p`?
fn str_starts_with(s: &str, p: &str) -> (r: bool)
    ensures
        r == is_prefix_of(p@, s@),
{
    let sl: usize = s.unicode_len();
    let pl: usize = p.unicode_len();
    if pl > sl {
        return false;
    }
    let mut i: usize = 0;
    while i < pl
        invariant
            i <= pl,
            pl == p@.len(),
            sl == s@.len(),
            pl <= sl,
            forall|k: int| 0 <= k < i ==> s@[k] == p@[k],
        decreases pl - i,
    {
        let sc: char = s.get_char(i);
        let pc: char = p.get_char(i);
        if sc != pc {
            proof {
                assert(s@.subrange(0, pl as int)[i as int] != p@[i as int]);
            }
            return false;
        }
        i += 1;
    }
    proof {
        assert(s@.subrange(0, pl as int) =~= p@);
    }
    true
}

/// Does `s` end with `p`?
fn str_ends_with(s: &str, p: &str) -> (r: bool)
    ensures
        r == is_suffix_of(p@, s@),
{
    let sl: usize = s.unicode_len();
    let pl: usize = p.unicode_len();
    if pl > sl {
        return false;
    }
    let off: usize = sl - pl;
    let mut i: usize = 0;
    while i < pl
        invariant
            i <= pl,
            pl == p@.len(),
            sl == s@.len(),
            pl <= sl,
            off == sl - pl,
            forall|k: int| 0 <= k < i ==> s@[off + k] == p@[k],
        decreases pl - i,
    {
        let sc: char = s.get_char(off + i);
        let pc: char = p.get_char(i);
        if sc != pc {
            proof {
                assert(s@.subrange(s@.len() - pl, s@.len() as int)[i as int] != p@[i as int]);
            }
            return false;
        }
        i += 1;
    }
    proof {
        assert(s@.subrange(s@.len() - pl, s@.len() as int) =~= p@);
    }
    true
}

/// Does the address satisfy the prefix and suffix constraints?  True
/// exactly when the address starts with the prefix (if given) and ends
/// with the suffix (if given).
pub fn matches_pattern(address: &str, prefix: Option<&str>, suffix: Option<&str>) -> (r: bool)
    ensures
        r == pattern_matches(address@, prefix.deep_view(), suffix.deep_view()),
{
    if let Some(p) = prefix {
        if !str_starts_with(address, p) {
            return false;
        }
    }
    if let Some(s) = suffix {
        if !str_ends_with(address, s) {
            return false;
        }
    }
    true
}

} // verus!
