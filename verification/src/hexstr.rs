//! Lowercase hexadecimal rendering of byte strings, used for secret keys
//! and configuration fingerprints.

use vstd::prelude::*;

verus! {

use crate::external::ascii_to_string;

/// The lowercase hex digit byte for a value below 16.
pub open spec fn hex_digit(d: int) -> u8 {
    if d < 10 {
        (48 + d) as u8  // '0'..='9'
    } else {
        (87 + d) as u8  // 'a'..='f'
    }
}

/// The lowercase hex rendering of a byte string, as ASCII bytes: two
/// digits per input byte, high nibble first.
pub open spec fn hex_bytes(s: Seq<u8>) -> Seq<u8> {
    Seq::new(
        2 * s.len(),
        |i: int|
            if i % 2 == 0 {
                hex_digit((s[i / 2] >> 4) as int)
            } else {
                hex_digit((s[i / 2] & 0xf) as int)
            },
    )
}

/// The lowercase hex rendering of a byte string, as the characters of the
/// output string.
pub open spec fn hex_chars(s: Seq<u8>) -> Seq<char> {
    hex_bytes(s).map_values(|b: u8| b as char)
}

/// Exec form of `hex_digit`.
fn hex_digit_byte(d: u8) -> (r: u8)
    requires
        d < 16,
    ensures
        r == hex_digit(d as int),
        r < 128,
{
    if d < 10 {
        48 + d
    } else {
        87 + d
    }
}

/// Render `data` as lowercase hex.
pub fn to_hex(data: &[u8]) -> (r: String)
    ensures
        r@ == hex_chars(data@),
{
    let mut out_bytes: Vec<u8> = Vec::new();
    let mut i: usize = 0;
    while i < data.len()
        invariant
            i <= data@.len(),
            out_bytes@.len() == 2 * i,
            forall|q: int| 0 <= q < out_bytes@.len() ==> out_bytes@[q] == hex_bytes(data@)[q],
            forall|q: int| 0 <= q < out_bytes@.len() ==> out_bytes@[q] < 128,
        decreases data@.len() - i,
    {
        let b: u8 = data[i];
        let hi: u8 = b >> 4;
        let lo: u8 = b & 0xf;
        proof {
            assert(hi < 16 && lo < 16) by (bit_vector)
                requires
                    hi == b >> 4,
                    lo == b & 0xf,
            ;
        }
        out_bytes.push(hex_digit_byte(hi));
        out_bytes.push(hex_digit_byte(lo));
        proof {
            assert((2 * i as int) % 2 == 0);
            assert((2 * i as int + 1) % 2 == 1);
            assert((2 * i as int) / 2 == i as int);
            assert((2 * i as int + 1) / 2 == i as int);
        }
        i += 1;
    }
    proof {
        assert(out_bytes@ =~= hex_bytes(data@));
    }
    let ghost target = hex_chars(data@);
    let s = ascii_to_string(out_bytes);
    proof {
        assert(s@ =~= target);
    }
    s
}

} // verus!
