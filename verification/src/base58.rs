//! Base58 encoding of byte strings, as used by Base58Check addresses.
//!
//! The encoding reads the input as a big-endian integer, writes its base-58
//! digits most significant first, and prefixes one `'1'` (the zero digit)
//! for every leading zero byte of the input; an output that would otherwise
//! be empty is a single `'1'`.

use vstd::prelude::*;

verus! {

use vstd::arithmetic::div_mod::lemma_fundamental_div_mod;
use vstd::arithmetic::div_mod::lemma_fundamental_div_mod_converse;
use vstd::arithmetic::power::pow;
use crate::external::ascii_to_string;

/// The value of a byte string read as a big-endian integer.
pub open spec fn be_value(s: Seq<u8>) -> nat
    decreases s.len(),
{
    if s.len() == 0 {
        0
    } else {
        (be_value(s.drop_last()) * 256 + s.last()) as nat
    }
}

/// How many zero bytes the byte string starts with.
pub open spec fn leading_zeros(s: Seq<u8>) -> nat
    decreases s.len(),
{
    if s.len() == 0 || s.first() != 0 {
        0
    } else {
        (1 + leading_zeros(s.drop_first())) as nat
    }
}

/// The little-endian base-58 digits of `n`: empty for zero, least
/// significant digit first, most significant (last) digit nonzero.
pub open spec fn b58_digits_le(n: nat) -> Seq<u8>
    decreases n,
{
    if n == 0 {
        Seq::<u8>::empty()
    } else {
        seq![(n % 58) as u8] + b58_digits_le(n / 58)
    }
}

/// The value of a little-endian base-58 digit string.
pub open spec fn le_val(digits: Seq<u8>) -> nat
    decreases digits.len(),
{
    if digits.len() == 0 {
        0
    } else {
        (digits.first() + 58 * le_val(digits.drop_first())) as nat
    }
}

/// The Base58 alphabet byte for digit `d`: position `d` of
/// `123456789ABCDEFGHJKLMNPQRSTUVWXYZabcdefghijkmnopqrstuvwxyz`
/// (the Base58 alphabet leaves out `0`, `O`, `I` and `l`),
/// written as its six contiguous ASCII runs.
pub open spec fn b58_byte(d: int) -> u8 {
    if d < 9 {
        (49 + d) as u8  // '1'..='9'
    } else if d < 17 {
        (56 + d) as u8  // 'A'..='H'
    } else if d < 22 {
        (57 + d) as u8  // 'J'..='N'
    } else if d < 33 {
        (58 + d) as u8  // 'P'..='Z'
    } else if d < 44 {
        (64 + d) as u8  // 'a'..='k'
    } else {
        (65 + d) as u8  // 'm'..='z'
    }
}

/// The Base58 encoding of `s`, as ASCII bytes: one `'1'` (byte 49) per
/// leading zero byte, then the base-58 digits of the big-endian value,
/// most significant first; empty output becomes a single `'1'`.
pub open spec fn base58_bytes(s: Seq<u8>) -> Seq<u8> {
    let ones = Seq::new(leading_zeros(s), |i: int| 49u8);
    let digs = b58_digits_le(be_value(s)).reverse().map_values(|d: u8| b58_byte(d as int));
    let body = ones + digs;
    if body.len() == 0 {
        seq![49u8]
    } else {
        body
    }
}

/// The Base58 encoding of `s`, as the characters of the output string.
pub open spec fn base58_chars(s: Seq<u8>) -> Seq<char> {
    base58_bytes(s).map_values(|b: u8| b as char)
}

/// Appending a digit at the most significant end adds its scaled value.
proof fn lemma_le_val_snoc(d: Seq<u8>, x: u8)
    ensures
        le_val(d.push(x)) == le_val(d) + pow(58, d.len()) * x,
    decreases d.len(),
{
    if d.len() == 0 {
        assert(d.push(x).drop_first() =~= Seq::<u8>::empty());
        assert(d.push(x).first() == x);
        vstd::arithmetic::power::lemma_pow0(58);
        assert(le_val(Seq::<u8>::empty()) == 0);
        assert(le_val(d.push(x)) == x);
        assert(le_val(d) + pow(58, d.len()) * x == x) by (nonlinear_arith)
            requires
                le_val(d) == 0,
                pow(58, d.len()) == 1,
        ;
    } else {
        assert(d.push(x).drop_first() =~= d.drop_first().push(x));
        assert(d.push(x).first() == d.first());
        lemma_le_val_snoc(d.drop_first(), x);
        let p = pow(58, (d.len() - 1) as nat);
        vstd::arithmetic::power::lemma_pow_adds(58, (d.len() - 1) as nat, 1);
        vstd::arithmetic::power::lemma_pow1(58);
        assert(pow(58, d.len()) == 58 * p) by (nonlinear_arith)
            requires
                pow(58, d.len()) == p * pow(58, 1),
                pow(58, 1) == 58,
        ;
        assert(le_val(d.push(x)) == le_val(d) + (58 * p) * x) by (nonlinear_arith)
            requires
                le_val(d.push(x)) == d.first() + 58 * le_val(d.drop_first().push(x)),
                le_val(d.drop_first().push(x)) == le_val(d.drop_first()) + p * x,
                le_val(d) == d.first() + 58 * le_val(d.drop_first()),
        ;
    }
}

/// A canonical little-endian digit string (digits below 58, nonzero most
/// significant digit) is exactly the digit string of its own value.
proof fn lemma_b58_canonical(d: Seq<u8>)
    requires
        forall|k: int| 0 <= k < d.len() ==> d[k] < 58,
        d.len() > 0 ==> d.last() != 0,
    ensures
        b58_digits_le(le_val(d)) == d,
    decreases d.len(),
{
    if d.len() == 0 {
        assert(b58_digits_le(0) =~= d);
    } else {
        let df = d.drop_first();
        let n = le_val(d);
        assert(d.len() > 1 ==> df.last() == d.last());
        lemma_b58_canonical(df);
        lemma_fundamental_div_mod_converse(n as int, 58, le_val(df) as int, d.first() as int);
        if n == 0 {
            assert(d.first() == 0);
            assert(le_val(df) == 0);
            assert(b58_digits_le(0) == Seq::<u8>::empty());
            assert(df =~= Seq::<u8>::empty());
            assert(d.last() == d.first());
            assert(false);
        } else {
            assert(n % 58 == d.first());
            assert(n / 58 == le_val(df));
            assert(b58_digits_le(n) =~= d);
        }
    }
}

/// A big-endian byte string has value zero exactly when every byte is zero.
proof fn lemma_be_value_zero(s: Seq<u8>)
    ensures
        (be_value(s) == 0) <==> (forall|k: int| 0 <= k < s.len() ==> s[k] == 0),
    decreases s.len(),
{
    if s.len() > 0 {
        lemma_be_value_zero(s.drop_last());
        assert(forall|k: int| 0 <= k < s.len() - 1 ==> s.drop_last()[k] == s[k]);
        if be_value(s) == 0 {
            assert(be_value(s.drop_last()) * 256 + s.last() == 0);
        } else {
            if forall|k: int| 0 <= k < s.len() ==> s[k] == 0 {
                assert(s.last() == 0);
                assert(be_value(s.drop_last()) == 0);
                assert(false);
            }
        }
    }
}

/// The recursive leading-zero count agrees with the index of the first
/// nonzero byte.
proof fn lemma_leading_zeros_is(s: Seq<u8>, i: int)
    requires
        0 <= i <= s.len(),
        forall|k: int| 0 <= k < i ==> s[k] == 0,
        i < s.len() ==> s[i] != 0,
    ensures
        leading_zeros(s) == i,
    decreases i,
{
    if i == 0 {
        if s.len() > 0 {
            assert(s.first() != 0);
        }
    } else {
        assert(s.first() == 0);
        let df = s.drop_first();
        assert(forall|k: int| 0 <= k < i - 1 ==> df[k] == s[k + 1] && df[k] == 0);
        assert(i - 1 < df.len() ==> df[i - 1] == s[i]);
        lemma_leading_zeros_is(df, i - 1);
    }
}

/// The digit string of a positive value is nonempty with a nonzero most
/// significant digit.
proof fn lemma_b58_digits_le_canonical(n: nat)
    ensures
        n > 0 ==> b58_digits_le(n).len() > 0 && b58_digits_le(n).last() != 0,
    decreases n,
{
    if n > 0 {
        lemma_b58_digits_le_canonical(n / 58);
        lemma_fundamental_div_mod(n as int, 58);
        if n / 58 == 0 {
            assert(n % 58 == n);
            assert(b58_digits_le(0) =~= Seq::<u8>::empty());
            assert(b58_digits_le(n) =~= seq![(n % 58) as u8]);
            assert(b58_digits_le(n).last() == (n % 58) as u8);
        } else {
            let rest = b58_digits_le(n / 58);
            assert(rest.len() > 0);
            assert((seq![(n % 58) as u8] + rest).last() == rest.last());
        }
    }
}

/// The digit byte for digit zero is `'1'` (byte 49); every other digit maps
/// to a different byte.
proof fn lemma_b58_byte_one(d: int)
    requires
        0 <= d < 58,
    ensures
        (b58_byte(d) == 49) <==> (d == 0),
{
}

/// The leading-zero count is an index into the input: everything before
/// it is zero, and the byte at it (when there is one) is not.
proof fn lemma_leading_zeros_props(s: Seq<u8>)
    ensures
        leading_zeros(s) <= s.len(),
        forall|i: int| 0 <= i < leading_zeros(s) ==> s[i] == 0,
        leading_zeros(s) < s.len() ==> s[leading_zeros(s) as int] != 0,
    decreases s.len(),
{
    if s.len() > 0 && s.first() == 0 {
        lemma_leading_zeros_props(s.drop_first());
        assert forall|i: int| 0 <= i < leading_zeros(s) implies s[i] == 0 by {
            if i > 0 {
                assert(s.drop_first()[i - 1] == s[i]);
            }
        }
        if leading_zeros(s) < s.len() {
            assert(s.drop_first()[leading_zeros(s.drop_first()) as int] == s[leading_zeros(
                s,
            ) as int]);
        }
    }
}

/// Every digit of a digit string is below 58.
proof fn lemma_b58_digits_le_bounded(n: nat)
    ensures
        forall|i: int|
            0 <= i < b58_digits_le(n).len() ==> (#[trigger] b58_digits_le(n)[i]) < 58,
    decreases n,
{
    if n > 0 {
        lemma_b58_digits_le_bounded(n / 58);
        assert forall|i: int|
            0 <= i < b58_digits_le(n).len() implies (#[trigger] b58_digits_le(n)[i]) < 58 by {
            if i > 0 {
                assert(b58_digits_le(n)[i] == b58_digits_le(n / 58)[i - 1]);
            }
        }
    }
}

/// Law: each leading zero byte maps to exactly one leading '1' (byte 49)
/// of the encoding, and the first character after them is never '1': an
/// input with k leading zero bytes encodes with exactly k leading '1'
/// characters.  An all-zero input of length k is exactly k '1' characters.
pub proof fn lemma_base58_leading_ones(s: Seq<u8>)
    requires
        s.len() > 0,
    ensures
        leading_zeros(s) <= base58_bytes(s).len(),
        forall|i: int| 0 <= i < leading_zeros(s) ==> base58_bytes(s)[i] == 49u8,
        leading_zeros(s) < base58_bytes(s).len() ==> base58_bytes(s)[leading_zeros(s) as int]
            != 49u8,
        be_value(s) == 0 ==> base58_bytes(s).len() == leading_zeros(s),
        forall|i: int| 0 <= i < leading_zeros(s) ==> base58_chars(s)[i] == '1',
        leading_zeros(s) < base58_chars(s).len() ==> base58_chars(s)[leading_zeros(s) as int]
            != '1',
{
    assert((49u8 as char) == '1');
    assert forall|b: u8| b < 128 && b != 49 implies (#[trigger] (b as char)) != '1' by {
        vstd::utf8::char_is_scalar(b as char);
    }
    let k = leading_zeros(s);
    let n = be_value(s);
    let ones = Seq::new(k, |i: int| 49u8);
    let digs = b58_digits_le(n).reverse().map_values(|d: u8| b58_byte(d as int));
    lemma_leading_zeros_props(s);
    lemma_be_value_zero(s);
    if n == 0 {
        assert(forall|i: int| 0 <= i < s.len() ==> s[i] == 0);
        lemma_leading_zeros_is(s, s.len() as int);
        assert(b58_digits_le(0) =~= Seq::<u8>::empty());
        assert(digs.len() == 0);
        assert(base58_bytes(s) =~= ones);
    } else {
        lemma_b58_digits_le_canonical(n);
        lemma_b58_digits_le_bounded(n);
        assert(digs.len() > 0);
        assert(base58_bytes(s) == ones + digs);
        let msd = b58_digits_le(n).last();
        assert(b58_digits_le(n).reverse()[0] == msd);
        assert(digs[0] == b58_byte(msd as int));
        lemma_b58_byte_one(msd as int);
        assert(base58_bytes(s)[k as int] == digs[0]);
    }
}

/// The digit value of a Base58 alphabet byte (58 for a byte outside the
/// alphabet): the inverse of `b58_byte`.
pub open spec fn b58_digit_of_byte(b: u8) -> int {
    if 49 <= b && b <= 57 {
        b - 49
    } else if 65 <= b && b <= 72 {
        b - 56
    } else if 74 <= b && b <= 78 {
        b - 57
    } else if 80 <= b && b <= 90 {
        b - 58
    } else if 97 <= b && b <= 107 {
        b - 64
    } else if 109 <= b && b <= 122 {
        b - 65
    } else {
        58
    }
}

/// The value of a string of Base58 digit bytes, most significant first.
pub open spec fn b58_value_of_bytes(t: Seq<u8>) -> nat
    decreases t.len(),
{
    if t.len() == 0 {
        0
    } else {
        (b58_value_of_bytes(t.drop_last()) * 58 + b58_digit_of_byte(t.last())) as nat
    }
}

/// How many '1' bytes the encoding starts with.
pub open spec fn leading_ones(t: Seq<u8>) -> nat
    decreases t.len(),
{
    if t.len() == 0 || t.first() != 49 {
        0
    } else {
        (1 + leading_ones(t.drop_first())) as nat
    }
}

/// The shortest big-endian byte string of value `n`: empty for zero,
/// nonzero leading byte otherwise.
pub open spec fn min_be_bytes(n: nat) -> Seq<u8>
    decreases n,
{
    if n == 0 {
        Seq::<u8>::empty()
    } else {
        min_be_bytes(n / 256) + seq![(n % 256) as u8]
    }
}

/// Base58 decoding: each leading '1' byte becomes a zero byte, and the
/// remaining digit bytes are read as a base-58 big-endian value.
pub open spec fn base58_decode_bytes(t: Seq<u8>) -> Seq<u8> {
    let k = leading_ones(t);
    Seq::new(k, |i: int| 0u8) + min_be_bytes(b58_value_of_bytes(t.skip(k as int)))
}

/// The recursive leading-one count agrees with the index of the first
/// byte that is not '1'.
proof fn lemma_leading_ones_is(t: Seq<u8>, i: int)
    requires
        0 <= i <= t.len(),
        forall|k: int| 0 <= k < i ==> t[k] == 49,
        i < t.len() ==> t[i] != 49,
    ensures
        leading_ones(t) == i,
    decreases i,
{
    if i == 0 {
        if t.len() > 0 {
            assert(t.first() != 49);
        }
    } else {
        assert(t.first() == 49);
        let df = t.drop_first();
        assert(forall|k: int| 0 <= k < i - 1 ==> df[k] == t[k + 1] && df[k] == 49);
        assert(i - 1 < df.len() ==> df[i - 1] == t[i]);
        lemma_leading_ones_is(df, i - 1);
    }
}

/// A byte string whose first byte is nonzero is the shortest rendering of
/// its own value.
proof fn lemma_min_be_of(t: Seq<u8>)
    requires
        t.len() > 0,
        t.first() != 0,
    ensures
        min_be_bytes(be_value(t)) == t,
    decreases t.len(),
{
    let n = be_value(t);
    if t.len() == 1 {
        assert(be_value(t.drop_last()) == 0);
        assert(n == t.first());
        lemma_fundamental_div_mod_converse(n as int, 256, 0, n as int);
        assert(min_be_bytes(0) =~= Seq::<u8>::empty());
        assert(min_be_bytes(n) =~= t);
    } else {
        let front = t.drop_last();
        assert(front.first() == t.first());
        lemma_min_be_of(front);
        let v = be_value(front);
        lemma_be_value_zero(front);
        assert(v > 0);
        lemma_fundamental_div_mod_converse(n as int, 256, v as int, t.last() as int);
        assert(n / 256 == v);
        assert(n % 256 == t.last());
        assert(n > 0) by (nonlinear_arith)
            requires
                n == v * 256 + t.last(),
                v > 0,
        ;
        assert(min_be_bytes(n) =~= t);
    }
}

/// A zero first byte does not change the big-endian value.
proof fn lemma_be_value_drop_zero(s: Seq<u8>)
    requires
        s.len() > 0,
        s.first() == 0,
    ensures
        be_value(s) == be_value(s.drop_first()),
    decreases s.len(),
{
    if s.len() == 1 {
        assert(s.drop_first() =~= Seq::<u8>::empty());
        assert(be_value(s.drop_last()) == 0);
    } else {
        let dl = s.drop_last();
        assert(dl.first() == s.first());
        lemma_be_value_drop_zero(dl);
        assert(s.drop_first().drop_last() =~= dl.drop_first());
        assert(s.drop_first().last() == s.last());
    }
}

/// Leading zero bytes do not change the big-endian value.
proof fn lemma_be_value_skip_zeros(s: Seq<u8>, k: int)
    requires
        0 <= k <= s.len(),
        forall|i: int| 0 <= i < k ==> s[i] == 0,
    ensures
        be_value(s.skip(k)) == be_value(s),
    decreases k,
{
    if k > 0 {
        lemma_be_value_drop_zero(s);
        let df = s.drop_first();
        assert(forall|i: int| 0 <= i < k - 1 ==> df[i] == s[i + 1]);
        lemma_be_value_skip_zeros(df, k - 1);
        assert(df.skip(k - 1) =~= s.skip(k));
    } else {
        assert(s.skip(0) =~= s);
    }
}

/// Reading back the digit bytes of a value yields the value.
proof fn lemma_b58_value_of_encoding(m: nat)
    ensures
        b58_value_of_bytes(b58_digits_le(m).reverse().map_values(|d: u8| b58_byte(d as int)))
            == m,
    decreases m,
{
    let enc = b58_digits_le(m).reverse().map_values(|d: u8| b58_byte(d as int));
    if m == 0 {
        assert(b58_digits_le(0) =~= Seq::<u8>::empty());
        assert(enc.len() == 0);
    } else {
        lemma_b58_value_of_encoding(m / 58);
        lemma_b58_digits_le_bounded(m);
        let rest = b58_digits_le(m / 58).reverse().map_values(|d: u8| b58_byte(d as int));
        assert(enc =~= rest.push(b58_byte((m % 58) as int))) by {
            assert(b58_digits_le(m) == seq![(m % 58) as u8] + b58_digits_le(m / 58));
            assert(enc.len() == b58_digits_le(m).len());
            assert forall|i: int| 0 <= i < enc.len() implies enc[i] == rest.push(
                b58_byte((m % 58) as int),
            )[i] by {
                assert(enc[i] == b58_byte(
                    b58_digits_le(m)[b58_digits_le(m).len() - 1 - i] as int,
                ));
                if i < enc.len() - 1 {
                    assert(b58_digits_le(m)[b58_digits_le(m).len() - 1 - i] == b58_digits_le(
                        m / 58,
                    )[b58_digits_le(m / 58).len() - 1 - i]);
                    assert(rest[i] == b58_byte(
                        b58_digits_le(m / 58)[b58_digits_le(m / 58).len() - 1 - i] as int,
                    ));
                } else {
                    assert(b58_digits_le(m)[0] == (m % 58) as u8);
                }
            }
        }
        assert(enc.drop_last() =~= rest);
        assert(enc.last() == b58_byte((m % 58) as int));
        assert(b58_digit_of_byte(b58_byte((m % 58) as int)) == m % 58);
        lemma_fundamental_div_mod(m as int, 58);
    }
}

/// Law: Base58 round trip.  Decoding the encoding of a nonempty byte
/// string reproduces it exactly: zero bytes for the leading '1's and the
/// big-endian bytes of the digit value for the rest.
pub proof fn lemma_base58_round_trip(s: Seq<u8>)
    requires
        s.len() > 0,
    ensures
        base58_decode_bytes(base58_bytes(s)) == s,
{
    let k = leading_zeros(s);
    let n = be_value(s);
    let t = base58_bytes(s);
    let ones = Seq::new(k, |i: int| 49u8);
    let digs = b58_digits_le(n).reverse().map_values(|d: u8| b58_byte(d as int));
    lemma_leading_zeros_props(s);
    lemma_base58_leading_ones(s);
    lemma_be_value_zero(s);
    if n == 0 {
        assert(t =~= ones);
        lemma_leading_ones_is(t, t.len() as int);
        assert(t.skip(t.len() as int) =~= Seq::<u8>::empty());
        assert(min_be_bytes(0) =~= Seq::<u8>::empty());
        lemma_leading_zeros_is(s, s.len() as int);
        assert(base58_decode_bytes(t) =~= s);
    } else {
        assert(t == ones + digs);
        lemma_b58_digits_le_canonical(n);
        lemma_leading_ones_is(t, k as int);
        assert(t.skip(k as int) =~= digs);
        lemma_b58_value_of_encoding(n);
        assert(b58_value_of_bytes(digs) == n);
        let tail = s.skip(k as int);
        lemma_be_value_skip_zeros(s, k as int);
        assert(be_value(tail) == n);
        assert(k < s.len());
        assert(tail.len() > 0);
        assert(tail.first() == s[k as int]);
        lemma_min_be_of(tail);
        assert(base58_decode_bytes(t) =~= Seq::new(k, |i: int| 0u8) + tail);
        assert(base58_decode_bytes(t) =~= s);
    }
}

/// Exec form of `b58_byte`.
fn b58_digit_byte(d: u8) -> (r: u8)
    requires
        d < 58,
    ensures
        r == b58_byte(d as int),
        r < 128,
{
    if d < 9 {
        49 + d
    } else if d < 17 {
        56 + d
    } else if d < 22 {
        57 + d
    } else if d < 33 {
        58 + d
    } else if d < 44 {
        64 + d
    } else {
        65 + d
    }
}

/// Encode `input` in Base58, replacing the contents of `out`.
pub fn encode_base58(input: &[u8], out: &mut String)
    ensures
        final(out)@ == base58_chars(input@),
{
    let mut digits: Vec<u8> = Vec::new();
    let mut i: usize = 0;
    while i < input.len()
        invariant
            i <= input@.len(),
            le_val(digits@) == be_value(input@.take(i as int)),
            forall|k: int| 0 <= k < digits@.len() ==> digits@[k] < 58,
            digits@.len() > 0 ==> digits@.last() != 0,
        decreases input@.len() - i,
    {
        let b: u8 = input[i];
        let ghost prev = digits@;
        let mut new_digits: Vec<u8> = Vec::new();
        let mut carry: u32 = b as u32;
        let mut j: usize = 0;
        proof {
            assert(digits@.skip(0) =~= digits@);
            vstd::arithmetic::power::lemma_pow0(58);
            assert(le_val(new_digits@) + pow(58, 0) * carry + 256 * pow(58, 0) * le_val(
                digits@.skip(0),
            ) == 256 * le_val(digits@) + b) by (nonlinear_arith)
                requires
                    le_val(new_digits@) == 0,
                    pow(58, 0) == 1,
                    le_val(digits@.skip(0)) == le_val(digits@),
                    carry == b,
            ;
        }
        while j < digits.len()
            invariant
                j <= digits@.len(),
                new_digits@.len() == j,
                carry < 14848,
                forall|k: int| 0 <= k < digits@.len() ==> digits@[k] < 58,
                digits@.len() > 0 ==> digits@.last() != 0,
                forall|k: int| 0 <= k < new_digits@.len() ==> new_digits@[k] < 58,
                le_val(new_digits@) + pow(58, j as nat) * carry + 256 * pow(58, j as nat)
                    * le_val(digits@.skip(j as int)) == 256 * le_val(digits@) + b,
                (j == digits@.len() && digits@.len() > 0) ==> carry > 0,
            decreases digits@.len() - j,
        {
            proof {
                vstd::arithmetic::power::lemma_pow_positive(58, j as nat);
            }
            let dj: u8 = digits[j];
            let val: u32 = (dj as u32) * 256 + carry;
            let x: u8 = (val % 58) as u8;
            let ghost prev_new = new_digits@;
            new_digits.push(x);
            let new_carry: u32 = val / 58;
            proof {
                let p = pow(58, j as nat);
                let sj = le_val(digits@.skip(j as int));
                let s1 = le_val(digits@.skip(j as int + 1));
                let lv = le_val(prev_new);
                lemma_le_val_snoc(prev_new, x);
                assert(new_digits@ == prev_new.push(x));
                assert(digits@.skip(j as int).drop_first() =~= digits@.skip(j as int + 1));
                assert(digits@.skip(j as int).first() == digits@[j as int]);
                assert(sj == dj + 58 * s1);
                lemma_fundamental_div_mod(val as int, 58);
                vstd::arithmetic::power::lemma_pow_adds(58, j as nat, 1);
                vstd::arithmetic::power::lemma_pow1(58);
                assert(pow(58, (j + 1) as nat) == 58 * p) by (nonlinear_arith)
                    requires
                        pow(58, (j + 1) as nat) == p * pow(58, 1),
                        pow(58, 1) == 58,
                ;
                assert(le_val(new_digits@) + (58 * p) * new_carry + 256 * (58 * p) * s1 == 256
                    * le_val(digits@) + b) by (nonlinear_arith)
                    requires
                        le_val(new_digits@) == lv + p * x,
                        val == 58 * new_carry + x,
                        val == 256 * dj + carry,
                        sj == dj + 58 * s1,
                        lv + p * carry + 256 * p * sj == 256 * le_val(digits@) + b,
                ;
                assert(val < 29440);
                assert(val / 58 < 14848) by (nonlinear_arith)
                    requires
                        val < 29440,
                        new_carry == val / 58,
                ;
                if j + 1 == digits@.len() && digits@.len() > 0 {
                    assert(dj == digits@.last());
                    assert(dj >= 1);
                    assert(val >= 256);
                    assert(val / 58 >= 1) by (nonlinear_arith)
                        requires
                            val >= 256,
                    ;
                }
            }
            carry = new_carry;
            j += 1;
        }
        proof {
            assert(digits@.skip(digits@.len() as int) =~= Seq::<u8>::empty());
            assert(le_val(new_digits@) + pow(58, new_digits@.len()) * carry == 256 * le_val(
                digits@,
            ) + b) by (nonlinear_arith)
                requires
                    le_val(new_digits@) + pow(58, j as nat) * carry + 256 * pow(58, j as nat)
                        * le_val(digits@.skip(j as int)) == 256 * le_val(digits@) + b,
                    le_val(digits@.skip(j as int)) == 0,
                    pow(58, new_digits@.len()) == pow(58, j as nat),
            ;
        }
        while carry > 0
            invariant
                carry < 14848,
                forall|k: int| 0 <= k < new_digits@.len() ==> new_digits@[k] < 58,
                le_val(new_digits@) + pow(58, new_digits@.len()) * carry == 256 * le_val(prev)
                    + b,
                digits@ == prev,
                (carry == 0 && new_digits@.len() > 0) ==> new_digits@.last() != 0,
            decreases carry,
        {
            let x: u8 = (carry % 58) as u8;
            let ghost prev_new = new_digits@;
            new_digits.push(x);
            let new_carry: u32 = carry / 58;
            proof {
                let p = pow(58, prev_new.len());
                let lv = le_val(prev_new);
                lemma_le_val_snoc(prev_new, x);
                assert(new_digits@ == prev_new.push(x));
                lemma_fundamental_div_mod(carry as int, 58);
                vstd::arithmetic::power::lemma_pow_adds(58, prev_new.len(), 1);
                vstd::arithmetic::power::lemma_pow1(58);
                assert(pow(58, new_digits@.len()) == 58 * p) by (nonlinear_arith)
                    requires
                        pow(58, new_digits@.len()) == p * pow(58, 1),
                        pow(58, 1) == 58,
                ;
                assert(le_val(new_digits@) + (58 * p) * new_carry == 256 * le_val(prev) + b)
                    by (nonlinear_arith)
                    requires
                        le_val(new_digits@) == lv + p * x,
                        carry == 58 * new_carry + x,
                        lv + p * carry == 256 * le_val(prev) + b,
                ;
                assert(new_carry <= carry);
                if new_carry == 0 {
                    assert(x == carry % 58);
                    assert(carry == x);
                }
            }
            carry = new_carry;
        }
        proof {
            vstd::arithmetic::power::lemma_pow_positive(58, new_digits@.len());
            assert(le_val(new_digits@) == 256 * le_val(prev) + b) by (nonlinear_arith)
                requires
                    le_val(new_digits@) + pow(58, new_digits@.len()) * carry == 256 * le_val(prev)
                        + b,
                    carry == 0,
                    pow(58, new_digits@.len()) >= 1,
            ;
            assert(input@.take(i as int + 1).drop_last() =~= input@.take(i as int));
            assert(input@.take(i as int + 1).last() == input@[i as int]);
            assert(be_value(input@.take(i as int + 1)) == be_value(input@.take(i as int)) * 256
                + b);
        }
        digits = new_digits;
        i += 1;
    }
    proof {
        assert(input@.take(input@.len() as int) =~= input@);
        lemma_b58_canonical(digits@);
    }
    let mut zeros: usize = 0;
    while zeros < input.len() && input[zeros] == 0
        invariant
            zeros <= input@.len(),
            forall|k: int| 0 <= k < zeros ==> input@[k] == 0,
        decreases input@.len() - zeros,
    {
        zeros += 1;
    }
    proof {
        lemma_leading_zeros_is(input@, zeros as int);
    }
    let mut out_bytes: Vec<u8> = Vec::new();
    let mut k: usize = 0;
    while k < zeros
        invariant
            k <= zeros,
            out_bytes@.len() == k,
            forall|q: int| 0 <= q < k ==> out_bytes@[q] == 49u8,
        decreases zeros - k,
    {
        out_bytes.push(49u8);
        k += 1;
    }
    let dlen: usize = digits.len();
    let mut t: usize = 0;
    while t < dlen
        invariant
            t <= dlen,
            dlen == digits@.len(),
            forall|q: int| 0 <= q < digits@.len() ==> digits@[q] < 58,
            out_bytes@.len() == zeros + t,
            forall|q: int| 0 <= q < zeros ==> out_bytes@[q] == 49u8,
            forall|q: int|
                zeros <= q < zeros + t ==> out_bytes@[q] == b58_byte(
                    digits@[dlen - 1 - (q - zeros)] as int,
                ),
        decreases dlen - t,
    {
        let d: u8 = digits[dlen - 1 - t];
        let byte: u8 = b58_digit_byte(d);
        out_bytes.push(byte);
        t += 1;
    }
    if out_bytes.len() == 0 {
        out_bytes.push(49u8);
    }
    proof {
        assert(forall|q: int| 0 <= q < out_bytes@.len() ==> out_bytes@[q] < 128) by {
            assert(forall|q: int|
                zeros <= q < zeros + dlen ==> out_bytes@[q] == b58_byte(
                    digits@[dlen - 1 - (q - zeros)] as int,
                ));
        }
        assert(out_bytes@ =~= base58_bytes(input@)) by {
            let digs = b58_digits_le(be_value(input@)).reverse().map_values(
                |d: u8| b58_byte(d as int),
            );
            assert(b58_digits_le(be_value(input@)) == digits@);
            assert(digs.len() == dlen);
            assert(forall|q: int| 0 <= q < dlen ==> digs[q] == b58_byte(digits@[dlen - 1 - q] as int));
        }
    }
    let ghost target = base58_chars(input@);
    let s = ascii_to_string(out_bytes);
    proof {
        assert(s@ =~= target);
    }
    *out = s;
}

} // verus!
