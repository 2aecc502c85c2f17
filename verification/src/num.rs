//! Arithmetic ground work for the decoder: little-endian byte strings,
//! powers of 256 and 10, and decimal rendering of integers.

use vstd::prelude::*;

verus! {

/// 256 raised to `n`: the number of values a little-endian byte string of
/// length `n` can hold.
pub open spec fn pow256(n: nat) -> nat
    decreases n,
{
    if n == 0 {
        1
    } else {
        256 * pow256((n - 1) as nat)
    }
}

/// 10 raised to `n`.
pub open spec fn pow10(n: nat) -> nat
    decreases n,
{
    if n == 0 {
        1
    } else {
        10 * pow10((n - 1) as nat)
    }
}

/// The unsigned value of a little-endian byte string: the first byte is the
/// least significant.
pub open spec fn le_to_nat(s: Seq<u8>) -> nat
    decreases s.len(),
{
    if s.len() == 0 {
        0
    } else {
        s[0] as nat + 256 * le_to_nat(s.subrange(1, s.len() as int))
    }
}

/// The `n`-byte little-endian encoding of `v` (modulo `256^n`).
pub open spec fn le_bytes_of(v: nat, n: nat) -> Seq<u8>
    decreases n,
{
    if n == 0 {
        Seq::empty()
    } else {
        seq![(v % 256) as u8] + le_bytes_of(v / 256, (n - 1) as nat)
    }
}

pub proof fn lemma_pow256_pos(n: nat)
    ensures
        pow256(n) >= 1,
    decreases n,
{
    if n > 0 {
        lemma_pow256_pos((n - 1) as nat);
    }
}

pub proof fn lemma_pow256_mono(m: nat, n: nat)
    requires
        m <= n,
    ensures
        pow256(m) <= pow256(n),
    decreases n,
{
    if m < n {
        lemma_pow256_mono(m, (n - 1) as nat);
        lemma_pow256_pos((n - 1) as nat);
    }
}

/// A byte string of length `n` holds a value below `256^n`.
pub proof fn lemma_le_to_nat_bound(s: Seq<u8>)
    ensures
        le_to_nat(s) < pow256(s.len()),
    decreases s.len(),
{
    if s.len() > 0 {
        lemma_le_to_nat_bound(s.subrange(1, s.len() as int));
    }
}

/// Decoding a byte string and re-encoding it at the same length gives the
/// original bytes back: the little-endian reading loses nothing.
pub proof fn lemma_le_round_trip(s: Seq<u8>)
    ensures
        le_bytes_of(le_to_nat(s), s.len()) =~= s,
    decreases s.len(),
{
    if s.len() > 0 {
        let tail = s.subrange(1, s.len() as int);
        lemma_le_round_trip(tail);
        let v = le_to_nat(s);
        assert(v == s[0] + 256 * le_to_nat(tail));
        assert(v % 256 == s[0] && v / 256 == le_to_nat(tail)) by (nonlinear_arith)
            requires
                v == s[0] + 256 * le_to_nat(tail),
                0 <= s[0] < 256,
        ;
        assert(le_bytes_of(v, s.len()) =~= s);
    }
}

/// Encoding a value below `256^n` on `n` bytes and reading it back gives the
/// value itself.
pub proof fn lemma_le_bytes_value(v: nat, n: nat)
    requires
        v < pow256(n),
    ensures
        le_to_nat(le_bytes_of(v, n)) == v,
    decreases n,
{
    if n > 0 {
        assert(v / 256 < pow256((n - 1) as nat)) by (nonlinear_arith)
            requires
                v < 256 * pow256((n - 1) as nat),
        ;
        lemma_le_bytes_value(v / 256, (n - 1) as nat);
        let e = le_bytes_of(v, n);
        assert(e.subrange(1, e.len() as int) =~= le_bytes_of(v / 256, (n - 1) as nat));
    }
}

pub proof fn lemma_le_bytes_of_len(v: nat, n: nat)
    ensures
        le_bytes_of(v, n).len() == n,
    decreases n,
{
    if n > 0 {
        lemma_le_bytes_of_len(v / 256, (n - 1) as nat);
    }
}

/// The character for a decimal digit.
pub open spec fn digit_char(d: nat) -> char {
    if d == 0 {
        '0'
    } else if d == 1 {
        '1'
    } else if d == 2 {
        '2'
    } else if d == 3 {
        '3'
    } else if d == 4 {
        '4'
    } else if d == 5 {
        '5'
    } else if d == 6 {
        '6'
    } else if d == 7 {
        '7'
    } else if d == 8 {
        '8'
    } else {
        '9'
    }
}

/// The decimal rendering of a natural number, most significant digit first,
/// without leading zeroes (except for zero itself).
pub open spec fn dec_str(n: nat) -> Seq<char>
    decreases n,
{
    if n < 10 {
        seq![digit_char(n)]
    } else {
        dec_str(n / 10).push(digit_char(n % 10))
    }
}

/// The decimal rendering of an integer: a minus sign ahead of the magnitude
/// for negative values.
pub open spec fn int_dec_str(i: int) -> Seq<char> {
    if i < 0 {
        seq!['-'] + dec_str((-i) as nat)
    } else {
        dec_str(i as nat)
    }
}

pub fn digit_string(d: u128) -> (s: String)
    requires
        d < 10,
    ensures
        s@ =~= seq![digit_char(d as nat)],
{
    proof {
        reveal_strlit("0");
        reveal_strlit("1");
        reveal_strlit("2");
        reveal_strlit("3");
        reveal_strlit("4");
        reveal_strlit("5");
        reveal_strlit("6");
        reveal_strlit("7");
        reveal_strlit("8");
        reveal_strlit("9");
    }
    if d == 0 {
        String::from_str("0")
    } else if d == 1 {
        String::from_str("1")
    } else if d == 2 {
        String::from_str("2")
    } else if d == 3 {
        String::from_str("3")
    } else if d == 4 {
        String::from_str("4")
    } else if d == 5 {
        String::from_str("5")
    } else if d == 6 {
        String::from_str("6")
    } else if d == 7 {
        String::from_str("7")
    } else if d == 8 {
        String::from_str("8")
    } else {
        String::from_str("9")
    }
}

/// Renders an unsigned value in decimal.
pub fn u128_to_dec(n: u128) -> (s: String)
    ensures
        s@ == dec_str(n as nat),
    decreases n,
{
    if n < 10 {
        digit_string(n)
    } else {
        let mut s = u128_to_dec(n / 10);
        let d = digit_string(n % 10);
        s.append(d.as_str());
        proof {
            assert(s@ =~= dec_str((n / 10) as nat).push(digit_char((n % 10) as nat)));
        }
        s
    }
}

/// Renders a signed value in decimal.
pub fn i128_to_dec(n: i128) -> (s: String)
    ensures
        s@ == int_dec_str(n as int),
{
    if n >= 0 {
        u128_to_dec(n as u128)
    } else {
        // Avoid the overflow of negating i128::MIN directly.
        let mag: u128 = ((-(n + 1)) as u128) + 1;
        proof {
            reveal_strlit("-");
        }
        let mut s = String::from_str("-");
        let d = u128_to_dec(mag);
        s.append(d.as_str());
        proof {
            assert(s@ =~= seq!['-'] + dec_str(mag as nat));
        }
        s
    }
}

/// Computes `10^n` for exponents that fit a `u128`.
pub fn pow10_u128(n: u32) -> (p: u128)
    requires
        n <= 38,
    ensures
        p == pow10(n as nat),
    decreases n,
{
    if n == 0 {
        1
    } else {
        let q = pow10_u128(n - 1);
        proof {
            lemma_pow10_38();
            lemma_pow10_mono(n as nat, 38);
        }
        10 * q
    }
}

/// Computes `256^n` for exponents below 16, which always fit a `u128`.
pub fn pow256_u128(n: usize) -> (p: u128)
    requires
        n <= 15,
    ensures
        p == pow256(n as nat),
    decreases n,
{
    if n == 0 {
        1
    } else {
        let q = pow256_u128(n - 1);
        proof {
            lemma_pow256_mono(n as nat, 15);
            assert(pow256(15) == 0x1000000000000000000000000000000) by {
                reveal_with_fuel(pow256, 16);
            }
        }
        256 * q
    }
}

pub proof fn lemma_pow10_pos(n: nat)
    ensures
        pow10(n) >= 1,
    decreases n,
{
    if n > 0 {
        lemma_pow10_pos((n - 1) as nat);
    }
}

pub proof fn lemma_pow10_mono(m: nat, n: nat)
    requires
        m <= n,
    ensures
        pow10(m) <= pow10(n),
    decreases n,
{
    if m < n {
        lemma_pow10_mono(m, (n - 1) as nat);
        lemma_pow10_pos((n - 1) as nat);
    }
}

pub proof fn lemma_pow10_38()
    ensures
        pow10(38) <= u128::MAX,
{
    reveal_with_fuel(pow10, 40);
}

} // verus!
