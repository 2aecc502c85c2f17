//! The compact (variable-length) unsigned integer encoding: a
//! self-delimiting scheme where the two low bits of the first byte tag how
//! many bytes the value occupies.
//!
//! Tag 0: the value, at most 63, rides in the remaining six bits of the one
//! byte.  Tag 1: the value rides in the remaining 14 bits of two
//! little-endian bytes.  Tag 2: in the remaining 30 bits of four bytes.
//! Tag 3: the six remaining bits give the count of following value bytes
//! minus four; the decoder caps that count at 16 so the value fits 128
//! bits.

use vstd::prelude::*;
use crate::cursor::ByteCursor;
use crate::error::DecodeError;
use crate::num::{le_bytes_of, le_to_nat, lemma_le_bytes_of_len, lemma_le_bytes_value,
    lemma_le_to_nat_bound, lemma_pow256_mono, pow256};

verus! {

/// The fewest little-endian bytes that can carry `v`.
pub open spec fn min_len(v: nat) -> nat
    decreases v,
{
    if v < 256 {
        1
    } else {
        1 + min_len(v / 256)
    }
}

pub proof fn lemma_min_len_le(v: nat, n: nat)
    requires
        v < pow256(n),
        n >= 1,
    ensures
        min_len(v) <= n,
    decreases n,
{
    if v >= 256 {
        assert(pow256(n) == 256 * pow256((n - 1) as nat));
        assert(v / 256 < pow256((n - 1) as nat)) by (nonlinear_arith)
            requires
                v < 256 * pow256((n - 1) as nat),
        ;
        assert(pow256(1) == 256) by {
            reveal_with_fuel(pow256, 2);
        }
        lemma_pow256_mono(1, (n - 1) as nat);
        lemma_min_len_le(v / 256, (n - 1) as nat);
    }
}

pub proof fn lemma_min_len_bound(v: nat)
    ensures
        v < pow256(min_len(v)),
    decreases v,
{
    if v < 256 {
        assert(pow256(1) == 256) by {
            reveal_with_fuel(pow256, 2);
        }
    } else {
        lemma_min_len_bound(v / 256);
        let m = min_len(v / 256);
        assert(v < 256 * pow256(m)) by (nonlinear_arith)
            requires
                v / 256 < pow256(m),
                v >= 256,
        ;
    }
}

pub proof fn lemma_min_len_ge(v: nat, n: nat)
    requires
        v >= pow256(n),
    ensures
        min_len(v) >= n + 1,
    decreases n,
{
    if n > 0 {
        assert(pow256(n) == 256 * pow256((n - 1) as nat));
        crate::num::lemma_pow256_pos((n - 1) as nat);
        assert(v >= 256);
        assert(v / 256 >= pow256((n - 1) as nat)) by (nonlinear_arith)
            requires
                v >= 256 * pow256((n - 1) as nat),
        ;
        lemma_min_len_ge(v / 256, (n - 1) as nat);
    }
}

/// The compact encoding of an unsigned value.
pub open spec fn compact_encode(v: nat) -> Seq<u8> {
    if v < 64 {
        seq![(4 * v) as u8]
    } else if v < 16384 {
        le_bytes_of(4 * v + 1, 2)
    } else if v < 0x4000_0000 {
        le_bytes_of(4 * v + 2, 4)
    } else {
        seq![(4 * (min_len(v) - 4) + 3) as u8] + le_bytes_of(v, min_len(v))
    }
}

/// What a compact decode at `pos` yields: the value and the position after
/// it, or the error.  The decoder accepts any tagged form whose length it
/// can satisfy; a tag-3 length over 16 bytes would not fit a 128-bit value.
pub open spec fn compact_decode(bytes: Seq<u8>, pos: int) -> Result<(nat, int), DecodeError> {
    if !(0 <= pos < bytes.len()) {
        Err(DecodeError::UnexpectedEndOfInput)
    } else {
        let b0 = bytes[pos];
        if b0 % 4 == 0 {
            Ok(((b0 / 4) as nat, pos + 1))
        } else if b0 % 4 == 1 {
            if pos + 2 <= bytes.len() {
                Ok((le_to_nat(bytes.subrange(pos, pos + 2)) / 4, pos + 2))
            } else {
                Err(DecodeError::UnexpectedEndOfInput)
            }
        } else if b0 % 4 == 2 {
            if pos + 4 <= bytes.len() {
                Ok((le_to_nat(bytes.subrange(pos, pos + 4)) / 4, pos + 4))
            } else {
                Err(DecodeError::UnexpectedEndOfInput)
            }
        } else {
            let n = b0 / 4 + 4;
            if n > 16 {
                Err(DecodeError::CompactTooLarge)
            } else if pos + 1 + n <= bytes.len() {
                Ok((le_to_nat(bytes.subrange(pos + 1, pos + 1 + n)), pos + 1 + n))
            } else {
                Err(DecodeError::UnexpectedEndOfInput)
            }
        }
    }
}

/// Decodes one compact integer off the cursor, consuming exactly the bytes
/// the tag announces.
pub fn decode_compact(c: &mut ByteCursor) -> (r: Result<u128, DecodeError>)
    requires
        old(c).wf(),
    ensures
        final(c).wf(),
        final(c).bytes@ == old(c).bytes@,
        compact_decode(old(c).bytes@, old(c).pos as int) matches Ok(vp) ==> r == Ok::<
            u128,
            DecodeError,
        >(vp.0 as u128) && final(c).pos == vp.1,
        compact_decode(old(c).bytes@, old(c).pos as int) matches Err(e) ==> r == Err::<
            u128,
            DecodeError,
        >(e),
{
    let b0 = match c.peek_byte() {
        Some(b) => b,
        None => { return Err(DecodeError::UnexpectedEndOfInput) },
    };
    let mode = b0 % 4;
    if mode == 0 {
        let _ = c.read_byte();
        Ok((b0 / 4) as u128)
    } else if mode == 1 {
        proof {
            lemma_le_to_nat_bound(old(c).bytes@.subrange(old(c).pos as int, old(c).pos + 2));
            assert(pow256(2) == 65536) by {
                reveal_with_fuel(pow256, 3);
            }
        }
        match c.read_le(2) {
            Some(w) => Ok(w / 4),
            None => Err(DecodeError::UnexpectedEndOfInput),
        }
    } else if mode == 2 {
        proof {
            lemma_le_to_nat_bound(old(c).bytes@.subrange(old(c).pos as int, old(c).pos + 4));
            assert(pow256(4) == 0x100000000) by {
                reveal_with_fuel(pow256, 5);
            }
        }
        match c.read_le(4) {
            Some(w) => Ok(w / 4),
            None => Err(DecodeError::UnexpectedEndOfInput),
        }
    } else {
        let n = b0 / 4 + 4;
        if n > 16 {
            return Err(DecodeError::CompactTooLarge);
        }
        let _ = c.read_byte();
        proof {
            lemma_le_to_nat_bound(
                old(c).bytes@.subrange(old(c).pos + 1, old(c).pos + 1 + n as int),
            );
            lemma_pow256_mono(n as nat, 16);
            assert(pow256(16) == 0x100000000000000000000000000000000) by {
                reveal_with_fuel(pow256, 17);
            }
        }
        match c.read_le(n as usize) {
            Some(w) => Ok(w),
            None => Err(DecodeError::UnexpectedEndOfInput),
        }
    }
}

/// Writes the `n`-byte little-endian encoding of `v`.
pub fn le_bytes_vec(v: u128, n: usize) -> (r: Vec<u8>)
    ensures
        r@ == le_bytes_of(v as nat, n as nat),
{
    let mut r: Vec<u8> = Vec::new();
    let mut cur = v;
    let mut i: usize = 0;
    while i < n
        invariant
            i <= n,
            r@.len() == i,
            le_bytes_of(v as nat, n as nat) =~= r@ + le_bytes_of(cur as nat, (n - i) as nat),
        decreases n - i,
    {
        let ghost pre = r@;
        let b = (cur % 256) as u8;
        r.push(b);
        proof {
            assert(le_bytes_of(cur as nat, (n - i) as nat) =~= seq![b] + le_bytes_of(
                (cur / 256) as nat,
                (n - i - 1) as nat,
            ));
            assert(pre + le_bytes_of(cur as nat, (n - i) as nat) =~= r@ + le_bytes_of(
                (cur / 256) as nat,
                (n - i - 1) as nat,
            ));
        }
        cur = cur / 256;
        i = i + 1;
    }
    proof {
        assert(le_bytes_of(v as nat, n as nat) =~= r@);
    }
    r
}

/// The fewest bytes that can carry `v`; at most 16 for a 128-bit value.
fn min_len_u128(v: u128) -> (n: usize)
    ensures
        n == min_len(v as nat),
        1 <= n <= 16,
    decreases v,
{
    proof {
        assert(pow256(16) == 0x100000000000000000000000000000000) by {
            reveal_with_fuel(pow256, 17);
        }
        lemma_min_len_le(v as nat, 16);
    }
    if v < 256 {
        1
    } else {
        1 + min_len_u128(v / 256)
    }
}

/// Encodes an unsigned value compactly; the inverse of
/// [`decode_compact`].
pub fn encode_compact(v: u128) -> (r: Vec<u8>)
    ensures
        r@ == compact_encode(v as nat),
{
    if v < 64 {
        let mut r: Vec<u8> = Vec::new();
        r.push((v as u8) * 4);
        proof {
            assert(r@ =~= compact_encode(v as nat));
        }
        r
    } else if v < 16384 {
        le_bytes_vec(4 * v + 1, 2)
    } else if v < 0x4000_0000 {
        le_bytes_vec(4 * v + 2, 4)
    } else {
        let n = min_len_u128(v);
        proof {
            assert(pow256(3) == 0x1000000) by {
                reveal_with_fuel(pow256, 4);
            }
            lemma_min_len_ge(v as nat, 3);
        }
        let mut r: Vec<u8> = Vec::new();
        r.push(((n as u8) - 4) * 4 + 3);
        let mut tail = le_bytes_vec(v, n);
        r.append(&mut tail);
        proof {
            assert(r@ =~= compact_encode(v as nat));
        }
        r
    }
}

/// Any value a compact decode yields fits 128 bits.
pub proof fn lemma_compact_decode_bound(bytes: Seq<u8>, pos: int)
    ensures
        compact_decode(bytes, pos) matches Ok(vp) ==> vp.0 < pow256(16),
{
    assert(pow256(16) == 0x100000000000000000000000000000000) by {
        reveal_with_fuel(pow256, 17);
    }
    if 0 <= pos < bytes.len() {
        let b0 = bytes[pos];
        if b0 % 4 == 1 {
            if pos + 2 <= bytes.len() {
                lemma_le_to_nat_bound(bytes.subrange(pos, pos + 2));
                lemma_pow256_mono(2, 16);
            }
        } else if b0 % 4 == 2 {
            if pos + 4 <= bytes.len() {
                lemma_le_to_nat_bound(bytes.subrange(pos, pos + 4));
                lemma_pow256_mono(4, 16);
            }
        } else if b0 % 4 == 3 {
            let n = b0 / 4 + 4;
            if n <= 16 && pos + 1 + n <= bytes.len() {
                lemma_le_to_nat_bound(bytes.subrange(pos + 1, pos + 1 + n));
                lemma_pow256_mono(n as nat, 16);
            }
        }
    }
}

/// Any value a compact decode yields is below `2^128`.
pub proof fn lemma_compact_value_fits(bytes: Seq<u8>, pos: int)
    ensures
        compact_decode(bytes, pos) matches Ok(vp) ==> vp.0 < 0x100000000000000000000000000000000,
{
    lemma_compact_decode_bound(bytes, pos);
    assert(pow256(16) == 0x100000000000000000000000000000000) by {
        reveal_with_fuel(pow256, 17);
    }
}

/// Compact round trip: encoding any 128-bit value and decoding it back
/// yields the value itself, and the decode consumes exactly the bytes the
/// encoding prescribes, whatever follows them.
pub proof fn lemma_compact_round_trip(v: nat, rest: Seq<u8>)
    requires
        v < pow256(16),
    ensures
        compact_decode(compact_encode(v) + rest, 0) == Ok::<(nat, int), DecodeError>(
            (v, compact_encode(v).len() as int),
        ),
{
    let enc = compact_encode(v);
    let all = enc + rest;
    assert(pow256(2) == 65536 && pow256(4) == 0x100000000) by {
        reveal_with_fuel(pow256, 5);
    }
    if v < 64 {
        assert(all[0] == (4 * v) as u8);
        assert((4 * v) % 4 == 0);
    } else if v < 16384 {
        let w = 4 * v + 1;
        lemma_le_bytes_of_len(w, 2);
        lemma_le_bytes_value(w, 2);
        assert(all.subrange(0, 2) =~= enc);
        assert(all[0] == enc[0] == (w % 256) as u8);
        let q = w / 256;
        assert(w == 256 * q + w % 256);
        assert((w % 256) % 4 == 1) by (nonlinear_arith)
            requires
                w % 256 == w - 256 * (w / 256),
                w == 4 * v + 1,
        ;
        assert(w / 4 == v);
    } else if v < 0x4000_0000 {
        let w = 4 * v + 2;
        lemma_le_bytes_of_len(w, 4);
        lemma_le_bytes_value(w, 4);
        assert(all.subrange(0, 4) =~= enc);
        assert(all[0] == enc[0] == (w % 256) as u8);
        assert((w % 256) % 4 == 2) by (nonlinear_arith)
            requires
                w % 256 == w - 256 * (w / 256),
                w == 4 * v + 2,
        ;
        assert(w / 4 == v);
    } else {
        let m = min_len(v);
        lemma_min_len_bound(v);
        lemma_min_len_le(v, 16);
        assert(pow256(3) == 0x1000000) by {
            reveal_with_fuel(pow256, 4);
        }
        lemma_min_len_ge(v, 3);
        lemma_le_bytes_of_len(v, m);
        lemma_le_bytes_value(v, m);
        let first = (4 * (m - 4) + 3) as u8;
        assert(all[0] == first);
        assert(first % 4 == 3 && first / 4 + 4 == m);
        assert(all.subrange(1, 1 + m as int) =~= le_bytes_of(v, m));
        assert(enc.len() == 1 + m);
    }
}

} // verus!
