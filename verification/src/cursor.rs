//! A mutable position marker over a byte sequence: each successful decode
//! step advances it, and full consumption at the end of a record is the
//! correctness invariant of the decoder.

use vstd::prelude::*;

verus! {

/// A cursor over a byte payload.  The decoder only ever moves it forward.
pub struct ByteCursor {
    pub bytes: Vec<u8>,
    pub pos: usize,
}

impl ByteCursor {
    /// The cursor is well formed when its position lies within the payload.
    pub open spec fn wf(&self) -> bool {
        self.pos <= self.bytes.len()
    }

    /// How many bytes are still unread.
    pub open spec fn spec_remaining(&self) -> int {
        self.bytes@.len() - self.pos
    }

    /// The bytes still unread, in order.
    pub open spec fn remaining_bytes(&self) -> Seq<u8> {
        self.bytes@.subrange(self.pos as int, self.bytes@.len() as int)
    }

    /// Starts a cursor at the beginning of a payload.
    pub fn new(bytes: Vec<u8>) -> (c: ByteCursor)
        ensures
            c.wf(),
            c.bytes@ == bytes@,
            c.pos == 0,
    {
        ByteCursor { bytes, pos: 0 }
    }

    /// How many bytes are still unread.
    pub fn remaining(&self) -> (n: usize)
        requires
            self.wf(),
        ensures
            n == self.spec_remaining(),
    {
        self.bytes.len() - self.pos
    }

    /// Whether every byte of the payload has been consumed.
    pub fn is_exhausted(&self) -> (b: bool)
        requires
            self.wf(),
        ensures
            b == (self.spec_remaining() == 0),
    {
        self.pos == self.bytes.len()
    }

    /// Looks at the next byte without consuming it.
    pub fn peek_byte(&self) -> (r: Option<u8>)
        requires
            self.wf(),
        ensures
            self.spec_remaining() == 0 ==> r is None,
            self.spec_remaining() > 0 ==> r == Some(self.bytes@[self.pos as int]),
    {
        if self.pos < self.bytes.len() {
            Some(self.bytes[self.pos])
        } else {
            None
        }
    }

    /// Reads `n` raw bytes and moves past them; `None` when fewer than `n`
    /// bytes are left.
    pub fn read_bytes(&mut self, n: usize) -> (r: Option<Vec<u8>>)
        requires
            old(self).wf(),
        ensures
            final(self).wf(),
            final(self).bytes@ == old(self).bytes@,
            old(self).spec_remaining() < n ==> r is None && final(self).pos == old(self).pos,
            old(self).spec_remaining() >= n ==> final(self).pos == old(self).pos + n && (
            r matches Some(v) && v@ == old(self).bytes@.subrange(
                old(self).pos as int,
                old(self).pos + n as int,
            )),
    {
        if self.bytes.len() - self.pos < n {
            return None;
        }
        let mut v: Vec<u8> = Vec::new();
        let mut i: usize = 0;
        while i < n
            invariant
                self.wf(),
                self.bytes@ == old(self).bytes@,
                self.pos == old(self).pos,
                i <= n,
                self.pos + n <= self.bytes@.len(),
                v@ =~= self.bytes@.subrange(self.pos as int, self.pos + i as int),
            decreases n - i,
        {
            let b = self.bytes[self.pos + i];
            v.push(b);
            i = i + 1;
            proof {
                assert(v@ =~= self.bytes@.subrange(self.pos as int, self.pos + i as int));
            }
        }
        self.pos = self.pos + n;
        Some(v)
    }

    /// Reads one byte and moves past it; `None` when the payload is spent.
    pub fn read_byte(&mut self) -> (r: Option<u8>)
        requires
            old(self).wf(),
        ensures
            final(self).wf(),
            final(self).bytes@ == old(self).bytes@,
            old(self).spec_remaining() == 0 ==> r is None && final(self).pos == old(self).pos,
            old(self).spec_remaining() > 0 ==> r == Some(old(self).bytes@[old(self).pos as int])
                && final(self).pos == old(self).pos + 1,
    {
        if self.pos < self.bytes.len() {
            let b = self.bytes[self.pos];
            self.pos = self.pos + 1;
            Some(b)
        } else {
            None
        }
    }

    /// Reads `n` bytes as an unsigned little-endian value and moves past
    /// them; `None` when fewer than `n` bytes are left.
    pub fn read_le(&mut self, n: usize) -> (r: Option<u128>)
        requires
            old(self).wf(),
            n <= 16,
        ensures
            final(self).wf(),
            final(self).bytes@ == old(self).bytes@,
            old(self).spec_remaining() < n ==> r is None && final(self).pos == old(self).pos,
            old(self).spec_remaining() >= n ==> final(self).pos == old(self).pos + n && r == Some(
                crate::num::le_to_nat(
                    old(self).bytes@.subrange(
                        old(self).pos as int,
                        old(self).pos + n as int,
                    ),
                ) as u128,
            ),
    {
        if self.bytes.len() - self.pos < n {
            return None;
        }
        let ghost window = self.bytes@.subrange(self.pos as int, self.pos + n as int);
        proof {
            crate::num::lemma_le_to_nat_bound(window);
            crate::num::lemma_pow256_mono(n as nat, 16);
            assert(crate::num::pow256(16) == 0x100000000000000000000000000000000) by {
                reveal_with_fuel(crate::num::pow256, 17);
            }
        }
        let mut acc: u128 = 0;
        let mut j: usize = n;
        while j > 0
            invariant
                self.wf(),
                self.bytes@ == old(self).bytes@,
                self.pos == old(self).pos,
                j <= n <= 16,
                self.pos + n <= self.bytes@.len(),
                window == self.bytes@.subrange(self.pos as int, self.pos + n as int),
                acc == crate::num::le_to_nat(window.subrange(j as int, n as int)),
            decreases j,
        {
            let ghost pre = window.subrange(j as int, n as int);
            j = j - 1;
            let b = self.bytes[self.pos + j];
            let ghost cur = window.subrange(j as int, n as int);
            proof {
                assert(cur[0] == window[j as int] == b);
                assert(cur.subrange(1, cur.len() as int) =~= pre);
                crate::num::lemma_le_to_nat_bound(cur);
                crate::num::lemma_pow256_mono(cur.len() as nat, 16);
                assert(crate::num::pow256(16) == 0x100000000000000000000000000000000) by {
                    reveal_with_fuel(crate::num::pow256, 17);
                }
                assert(crate::num::le_to_nat(cur) == b + 256 * crate::num::le_to_nat(pre));
            }
            acc = acc * 256 + (b as u128);
        }
        proof {
            assert(window.subrange(0, n as int) =~= window);
        }
        self.pos = self.pos + n;
        Some(acc)
    }

    /// Hands out the unread rest of the payload and consumes it all.
    pub fn take_rest(&mut self) -> (r: Vec<u8>)
        requires
            old(self).wf(),
        ensures
            final(self).wf(),
            final(self).bytes@ == old(self).bytes@,
            final(self).spec_remaining() == 0,
            r@ == old(self).remaining_bytes(),
    {
        let mut r: Vec<u8> = Vec::new();
        while self.pos < self.bytes.len()
            invariant
                self.wf(),
                self.bytes@ == old(self).bytes@,
                old(self).pos <= self.pos,
                r@ =~= old(self).bytes@.subrange(old(self).pos as int, self.pos as int),
            decreases self.bytes@.len() - self.pos,
        {
            let b = self.bytes[self.pos];
            r.push(b);
            self.pos = self.pos + 1;
        }
        proof {
            assert(r@ =~= old(self).remaining_bytes());
        }
        r
    }
}

} // verus!
