//! Fixed-width wrapping classical registers.

use vstd::prelude::*;

verus! {

use vstd::arithmetic::power2::{pow2, lemma_pow2_pos, lemma_pow2_strictly_increases, lemma2_to64, lemma2_to64_rest};
use vstd::arithmetic::div_mod::{lemma_mod_multiples_vanish, lemma_small_mod};

/// A classical register of bit-width `bits`: the stored value is kept within
/// `[0, 2^bits)` by reducing modulo `2^bits` on every write.
///
/// The width must be strictly smaller than the 64-bit storage width; a wider
/// word is a configuration error that `Word::new` rejects.
#[derive(Clone, Copy, Debug)]
pub struct Word {
    pub bits: u16,
    pub data: u64,
}

impl Word {
    /// The width fits the storage and the stored value is already reduced.
    pub open spec fn wf(self) -> bool {
        &&& self.bits < 64
        &&& (self.data as nat) < pow2(self.bits as nat)
    }

    /// The value this register reads back as.
    pub open spec fn spec_val(self) -> int {
        self.data as int
    }

    /// The modulus `2^bits` that governs every write.
    pub open spec fn modulus(self) -> int {
        pow2(self.bits as nat) as int
    }

    /// Builds a zeroed register of the given width, rejecting widths that do
    /// not leave at least one free storage bit.
    pub fn new(bits: u16) -> (w: Option<Word>)
        ensures
            bits < 64 ==> w == Some(Word { bits, data: 0u64 }),
            bits < 64 ==> (w matches Some(ww) && ww.wf()),
            bits >= 64 ==> w is None,
    {
        if bits < 64 {
            proof {
                lemma_pow2_pos(bits as nat);
            }
            Some(Word { bits, data: 0 })
        } else {
            None
        }
    }

    /// Reads the register: the result is the stored value, already reduced to
    /// `[0, 2^bits)`.
    pub fn get_val(&self) -> (r: i64)
        requires
            self.wf(),
        ensures
            r == self.spec_val(),
            0 <= r < self.modulus(),
    {
        proof {
            if self.bits < 63 {
                lemma_pow2_strictly_increases(self.bits as nat, 63);
            }
            lemma2_to64_rest();
        }
        self.data as i64
    }

    /// Writes `val` reduced modulo `2^bits` (Euclidean: the stored value is
    /// always nonnegative, so a negative `val` wraps around).
    pub fn set_to(&mut self, val: i64)
        requires
            old(self).wf(),
        ensures
            final(self).wf(),
            final(self).bits == old(self).bits,
            final(self).spec_val() == (val as int) % old(self).modulus(),
    {
        proof {
            lemma_pow2_pos(self.bits as nat);
            if self.bits < 63 {
                lemma_pow2_strictly_increases(self.bits as nat, 63);
            }
            lemma2_to64();
            lemma2_to64_rest();
        }
        let m: u64 = 1u64 << self.bits;
        proof {
            vstd::bits::lemma_u64_pow2_no_overflow(self.bits as nat);
            vstd::bits::lemma_u64_shl_is_mul(1u64, self.bits as u64);
        }
        if val >= 0 {
            self.data = (val as u64) % m;
            proof {
                vstd::arithmetic::div_mod::lemma_mod_bound(val as int, m as int);
                assert(self.data == (val as int) % (m as int));
            }
        } else {
            // val == -(neg + 1), with 0 <= neg.
            let neg: u64 = (-(val + 1)) as u64;
            let s: u64 = neg % m;
            proof {
                vstd::arithmetic::div_mod::lemma_mod_bound(neg as int, m as int);
            }
            self.data = m - 1 - s;
            proof {
                let mi = m as int;
                let q = neg as int / mi;
                vstd::arithmetic::div_mod::lemma_fundamental_div_mod(neg as int, mi);
                // val = -(q*m + s + 1), so val mod m == (-(s + 1)) mod m.
                assert(val as int == (-q) * mi + (-(s + 1))) by (nonlinear_arith)
                    requires
                        neg as int == q * mi + (s as int),
                        val as int == -(neg as int) - 1,
                ;
                lemma_mod_multiples_vanish(-q, -(s as int + 1), mi);
                // (m - (s + 1)) mod m == (-(s + 1)) mod m, and the left side is small.
                lemma_mod_multiples_vanish(1, -(s as int + 1), mi);
                lemma_small_mod((mi - 1 - s) as nat, mi as nat);
                assert((val as int) % mi == (-(s as int + 1)) % mi);
                assert((mi - 1 - s) % mi == mi - 1 - s);
                assert(self.data == (val as int) % mi);
            }
        }
    }
}

} // verus!
