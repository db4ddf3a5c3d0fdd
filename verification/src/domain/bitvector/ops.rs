//! Further operations on concrete bitvectors: exclusive or, equality,
//! unsigned comparison, left shift and unsigned division.
use vstd::arithmetic::div_mod::*;
use vstd::arithmetic::mul::*;
use vstd::arithmetic::power2::*;
use vstd::bits::*;
use vstd::prelude::*;

use super::{lemma_modulus_bounds, modulus_u128, ConcreteBitvector, RBound};

verus! {

/// Bitwise operations on values below `2^width` stay below it.
pub proof fn lemma_bitwise_fits(a: u64, b: u64, width: u32)
    requires
        width <= 64,
        (a as nat) < pow2(width as nat),
        (b as nat) < pow2(width as nat),
    ensures
        ((a ^ b) as nat) < pow2(width as nat),
        ((a & b) as nat) < pow2(width as nat),
        ((a | b) as nat) < pow2(width as nat),
{
    lemma_modulus_bounds(RBound { width });
    if width < 64 {
        lemma_u64_pow2_no_overflow(width as nat);
        lemma_u64_shl_is_mul(1u64, width as u64);
        let w = width as u64;
        assert(a < (1u64 << w) && b < (1u64 << w) ==> (a ^ b) < (1u64 << w) && (a & b) < (1u64 << w) && (a
            | b) < (1u64 << w)) by (bit_vector)
            requires
                w < 64,
        ;
    }
}

impl ConcreteBitvector {
    /// Bitwise exclusive or.
    pub fn bit_xor(self, rhs: ConcreteBitvector) -> (r: ConcreteBitvector)
        requires
            self.wf(),
            rhs.wf(),
            self.bound == rhs.bound,
        ensures
            r.wf(),
            r.bound == self.bound,
            r.value == self.value ^ rhs.value,
    {
        proof {
            lemma_bitwise_fits(self.value, rhs.value, self.bound.width);
        }
        ConcreteBitvector { value: self.value ^ rhs.value, bound: self.bound }
    }

    /// Equality, giving a single-bit result.
    pub fn eq(self, rhs: ConcreteBitvector) -> (r: ConcreteBitvector)
        ensures
            r.wf(),
            r.bound.width == 1,
            r.value == (if self.value == rhs.value { 1u64 } else { 0u64 }),
    {
        ConcreteBitvector::from_bool(self.value == rhs.value)
    }

    /// Inequality, giving a single-bit result.
    pub fn ne(self, rhs: ConcreteBitvector) -> (r: ConcreteBitvector)
        ensures
            r.wf(),
            r.bound.width == 1,
            r.value == (if self.value != rhs.value { 1u64 } else { 0u64 }),
    {
        ConcreteBitvector::from_bool(self.value != rhs.value)
    }

    /// Unsigned less-than comparison, giving a single-bit result.
    pub fn ult(self, rhs: ConcreteBitvector) -> (r: ConcreteBitvector)
        ensures
            r.wf(),
            r.bound.width == 1,
            r.value == (if self.value < rhs.value { 1u64 } else { 0u64 }),
    {
        ConcreteBitvector::from_bool(self.value < rhs.value)
    }

    /// Logical shift left; amounts at least the width give zero.
    pub fn logic_shl(self, amount: ConcreteBitvector) -> (r: ConcreteBitvector)
        requires
            self.wf(),
            amount.wf(),
        ensures
            r.wf(),
            r.bound == self.bound,
            r.val() == (self.val() * pow2(amount.val())) % self.modulus(),
    {
        proof {
            lemma_modulus_bounds(self.bound);
            lemma_pow2_pos(amount.val());
        }
        if amount.value >= self.bound.width as u64 {
            proof {
                let w = self.width();
                let a = amount.val();
                lemma_pow2_adds(w, (a - w) as nat);
                lemma_pow2_pos((a - w) as nat);
                lemma_mul_is_associative(self.val() as int, pow2((a - w) as nat) as int, pow2(w) as int);
                lemma_mul_is_commutative(pow2(w) as int, pow2((a - w) as nat) as int);
                lemma_mod_multiples_basic((self.val() * pow2((a - w) as nat)) as int, pow2(w) as int);
            }
            ConcreteBitvector { value: 0, bound: self.bound }
        } else {
            let m = modulus_u128(self.bound);
            proof {
                lemma_u64_pow2_no_overflow(amount.val());
                lemma_u64_shl_is_mul(1u64, amount.value);
            }
            let p = (1u64 << amount.value) as u128;
            proof {
                assert((self.value as u128) * p <= 0xffff_ffff_ffff_ffffu128 * 0xffff_ffff_ffff_ffffu128) by (nonlinear_arith)
                    requires
                        p <= 0xffff_ffff_ffff_ffffu128,
                ;
            }
            let shifted = ((self.value as u128) * p) % m;
            ConcreteBitvector { value: shifted as u64, bound: self.bound }
        }
    }

    /// Unsigned division; division by zero gives all ones.
    pub fn udiv(self, rhs: ConcreteBitvector) -> (r: ConcreteBitvector)
        requires
            self.wf(),
            rhs.wf(),
            self.bound == rhs.bound,
        ensures
            r.wf(),
            r.bound == self.bound,
            r.val() == (if rhs.val() == 0 {
                (self.modulus() - 1) as nat
            } else {
                self.val() / rhs.val()
            }),
    {
        proof {
            lemma_modulus_bounds(self.bound);
        }
        if rhs.value == 0 {
            let m = modulus_u128(self.bound);
            ConcreteBitvector { value: (m - 1) as u64, bound: self.bound }
        } else {
            proof {
                lemma_div_is_ordered_by_denominator(self.val() as int, 1, rhs.val() as int);
            }
            ConcreteBitvector { value: self.value / rhs.value, bound: self.bound }
        }
    }

    /// Unsigned remainder; the remainder of division by zero is the dividend.
    pub fn urem(self, rhs: ConcreteBitvector) -> (r: ConcreteBitvector)
        requires
            self.wf(),
            rhs.wf(),
            self.bound == rhs.bound,
        ensures
            r.wf(),
            r.bound == self.bound,
            r.val() == (if rhs.val() == 0 {
                self.val()
            } else {
                self.val() % rhs.val()
            }),
    {
        if rhs.value == 0 {
            self
        } else {
            proof {
                lemma_mod_bound(self.val() as int, rhs.val() as int);
            }
            ConcreteBitvector { value: self.value % rhs.value, bound: self.bound }
        }
    }
}

} // verus!
