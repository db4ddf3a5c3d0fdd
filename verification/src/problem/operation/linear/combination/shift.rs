//! Shifts of linear combinations by constant amounts.
use vstd::arithmetic::power2::*;
use vstd::bits::*;
use vstd::prelude::*;

use crate::domain::bitvector::{lemma_modulus_bounds, ConcreteBitvector};
use crate::problem::operation::linear::slice::LinearSlice;
use crate::problem::terms::{coeff_of, lemma_terms_canonical};

use super::LinearCombination;

verus! {

impl LinearCombination {
    /// Logical shift left by a constant amount: scaling by `2^(amount mod 64)`
    /// (the amount is taken modulo 64). Fails where the amount is not constant.
    pub fn logic_shl(self, amount: LinearCombination) -> (r: Result<LinearCombination, ()>)
        requires
            self.wf(),
            amount.wf(),
            self.constant.bound == amount.constant.bound,
        ensures
            r is Ok <==> amount.monomials@.len() == 0,
            r matches Ok(c) ==> {
                let m = self.modulus() as int;
                let multiplier = (pow2((amount.constant.value % 64) as nat) as int) % m;
                &&& c.wf()
                &&& c.constant.bound == self.constant.bound
                &&& c.constant.val() as int == (self.constant.val() * multiplier) % m
                &&& forall|k: LinearSlice| #[trigger] c.coefficient(k) as int == (multiplier * self.coefficient(k)) % m
                &&& forall|tv: spec_fn(LinearSlice) -> int| #[trigger] c.eval(tv) == (multiplier * self.eval(tv)) % m
            },
    {
        let bound = self.bound();
        let Some(amount) = amount.constant_value() else {
            return Err(());
        };
        let amount = amount.to_u64();
        let shift = amount & 63;
        proof {
            assert(amount & 63 == amount % 64) by (bit_vector);
            lemma_u64_pow2_no_overflow(shift as nat);
            lemma_u64_shl_is_mul(1u64, shift);
            lemma_modulus_bounds(bound);
        }
        let multiplier = 1u64 << shift;
        let multiplier = ConcreteBitvector::from_masked_u64(multiplier, bound);
        let mut result = self;
        result.scale(multiplier);
        Ok(result)
    }

    /// Logical shift right by a constant amount, where the combination
    /// cannot overflow: a constant is shifted, a single slice loses its
    /// lowest bits (all of them for an amount of at least its width).
    pub fn logic_shr(self, amount: LinearCombination) -> (r: Result<LinearCombination, ()>)
        requires
            self.wf(),
            amount.wf(),
            self.constant.bound == amount.constant.bound,
        ensures
            r is Ok <==> amount.monomials@.len() == 0 && self.spec_cannot_overflow(),
            r matches Ok(c) ==> {
                &&& c.wf()
                &&& c.constant.bound == self.constant.bound
                &&& self.monomials@.len() == 0 ==> c.monomials@.len() == 0 && c.constant.val()
                    == self.constant.val() / pow2(amount.constant.val())
                &&& self.monomials@.len() != 0 ==> {
                    let (slice, factor) = self.monomials@[0];
                    &&& c.constant.value == 0
                    &&& c.monomials@ == if amount.constant.value < slice.width {
                        seq![
                            (LinearSlice {
                                formula_id: slice.formula_id,
                                lsb: (slice.lsb + amount.constant.value) as u32,
                                width: (slice.width - amount.constant.value) as u32,
                            }, factor),
                        ]
                    } else {
                        Seq::<(LinearSlice, ConcreteBitvector)>::empty()
                    }
                }
            },
    {
        let bound = self.bound();
        let Some(amount) = amount.constant_value() else {
            return Err(());
        };
        if self.might_overflow() {
            return Err(());
        }
        let mut result = self;
        if result.monomials.len() == 0 {
            result.constant = result.constant.logic_shr(amount);
            return Ok(result);
        }
        if result.monomials.len() != 1 {
            return Err(());
        }
        let (slice, factor) = result.monomials[0];
        if !factor.is_one() {
            return Err(());
        }
        proof {
            assert(result.as_polynomial().linear_terms@[0].0.wf());
        }
        let amount = amount.to_u64();
        if amount > u32::MAX as u64 {
            // more than any width: every bit is dropped
            return Ok(Self::empty(bound));
        }
        let amount = amount as u32;
        if amount < slice.width {
            // the lowest bits are dropped: the slice starts higher and is narrower
            let shifted = LinearSlice::new(slice.formula_id, slice.lsb + amount, slice.width - amount);
            let mut monomials: Vec<(LinearSlice, ConcreteBitvector)> = Vec::new();
            monomials.push((shifted, factor));
            let zero = ConcreteBitvector::zero(bound);
            let r = Self::new(zero, monomials);
            proof {
                let expected = seq![(shifted, factor)];
                assert(monomials@ =~= expected);
                assert forall|k: LinearSlice| #[trigger] coeff_of(r.monomials@, k) == coeff_of(expected, k) by {
                    assert(r.coefficient(k) == coeff_of(monomials@, k));
                }
                lemma_terms_canonical(r.monomials@, expected, bound);
            }
            Ok(r)
        } else {
            Ok(Self::empty(bound))
        }
    }

    /// Arithmetic shift right is not handled: it always fails.
    pub fn arith_shr(self, amount: LinearCombination) -> (r: Result<LinearCombination, ()>)
        ensures
            r is Err,
    {
        Err(())
    }
}

} // verus!
