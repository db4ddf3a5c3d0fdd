//! Bitwise conjunction and disjunction of a polynomial with a constant.
use vstd::arithmetic::div_mod::*;
use vstd::arithmetic::power2::*;
use vstd::bits::*;
use vstd::prelude::*;

use crate::domain::bitvector::{lemma_modulus_bounds, ConcreteBitvector};
use crate::problem::terms::terms_sum;
use crate::problem::operation::linear::monomial::LinearMonomial;
use crate::problem::operation::linear::slice::LinearSlice;

use super::ext::lemma_pow2_le;
use super::LinearPolynomial;

verus! {

/// The index of the highest set bit (zero for zero and one).
pub open spec fn highest_bit(x: nat) -> nat
    decreases x,
{
    if x < 2 {
        0
    } else {
        1 + highest_bit(x / 2)
    }
}

/// The highest set bit of a positive number lies where its power of two is.
pub proof fn lemma_highest_bit_bounds(x: nat)
    requires
        x >= 1,
    ensures
        pow2(highest_bit(x)) <= x < pow2(highest_bit(x) + 1),
    decreases x,
{
    lemma2_to64();
    if x >= 2 {
        let h = highest_bit(x / 2);
        lemma_highest_bit_bounds(x / 2);
        lemma_pow2_unfold(h + 1);
        lemma_pow2_unfold(h + 2);
        assert(highest_bit(x) == h + 1);
    }
}

/// A positive number is a power of two exactly when it equals the power of
/// its highest bit.
pub proof fn lemma_pow2_highest_bit(x: nat)
    requires
        x >= 1,
    ensures
        is_pow2(x as int) <==> x == pow2(highest_bit(x)),
    decreases x,
{
    reveal(is_pow2);
    lemma2_to64();
    if x >= 2 {
        let h = highest_bit(x / 2);
        lemma_pow2_highest_bit(x / 2);
        lemma_pow2_unfold(h + 1);
        assert(highest_bit(x) == h + 1);
    }
}

/// The index of the highest set bit of a positive number.
fn find_highest_bit(x: u64) -> (r: u32)
    requires
        x >= 1,
    ensures
        r == highest_bit(x as nat),
        r < 64,
{
    let mut y = x;
    let mut t: u32 = 0;
    proof {
        lemma_highest_bit_bounds(x as nat);
        lemma2_to64();
        lemma2_to64_rest();
        if highest_bit(x as nat) >= 64 {
            lemma_pow2_le(64, highest_bit(x as nat));
        }
    }
    while y >= 2
        invariant
            1 <= y <= x,
            t + highest_bit(y as nat) == highest_bit(x as nat),
            highest_bit(x as nat) < 64,
        decreases y,
    {
        y = y / 2;
        t = t + 1;
    }
    t
}

/// Whether a number is a power of two.
fn is_power_of_two(x: u64) -> (r: bool)
    ensures
        r == is_pow2(x as int),
{
    if x == 0 {
        proof {
            reveal(is_pow2);
        }
        return false;
    }
    let t = find_highest_bit(x);
    proof {
        lemma_pow2_highest_bit(x as nat);
        lemma_highest_bit_bounds(x as nat);
        lemma_u64_shl_is_mul(1u64, t as u64);
    }
    x == (1u64 << (t as u64))
}

/// The mask of a slice as the combination places it: its `width + 1` low
/// bits, or all bits from width 63 on.
pub open spec fn combine_slice_mask(width: u32) -> u64 {
    if width < 63 {
        ((1u64 << ((width + 1) as u64)) - 1) as u64
    } else {
        u64::MAX
    }
}

/// The slice mask moved to the place of the coefficient (wrapping).
pub open spec fn combine_placed_mask(slice: LinearSlice, coefficient: u64) -> u64 {
    combine_slice_mask(slice.width).wrapping_mul(coefficient)
}

/// The part of the placed mask that the constant leaves to the slice, moved
/// back to bit zero.
pub open spec fn combine_new_slice_mask(constant: u64, slice: LinearSlice, coefficient: u64, conjunction: bool) -> u64 {
    let placed = combine_placed_mask(slice, coefficient);
    let new_placed = if conjunction {
        placed & constant
    } else {
        placed & !constant
    };
    new_placed / coefficient
}

/// The constant of the result.
pub open spec fn combine_new_constant(constant: u64, slice: LinearSlice, coefficient: u64, conjunction: bool) -> u64 {
    if conjunction {
        !combine_placed_mask(slice, coefficient) & constant
    } else {
        constant
    }
}

/// The result of combining a constant with `coefficient * slice`: `None` if
/// the coefficient is not a power of two, else the new constant and, unless
/// nothing of the slice is left, the one-bit slice at the highest bit left
/// with the coefficient moved up to it.
pub open spec fn single_term_bitwise(constant: u64, slice: LinearSlice, coefficient: u64, conjunction: bool) -> Option<(u64, Option<(LinearSlice, u64)>)> {
    if !is_pow2(coefficient as int) {
        None
    } else {
        let new_constant = combine_new_constant(constant, slice, coefficient, conjunction);
        let new_slice_mask = combine_new_slice_mask(constant, slice, coefficient, conjunction);
        if new_slice_mask == 0 {
            Some((new_constant, None))
        } else {
            let top = highest_bit(new_slice_mask as nat);
            Some(
                (
                    new_constant,
                    Some(
                        (
                            LinearSlice { formula_id: slice.formula_id, lsb: (slice.lsb + top) as u32, width: 1 },
                            coefficient << (top as u64),
                        ),
                    ),
                ),
            )
        }
    }
}

impl LinearPolynomial {
    /// The constant side and the other side of a combination where exactly
    /// one side is constant.
    pub open spec fn bitwise_sides(self, rhs: LinearPolynomial) -> (u64, LinearPolynomial) {
        if rhs.linear_terms@.len() == 0 {
            (rhs.constant_term.value, self)
        } else {
            (self.constant_term.value, rhs)
        }
    }

    /// The constant and terms that `bitwise_combine` gives, `None` where it fails.
    pub open spec fn bitwise_result(self, rhs: LinearPolynomial, conjunction: bool) -> Option<(u64, Seq<(LinearSlice, ConcreteBitvector)>)> {
        let bound = self.constant_term.bound;
        let lhs_constant = self.linear_terms@.len() == 0;
        let rhs_constant = rhs.linear_terms@.len() == 0;
        if !lhs_constant && !rhs_constant {
            None
        } else if lhs_constant && rhs_constant {
            Some(
                (
                    if conjunction {
                        self.constant_term.value & rhs.constant_term.value
                    } else {
                        self.constant_term.value | rhs.constant_term.value
                    },
                    Seq::empty(),
                ),
            )
        } else {
            let (constant, other) = self.bitwise_sides(rhs);
            if other.constant_term.value != 0 || other.linear_terms@.len() != 1 {
                None
            } else {
                let (slice, coefficient) = other.linear_terms@[0];
                match single_term_bitwise(constant, slice, coefficient.value, conjunction) {
                    None => None,
                    Some((new_constant, None)) => Some((new_constant, Seq::empty())),
                    Some((new_constant, Some((new_slice, new_coefficient)))) => Some(
                        (
                            new_constant,
                            if new_coefficient == 0 {
                                Seq::empty()
                            } else {
                                seq![(new_slice, ConcreteBitvector { value: new_coefficient, bound })]
                            },
                        ),
                    ),
                }
            }
        }
    }

    /// The constant of a bitwise combination respects the constant side: a
    /// disjunction keeps every bit of a constant operand, and a conjunction
    /// sets no bit that a constant operand leaves clear.
    pub proof fn lemma_bitwise_constant_bits(self, rhs: LinearPolynomial, conjunction: bool)
        ensures
            self.bitwise_result(rhs, conjunction) matches Some((k, _)) ==> {
                &&& !conjunction && self.linear_terms@.len() == 0 ==> k & self.constant_term.value
                    == self.constant_term.value
                &&& !conjunction && rhs.linear_terms@.len() == 0 ==> k & rhs.constant_term.value == rhs.constant_term.value
                &&& conjunction && self.linear_terms@.len() == 0 ==> k & !self.constant_term.value == 0
                &&& conjunction && rhs.linear_terms@.len() == 0 ==> k & !rhs.constant_term.value == 0
            },
    {
        let a = self.constant_term.value;
        let b = rhs.constant_term.value;
        assert((a | b) & a == a && (a | b) & b == b && (a & b) & !a == 0 && (a & b) & !b == 0) by (bit_vector);
        if self.linear_terms@.len() == 0 && rhs.linear_terms@.len() != 0 {
            if rhs.constant_term.value == 0 && rhs.linear_terms@.len() == 1 {
                let (slice, coefficient) = rhs.linear_terms@[0];
                let placed = combine_placed_mask(slice, coefficient.value);
                assert((!placed & a) & !a == 0 && a & a == a) by (bit_vector);
            }
        }
        if self.linear_terms@.len() != 0 && rhs.linear_terms@.len() == 0 {
            if self.constant_term.value == 0 && self.linear_terms@.len() == 1 {
                let (slice, coefficient) = self.linear_terms@[0];
                let placed = combine_placed_mask(slice, coefficient.value);
                assert((!placed & b) & !b == 0 && b & b == b) by (bit_vector);
            }
        }
    }

    /// A disjunction of a constant with a power-of-two multiple of a one-bit
    /// slice is exact: where it succeeds, on every valuation that gives the
    /// slice a single bit, the value of the result is the bitwise
    /// disjunction of the values of the two operands.
    pub proof fn lemma_disjunction_with_bit(self, rhs: LinearPolynomial, tv: spec_fn(LinearSlice) -> int)
        requires
            self.wf(),
            rhs.wf(),
            self.constant_term.bound == rhs.constant_term.bound,
            self.linear_terms@.len() == 0,
            rhs.constant_term.value == 0,
            rhs.linear_terms@.len() == 1,
            rhs.linear_terms@[0].0.width == 1,
            0 <= tv(rhs.linear_terms@[0].0) <= 1,
            self.bitwise_combine_defined(rhs, false),
        ensures
            self.bitwise_result(rhs, false) matches Some((k, terms)) ==> (k as int + terms_sum(terms, tv)) % (
            self.modulus() as int) == ((self.eval(tv) as u64) | (rhs.eval(tv) as u64)) as int,
    {
        let c = self.constant_term.value;
        let (s, cb) = rhs.linear_terms@[0];
        let coef = cb.value;
        let b = tv(s);
        let m = self.modulus() as int;
        lemma_modulus_bounds(self.constant_term.bound);
        assert(self.constant_term.wf());
        assert(cb.wf() && cb.bound == rhs.constant_term.bound);
        assert(terms_sum(self.linear_terms@, tv) == 0);
        lemma_small_mod(c as nat, m as nat);
        assert(self.eval(tv) == c as int);
        assert(rhs.linear_terms@.drop_last().len() == 0);
        assert(terms_sum(rhs.linear_terms@.drop_last(), tv) == 0);
        assert(rhs.linear_terms@.last() == (s, cb));
        assert(terms_sum(rhs.linear_terms@, tv) == cb.val() * tv(s));
        assert(terms_sum(rhs.linear_terms@, tv) == coef as int * b);
        assert(0 <= coef as int * b <= coef as int) by (nonlinear_arith)
            requires
                0 <= b <= 1,
        ;
        lemma_small_mod((coef as int * b) as nat, m as nat);
        assert(rhs.eval(tv) == coef as int * b);
        if let Some((k, terms)) = self.bitwise_result(rhs, false) {
            assert(is_pow2(coef as int));
            assert(coef >= 1) by {
                reveal(is_pow2);
            }
            let h = highest_bit(coef as nat);
            lemma_pow2_highest_bit(coef as nat);
            lemma_highest_bit_bounds(coef as nat);
            assert(h < 64) by {
                lemma2_to64_rest();
                if h >= 64 {
                    lemma_pow2_le(64, h);
                }
            }
            lemma_u64_shl_is_mul(1u64, h as u64);
            assert(coef == 1u64 << (h as u64));
            let placed = combine_placed_mask(s, coef);
            assert(combine_slice_mask(1) == 3) by {
                assert((1u64 << 2u64) - 1 == 3) by (bit_vector);
            }
            lemma_placed_bit(coef, h as u64);
            assert(placed == coef | (coef << 1u64));
            let mask = combine_new_slice_mask(c, s, coef, false);
            assert(mask == ((coef | (coef << 1u64)) & !c) / coef);
            assert(k == c);
            lemma_bit_disjunction(c, coef, h as u64);
            if mask == 0 {
                assert(terms =~= Seq::<(LinearSlice, ConcreteBitvector)>::empty());
                assert(c | coef == c);
                if b == 1 {
                    assert((coef as int * b) as u64 == coef);
                } else {
                    assert(b == 0);
                    assert(coef as int * b == 0);
                    assert((coef as int * b) as u64 == 0);
                    assert(c | 0u64 == c) by (bit_vector);
                }
            } else {
                assert(highest_bit(mask as nat) < 1);
                assert(mask == 1) by {
                    if mask >= 2 {
                        assert(highest_bit(mask as nat) == 1 + highest_bit((mask / 2) as nat));
                    }
                }
                assert(highest_bit(1) == 0);
                assert(coef << 0u64 == coef) by (bit_vector);
                assert(terms == seq![(LinearSlice { formula_id: s.formula_id, lsb: s.lsb, width: 1 }, cb)]);
                assert(LinearSlice { formula_id: s.formula_id, lsb: s.lsb, width: 1 } == s);
                assert(terms.drop_last().len() == 0);
                assert(terms_sum(terms.drop_last(), tv) == 0);
                assert(terms.last() == (s, cb));
                assert(terms_sum(terms, tv) == cb.val() * tv(s));
                assert(terms_sum(terms, tv) == coef as int * b);
                assert(c & coef == 0);
                assert(c & coef == 0 ==> (c | coef) as int == c as int + coef as int) by (bit_vector);
                if b == 1 {
                    assert((coef as int * b) as u64 == coef);
                    if self.constant_term.bound.width < 64 {
                        let w = self.constant_term.bound.width as u64;
                        let mm = 1u64 << w;
                        lemma_u64_shl_is_mul(1u64, w);
                        assert(mm as int == m);
                        assert((c | coef) < mm) by (bit_vector)
                            requires
                                c < mm,
                                coef < mm,
                                mm == 1u64 << w,
                                w < 64,
                        ;
                    }
                    lemma_small_mod((c + coef) as nat, m as nat);
                } else {
                    assert(b == 0);
                    assert(coef as int * b == 0);
                    assert((coef as int * b) as u64 == 0);
                    assert(c | 0u64 == c) by (bit_vector);
                }
            }
        }
    }

    /// The inputs on which `bitwise_combine` runs to its end: the bit that is
    /// left lies within the slice and the moved coefficient fits the bound.
    pub open spec fn bitwise_combine_defined(self, rhs: LinearPolynomial, conjunction: bool) -> bool {
        let (constant, other) = self.bitwise_sides(rhs);
        (self.linear_terms@.len() == 0) != (rhs.linear_terms@.len() == 0) && other.linear_terms@.len() == 1
            ==> match single_term_bitwise(constant, other.linear_terms@[0].0, other.linear_terms@[0].1.value, conjunction) {
            Some((_, Some((new_slice, new_coefficient)))) => {
                &&& highest_bit(
                    combine_new_slice_mask(constant, other.linear_terms@[0].0, other.linear_terms@[0].1.value, conjunction) as nat,
                ) < other.linear_terms@[0].0.width
                &&& (new_coefficient as nat) < self.constant_term.bound.modulus()
            },
            _ => true,
        }
    }

    /// Bitwise conjunction or disjunction where one side is a constant and
    /// the other is a constant or a single slice with a power-of-two
    /// coefficient and no constant; fails otherwise.
    pub fn bitwise_combine(self, rhs: LinearPolynomial, conjunction: bool) -> (r: Result<LinearPolynomial, ()>)
        requires
            self.wf(),
            rhs.wf(),
            self.constant_term.bound == rhs.constant_term.bound,
            self.bitwise_combine_defined(rhs, conjunction),
        ensures
            match self.bitwise_result(rhs, conjunction) {
                None => r is Err,
                Some((constant, terms)) => r matches Ok(p) && {
                    &&& p.wf()
                    &&& p.constant_term == (ConcreteBitvector { value: constant, bound: self.constant_term.bound })
                    &&& p.linear_terms@ == terms
                },
            },
    {
        let bound = self.bound();
        let ghost orig_self = self;
        let ghost orig_rhs = rhs;
        let (constant, other) = match (self.constant_value(), rhs.constant_value()) {
            (None, None) => return Err(()),
            (None, Some(constant)) => (constant, self),
            (Some(constant), None) => (constant, rhs),
            (Some(lhs), Some(rhs)) => {
                let result = if conjunction {
                    lhs.bit_and(rhs)
                } else {
                    lhs.bit_or(rhs)
                };
                return Ok(LinearPolynomial::from_constant(result));
            },
        };
        assert((constant.value, other) == orig_self.bitwise_sides(orig_rhs));
        if other.constant_term.is_nonzero() {
            return Err(());
        }
        if other.linear_terms.len() != 1 {
            return Err(());
        }
        let (slice, coefficient) = other.linear_terms[0];
        let coefficient = coefficient.to_u64();
        if !is_power_of_two(coefficient) {
            return Err(());
        }
        proof {
            reveal(is_pow2);
        }
        let constant = constant.to_u64();
        let slice_mask: u64 = if slice.width < 63 {
            let shift = (slice.width + 1) as u64;
            assert(1u64 << shift >= 1) by (bit_vector)
                requires
                    shift < 64,
            ;
            (1u64 << shift) - 1
        } else {
            u64::MAX
        };
        let placed_mask = slice_mask.wrapping_mul(coefficient);
        let new_placed_mask = if conjunction {
            placed_mask & constant
        } else {
            placed_mask & !constant
        };
        let new_constant = if conjunction {
            !placed_mask & constant
        } else {
            constant
        };
        assert(!placed_mask & constant <= constant) by (bit_vector);
        let new_slice_mask = new_placed_mask / coefficient;
        if new_slice_mask == 0 {
            return Ok(LinearPolynomial::from_constant(ConcreteBitvector::new(new_constant, bound)));
        }
        let added_lsb = find_highest_bit(new_slice_mask);
        // shifting the highest bit down leaves a one
        let down_mask = new_slice_mask >> (added_lsb as u64);
        proof {
            lemma_highest_bit_bounds(new_slice_mask as nat);
            lemma_u64_shr_is_div(new_slice_mask, added_lsb as u64);
            lemma_pow2_unfold(added_lsb as nat + 1);
            lemma_pow2_pos(added_lsb as nat);
            let n = new_slice_mask as int;
            let p = pow2(added_lsb as nat) as int;
            lemma_fundamental_div_mod(n, p);
            lemma_mod_bound(n, p);
            assert(down_mask == 1) by (nonlinear_arith)
                requires
                    down_mask == n / p,
                    p <= n,
                    n < 2 * p,
                    n == p * (n / p) + n % p,
                    0 <= n % p,
                    n % p < p,
            ;
            reveal_with_fuel(is_pow2, 2);
        }
        if !is_power_of_two(down_mask.wrapping_add(1)) {
            return Err(());
        }
        // a single bit: the slice is one bit wide
        let new_slice_width: u32 = 1;
        let new_slice_lsb = slice.lsb + added_lsb;
        let new_coefficient = coefficient << (added_lsb as u64);
        proof {
            assert(slice.wf());
        }
        let new_slice = LinearSlice::new(slice.formula_id, new_slice_lsb, new_slice_width);
        let new_constant = ConcreteBitvector::new(new_constant, bound);
        let new_coefficient = ConcreteBitvector::new(new_coefficient, bound);
        let new_monomial = LinearMonomial::new(new_coefficient, new_slice);
        Ok(LinearPolynomial::from_monomial_and_constant(new_monomial, new_constant))
    }
}

/// The mask of a one-bit slice placed at a power of two covers that bit
/// and the next (the product wrapping at 64 bits).
proof fn lemma_placed_bit(coef: u64, h: u64)
    requires
        h < 64,
        coef == 1u64 << h,
    ensures
        combine_slice_mask(1).wrapping_mul(coef) == coef | (coef << 1u64),
{
    assert((1u64 << 2u64) - 1 == 3) by (bit_vector);
    assert(((3 * (coef as int)) % 0x1_0000_0000_0000_0000int) as u64 == coef | (coef << 1u64)) by (bit_vector)
        requires
            h < 64,
            coef == 1u64 << h,
    ;
}

/// Where the placed mask of a bit at a power of two, less the constant's
/// bits, moved down, is zero, the constant has that bit; where it is one,
/// the constant lacks it.
proof fn lemma_bit_disjunction(c: u64, coef: u64, h: u64)
    by (bit_vector)
    requires
        h < 64,
        coef == 1u64 << h,
    ensures
        ((coef | (coef << 1u64)) & !c) / coef == 0 ==> c | coef == c,
        ((coef | (coef << 1u64)) & !c) / coef == 1 ==> c & coef == 0,
{
}

} // verus!
