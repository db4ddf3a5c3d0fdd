//! Three-valued bitvectors: each bit is false, true, or unknown.
use vstd::arithmetic::power2::*;
use vstd::bits::*;
use vstd::prelude::*;

use super::bitvector::{lemma_modulus_bounds, ConcreteBitvector, RBound};
use super::value::three_valued::ThreeValued;

verus! {

/// Whether bit `i` of `x` is set.
pub open spec fn bit_set(x: u64, i: u64) -> bool {
    (x >> i) & 1u64 == 1u64
}

/// The mask of the low `width` bits.
pub open spec fn width_mask(width: u32) -> u64 {
    low_bits_mask(width as nat) as u64
}

/// The mask of the low bits of a bound, computed.
pub fn bound_mask(bound: RBound) -> (r: u64)
    requires
        bound.wf(),
    ensures
        r == width_mask(bound.width),
        bound.width < 64 ==> r == ((1u64 << (bound.width as u64)) - 1) as u64,
        bound.width == 64 ==> r == 0xffff_ffff_ffff_ffffu64,
{
    proof {
        lemma_modulus_bounds(bound);
        lemma_low_bits_mask_values();
    }
    if bound.width == 64 {
        0xffff_ffff_ffff_ffffu64
    } else {
        proof {
            lemma_u64_pow2_no_overflow(bound.width as nat);
            lemma_u64_shl_is_mul(1u64, bound.width as u64);
        }
        (1u64 << (bound.width as u64)) - 1
    }
}

/// A three-valued bitvector: `zeros` has the bits that may be zero,
/// `ones` the bits that may be one.
#[derive(Clone, Copy, PartialEq, Eq, Structural, Debug, Hash)]
pub struct ThreeValuedBitvector {
    pub zeros: u64,
    pub ones: u64,
    pub bound: RBound,
}

/// The three-valued bitvector used by the solver.
pub type RBitvector = ThreeValuedBitvector;

/// Masks of a well-formed bound: every bit within the width may be something,
/// no bit outside it may be anything.
pub open spec fn masks_wf(zeros: u64, ones: u64, mask: u64) -> bool {
    &&& zeros & !mask == 0
    &&& ones & !mask == 0
    &&& zeros | ones == mask
}

impl ThreeValuedBitvector {
    pub open spec fn wf(self) -> bool {
        self.bound.wf() && masks_wf(self.zeros, self.ones, width_mask(self.bound.width))
    }

    /// The three-valued value of bit `i`.
    pub open spec fn bit(self, i: u64) -> ThreeValued {
        if bit_set(self.zeros, i) && !bit_set(self.ones, i) {
            ThreeValued::False
        } else if !bit_set(self.zeros, i) && bit_set(self.ones, i) {
            ThreeValued::True
        } else {
            ThreeValued::Unknown
        }
    }

    /// Whether the concrete value is one that this bitvector stands for.
    pub open spec fn concretizes(self, value: u64) -> bool {
        &&& value & !self.ones == 0
        &&& (!value & width_mask(self.bound.width)) & !self.zeros == 0
    }

    pub fn bound(&self) -> (r: RBound)
        ensures
            r == self.bound,
    {
        self.bound
    }

    /// The bitvector with all bits unknown.
    pub fn top(bound: RBound) -> (r: ThreeValuedBitvector)
        requires
            bound.wf(),
        ensures
            r.wf(),
            r.bound == bound,
            r.zeros == width_mask(bound.width),
            r.ones == width_mask(bound.width),
    {
        let mask = bound_mask(bound);
        assert(mask & !mask == 0) by (bit_vector);
        assert(mask | mask == mask) by (bit_vector);
        ThreeValuedBitvector { zeros: mask, ones: mask, bound }
    }

    /// The bitvector standing for exactly one concrete value.
    pub fn single_value(value: ConcreteBitvector) -> (r: ThreeValuedBitvector)
        requires
            value.wf(),
        ensures
            r.wf(),
            r.bound == value.bound,
            r.ones == value.value,
            r.zeros == !value.value & width_mask(value.bound.width),
    {
        let mask = bound_mask(value.bound);
        let v = value.value;
        proof {
            lemma_value_within_mask(v, value.bound);
        }
        assert(v & !mask == 0 ==> (!v & mask) & !mask == 0 && (!v & mask) | v == mask)
            by (bit_vector);
        ThreeValuedBitvector { zeros: !v & mask, ones: v, bound: value.bound }
    }

    /// The three-valued value of a single bit.
    pub fn three_valued_from_bit(&self, bit_index: u32) -> (r: ThreeValued)
        requires
            self.wf(),
            bit_index < self.bound.width,
        ensures
            r == self.bit(bit_index as u64),
    {
        let i = bit_index as u64;
        let can_be_zero = (self.zeros >> i) & 1 == 1;
        let can_be_one = (self.ones >> i) & 1 == 1;
        if can_be_zero && !can_be_one {
            ThreeValued::False
        } else if !can_be_zero && can_be_one {
            ThreeValued::True
        } else {
            ThreeValued::Unknown
        }
    }

    /// Sets a single bit to a three-valued value, leaving the others.
    pub fn set_bit_to_three_valued(&mut self, bit_index: u32, value: ThreeValued)
        requires
            old(self).wf(),
            bit_index < old(self).bound.width,
        ensures
            final(self).wf(),
            final(self).bound == old(self).bound,
            final(self).bit(bit_index as u64) == value,
            forall|j: u64|
                j < 64 && j != bit_index as u64 ==> #[trigger] final(self).bit(j) == old(self).bit(
                    j,
                ),
    {
        let i = bit_index as u64;
        let mask = bound_mask(self.bound);
        let z0 = self.zeros;
        let o0 = self.ones;
        let zero_bit: u64 = if value.is_true() {
            0
        } else {
            1
        };
        let one_bit: u64 = if value.is_false() {
            0
        } else {
            1
        };
        let z1 = (z0 & !(1u64 << i)) | (zero_bit << i);
        let o1 = (o0 & !(1u64 << i)) | (one_bit << i);
        proof {
            lemma_bit_within_mask(i, self.bound);
            assert(masks_wf(z0, o0, mask) && (mask >> i) & 1 == 1 && zero_bit <= 1 && one_bit <= 1
                && (zero_bit == 1 || one_bit == 1) ==> masks_wf(z1, o1, mask)) by (bit_vector)
                requires
                    i < 64,
                    z1 == (z0 & !(1u64 << i)) | (zero_bit << i),
                    o1 == (o0 & !(1u64 << i)) | (one_bit << i),
            ;
            assert(bit_set(z1, i) == (zero_bit == 1) && bit_set(o1, i) == (one_bit == 1))
                by (bit_vector)
                requires
                    i < 64,
                    zero_bit <= 1,
                    one_bit <= 1,
                    z1 == (z0 & !(1u64 << i)) | (zero_bit << i),
                    o1 == (o0 & !(1u64 << i)) | (one_bit << i),
            ;
            assert forall|j: u64| j < 64 && j != i implies bit_set(z1, j) == bit_set(z0, j)
                && bit_set(o1, j) == bit_set(o0, j) by {
                assert(bit_set(z1, j) == bit_set(z0, j) && bit_set(o1, j) == bit_set(o0, j))
                    by (bit_vector)
                    requires
                        i < 64,
                        j < 64,
                        j != i,
                        zero_bit <= 1,
                        one_bit <= 1,
                        z1 == (z0 & !(1u64 << i)) | (zero_bit << i),
                        o1 == (o0 & !(1u64 << i)) | (one_bit << i),
                ;
            }
        }
        self.zeros = z1;
        self.ones = o1;
    }

    /// The least bitvector standing for every value either one stands for.
    pub fn join(self, other: &ThreeValuedBitvector) -> (r: ThreeValuedBitvector)
        requires
            self.wf(),
            other.wf(),
            self.bound == other.bound,
        ensures
            r.wf(),
            r.bound == self.bound,
            r.zeros == self.zeros | other.zeros,
            r.ones == self.ones | other.ones,
    {
        let mask = bound_mask(self.bound);
        let (z0, o0, z1, o1) = (self.zeros, self.ones, other.zeros, other.ones);
        assert(masks_wf(z0, o0, mask) && masks_wf(z1, o1, mask) ==> masks_wf(
            z0 | z1,
            o0 | o1,
            mask,
        )) by (bit_vector);
        ThreeValuedBitvector { zeros: z0 | z1, ones: o0 | o1, bound: self.bound }
    }

    /// Replaces the bitvector by its join with the other.
    pub fn apply_join(&mut self, other: &ThreeValuedBitvector)
        requires
            old(self).wf(),
            other.wf(),
            old(self).bound == other.bound,
        ensures
            final(self).wf(),
            final(self).bound == old(self).bound,
            final(self).zeros == old(self).zeros | other.zeros,
            final(self).ones == old(self).ones | other.ones,
    {
        *self = self.join(other);
    }

    /// Whether every value the other bitvector stands for is one this stands for.
    pub fn contains(&self, other: &ThreeValuedBitvector) -> (r: bool)
        requires
            self.bound == other.bound,
        ensures
            r == (other.zeros & !self.zeros == 0 && other.ones & !self.ones == 0),
    {
        other.zeros & !self.zeros == 0 && other.ones & !self.ones == 0
    }

    /// The concrete value if no bit is unknown.
    pub fn concrete_value(&self) -> (r: Option<ConcreteBitvector>)
        requires
            self.wf(),
        ensures
            r is Some <==> (self.zeros & self.ones == 0),
            r matches Some(c) ==> c.wf() && c.bound == self.bound && c.value == self.ones,
    {
        if self.zeros & self.ones == 0 {
            proof {
                lemma_value_within_mask(self.ones, self.bound);
            }
            Some(ConcreteBitvector { value: self.ones, bound: self.bound })
        } else {
            None
        }
    }
}

/// A value fits into a bound exactly if no bit outside the bound's mask is set.
pub proof fn lemma_value_within_mask(x: u64, bound: RBound)
    requires
        bound.wf(),
    ensures
        (x & !width_mask(bound.width) == 0) == ((x as nat) < bound.modulus()),
{
    lemma_modulus_bounds(bound);
    lemma_low_bits_mask_values();
    if bound.width == 64 {
        assert(x & !0xffff_ffff_ffff_ffffu64 == 0) by (bit_vector);
    } else {
        lemma_u64_pow2_no_overflow(bound.width as nat);
        lemma_u64_shl_is_mul(1u64, bound.width as u64);
        let w = bound.width as u64;
        assert(width_mask(bound.width) == (((1u64 << w) - 1) as u64));
        assert((x & !(((1u64 << w) - 1) as u64) == 0) == (x < (1u64 << w))) by (bit_vector)
            requires
                w < 64,
        ;
    }
}

/// Every bit below the width is set in the bound's mask.
pub proof fn lemma_bit_within_mask(i: u64, bound: RBound)
    requires
        bound.wf(),
        i < bound.width,
    ensures
        (width_mask(bound.width) >> i) & 1 == 1,
{
    lemma_modulus_bounds(bound);
    lemma_low_bits_mask_values();
    if bound.width == 64 {
        assert((0xffff_ffff_ffff_ffffu64 >> i) & 1 == 1) by (bit_vector)
            requires
                i < 64,
        ;
    } else {
        lemma_u64_pow2_no_overflow(bound.width as nat);
        lemma_u64_shl_is_mul(1u64, bound.width as u64);
        let w = bound.width as u64;
        assert(width_mask(bound.width) == (((1u64 << w) - 1) as u64));
        assert(((((1u64 << w) - 1) as u64) >> i) & 1 == 1) by (bit_vector)
            requires
                w < 64,
                i < w,
        ;
    }
}

} // verus!
