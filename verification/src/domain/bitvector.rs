//! Concrete bitvectors of width at most 64 with modular arithmetic.
use vstd::arithmetic::div_mod::*;
use vstd::arithmetic::power2::*;
use vstd::bits::*;
use vstd::prelude::*;

pub mod ops;
pub mod signed;

verus! {

/// The largest bitvector width that a concrete bitvector can hold.
pub const MAX_WIDTH: u32 = 64;

/// Width of a bitvector.
#[derive(Clone, Copy, PartialEq, Eq, Structural, Debug, Hash)]
pub struct RBound {
    pub width: u32,
}

impl RBound {
    /// The width fits into a 64-bit machine word.
    pub open spec fn wf(self) -> bool {
        self.width <= MAX_WIDTH
    }

    /// Number of distinct values of this width, `2^width`.
    pub open spec fn modulus(self) -> nat {
        pow2(self.width as nat)
    }

    pub fn new(width: u32) -> (r: RBound)
        requires
            width <= MAX_WIDTH,
        ensures
            r.width == width,
            r.wf(),
    {
        RBound { width }
    }

    pub fn width(&self) -> (r: u32)
        ensures
            r == self.width,
    {
        self.width
    }

    pub fn single_bit_bound() -> (r: RBound)
        ensures
            r.width == 1,
            r.wf(),
    {
        RBound { width: 1 }
    }
}

/// Facts about the modulus of a well-formed bound.
pub proof fn lemma_modulus_bounds(bound: RBound)
    requires
        bound.wf(),
    ensures
        0 < bound.modulus() <= pow2(64),
        pow2(64) == 0x1_0000_0000_0000_0000,
        bound.width < 64 ==> bound.modulus() <= 0x8000_0000_0000_0000,
        bound.width == 0 ==> bound.modulus() == 1,
        bound.width == 1 ==> bound.modulus() == 2,
{
    lemma_pow2_pos(bound.width as nat);
    lemma2_to64();
    lemma2_to64_rest();
    if bound.width < 64 {
        if bound.width < 63 {
            lemma_pow2_strictly_increases(bound.width as nat, 63);
        }
    }
}

/// The modulus `2^width` of a bound, computed in 128 bits.
pub(crate) fn modulus_u128(bound: RBound) -> (m: u128)
    requires
        bound.wf(),
    ensures
        m == bound.modulus(),
        0 < m <= 0x1_0000_0000_0000_0000,
{
    proof {
        lemma_modulus_bounds(bound);
    }
    if bound.width == 64 {
        0x1_0000_0000_0000_0000u128
    } else {
        proof {
            lemma_u64_pow2_no_overflow(bound.width as nat);
            lemma_u64_shl_is_mul(1u64, bound.width as u64);
        }
        (1u64 << (bound.width as u64)) as u128
    }
}

/// A bitvector value together with its width.
#[derive(Clone, Copy, PartialEq, Eq, Structural, Debug, Hash)]
pub struct ConcreteBitvector {
    pub value: u64,
    pub bound: RBound,
}

impl ConcreteBitvector {
    /// The width is well-formed and the value fits into it.
    pub open spec fn wf(self) -> bool {
        self.bound.wf() && (self.value as nat) < self.bound.modulus()
    }

    pub open spec fn val(self) -> nat {
        self.value as nat
    }

    pub open spec fn modulus(self) -> nat {
        self.bound.modulus()
    }

    pub open spec fn width(self) -> nat {
        self.bound.width as nat
    }

    /// Creates a bitvector from a value that fits into the bound.
    pub fn new(value: u64, bound: RBound) -> (r: ConcreteBitvector)
        requires
            bound.wf(),
            (value as nat) < bound.modulus(),
        ensures
            r.wf(),
            r.value == value,
            r.bound == bound,
    {
        ConcreteBitvector { value, bound }
    }

    /// Creates a bitvector from the low bits of a value.
    pub fn from_masked_u64(value: u64, bound: RBound) -> (r: ConcreteBitvector)
        requires
            bound.wf(),
        ensures
            r.wf(),
            r.val() == value as nat % bound.modulus(),
            r.bound == bound,
    {
        let m = modulus_u128(bound);
        let masked = ((value as u128) % m) as u64;
        ConcreteBitvector { value: masked, bound }
    }

    pub fn zero(bound: RBound) -> (r: ConcreteBitvector)
        requires
            bound.wf(),
        ensures
            r.wf(),
            r.value == 0,
            r.bound == bound,
    {
        proof {
            lemma_modulus_bounds(bound);
        }
        ConcreteBitvector { value: 0, bound }
    }

    /// The value one, truncated to the bound (zero for width zero).
    pub fn one(bound: RBound) -> (r: ConcreteBitvector)
        requires
            bound.wf(),
        ensures
            r.wf(),
            r.val() == 1nat % bound.modulus(),
            bound.width > 0 ==> r.value == 1,
            r.bound == bound,
    {
        proof {
            lemma_modulus_bounds(bound);
            if bound.width > 0 {
                lemma_pow2_strictly_increases(0, bound.width as nat);
                lemma2_to64();
                lemma_small_mod(1, bound.modulus());
            }
        }
        if bound.width == 0 {
            ConcreteBitvector { value: 0, bound }
        } else {
            ConcreteBitvector { value: 1, bound }
        }
    }

    /// A single-bit bitvector holding the Boolean.
    pub fn from_bool(value: bool) -> (r: ConcreteBitvector)
        ensures
            r.wf(),
            r.bound.width == 1,
            r.value == (if value { 1u64 } else { 0u64 }),
    {
        proof {
            lemma2_to64();
        }
        ConcreteBitvector { value: if value { 1 } else { 0 }, bound: RBound { width: 1 } }
    }

    pub fn bound(&self) -> (r: RBound)
        ensures
            r == self.bound,
    {
        self.bound
    }

    pub fn to_u64(&self) -> (r: u64)
        ensures
            r == self.value,
    {
        self.value
    }

    pub fn is_zero(&self) -> (r: bool)
        ensures
            r == (self.value == 0),
    {
        self.value == 0
    }

    pub fn is_nonzero(&self) -> (r: bool)
        ensures
            r == (self.value != 0),
    {
        self.value != 0
    }

    pub fn is_one(&self) -> (r: bool)
        ensures
            r == (self.value == 1),
    {
        self.value == 1
    }

    /// Whether all bits of the bitvector are set.
    pub fn is_full_mask(&self) -> (r: bool)
        requires
            self.wf(),
        ensures
            r == (self.val() + 1 == self.modulus()),
    {
        let m = modulus_u128(self.bound);
        (self.value as u128) + 1 == m
    }

    /// Modular addition.
    pub fn add(self, rhs: ConcreteBitvector) -> (r: ConcreteBitvector)
        requires
            self.wf(),
            rhs.wf(),
            self.bound == rhs.bound,
        ensures
            r.wf(),
            r.bound == self.bound,
            r.val() == (self.val() + rhs.val()) % self.modulus(),
    {
        let m = modulus_u128(self.bound);
        let sum = (self.value as u128 + rhs.value as u128) % m;
        ConcreteBitvector { value: sum as u64, bound: self.bound }
    }

    /// Modular subtraction.
    pub fn sub(self, rhs: ConcreteBitvector) -> (r: ConcreteBitvector)
        requires
            self.wf(),
            rhs.wf(),
            self.bound == rhs.bound,
        ensures
            r.wf(),
            r.bound == self.bound,
            r.val() == (self.val() - rhs.val()) % (self.modulus() as int),
    {
        let m = modulus_u128(self.bound);
        let diff = (self.value as u128 + m - rhs.value as u128) % m;
        proof {
            lemma_mod_add_multiples_vanish(self.val() - rhs.val(), m as int);
        }
        ConcreteBitvector { value: diff as u64, bound: self.bound }
    }

    /// Modular multiplication.
    pub fn mul(self, rhs: ConcreteBitvector) -> (r: ConcreteBitvector)
        requires
            self.wf(),
            rhs.wf(),
            self.bound == rhs.bound,
        ensures
            r.wf(),
            r.bound == self.bound,
            r.val() == (self.val() * rhs.val()) % self.modulus(),
    {
        let m = modulus_u128(self.bound);
        let a = self.value as u128;
        let b = rhs.value as u128;
        proof {
            assert(a * b <= 0xffff_ffff_ffff_ffff * 0xffff_ffff_ffff_ffffu128) by (nonlinear_arith)
                requires
                    a <= 0xffff_ffff_ffff_ffffu128,
                    b <= 0xffff_ffff_ffff_ffffu128,
            ;
        }
        let product = (a * b) % m;
        ConcreteBitvector { value: product as u64, bound: self.bound }
    }

    /// Modular (two's complement) negation.
    pub fn arith_neg(self) -> (r: ConcreteBitvector)
        requires
            self.wf(),
        ensures
            r.wf(),
            r.bound == self.bound,
            r.val() == (-(self.val() as int)) % (self.modulus() as int),
    {
        let m = modulus_u128(self.bound);
        let neg = (m - self.value as u128) % m;
        proof {
            lemma_mod_add_multiples_vanish(-(self.val() as int), m as int);
        }
        ConcreteBitvector { value: neg as u64, bound: self.bound }
    }

    /// Bitwise negation within the bound.
    pub fn bit_not(self) -> (r: ConcreteBitvector)
        requires
            self.wf(),
        ensures
            r.wf(),
            r.bound == self.bound,
            r.val() == self.modulus() - 1 - self.val(),
    {
        let m = modulus_u128(self.bound);
        let negated = m - 1 - self.value as u128;
        ConcreteBitvector { value: negated as u64, bound: self.bound }
    }

    /// Bitwise conjunction.
    pub fn bit_and(self, rhs: ConcreteBitvector) -> (r: ConcreteBitvector)
        requires
            self.wf(),
            rhs.wf(),
            self.bound == rhs.bound,
        ensures
            r.wf(),
            r.bound == self.bound,
            r.value == self.value & rhs.value,
    {
        let a = self.value;
        let b = rhs.value;
        assert(a & b <= a) by (bit_vector);
        ConcreteBitvector { value: a & b, bound: self.bound }
    }

    /// Bitwise disjunction.
    pub fn bit_or(self, rhs: ConcreteBitvector) -> (r: ConcreteBitvector)
        requires
            self.wf(),
            rhs.wf(),
            self.bound == rhs.bound,
        ensures
            r.wf(),
            r.bound == self.bound,
            r.value == self.value | rhs.value,
    {
        let a = self.value;
        let b = rhs.value;
        proof {
            lemma_or_fits(a, b, self.bound.width);
        }
        ConcreteBitvector { value: a | b, bound: self.bound }
    }

    /// Unsigned extension (or truncation) to a new bound.
    pub fn uext(self, new_bound: RBound) -> (r: ConcreteBitvector)
        requires
            self.wf(),
            new_bound.wf(),
        ensures
            r.wf(),
            r.bound == new_bound,
            r.val() == self.val() % new_bound.modulus(),
            self.width() <= new_bound.width ==> r.value == self.value,
    {
        let m = modulus_u128(new_bound);
        let truncated = (self.value as u128) % m;
        proof {
            if self.width() <= new_bound.width {
                if self.width() < new_bound.width {
                    lemma_pow2_strictly_increases(self.width(), new_bound.width as nat);
                }
                lemma_small_mod(self.val(), new_bound.modulus());
            }
        }
        ConcreteBitvector { value: truncated as u64, bound: new_bound }
    }

    /// Unsigned less-or-equal comparison, giving a single-bit result.
    pub fn ule(self, rhs: ConcreteBitvector) -> (r: ConcreteBitvector)
        requires
            self.wf(),
            rhs.wf(),
        ensures
            r.wf(),
            r.bound.width == 1,
            r.value == (if self.value <= rhs.value { 1u64 } else { 0u64 }),
    {
        ConcreteBitvector::from_bool(self.value <= rhs.value)
    }

    /// Logical shift right; amounts at least the width give zero.
    pub fn logic_shr(self, amount: ConcreteBitvector) -> (r: ConcreteBitvector)
        requires
            self.wf(),
            amount.wf(),
        ensures
            r.wf(),
            r.bound == self.bound,
            r.val() == self.val() / pow2(amount.val()),
    {
        proof {
            lemma_modulus_bounds(self.bound);
            lemma_pow2_pos(amount.val());
        }
        if amount.value >= self.bound.width as u64 {
            proof {
                if amount.val() > self.width() {
                    lemma_pow2_strictly_increases(self.width(), amount.val());
                }
                lemma_basic_div(self.val() as int, pow2(amount.val()) as int);
            }
            ConcreteBitvector { value: 0, bound: self.bound }
        } else {
            let shifted = self.value >> amount.value;
            proof {
                lemma_u64_shr_is_div(self.value, amount.value);
                lemma_div_is_ordered(self.val() as int, self.modulus() as int, pow2(amount.val()) as int);
                lemma_div_basics_4(self.val() as int, 1);
                assert(self.val() / pow2(amount.val()) <= self.val()) by {
                    lemma_div_is_ordered_by_denominator(self.val() as int, 1, pow2(amount.val()) as int);
                }
            }
            ConcreteBitvector { value: shifted, bound: self.bound }
        }
    }
}

/// Bitwise disjunction of two values that fit into a width fits into it.
proof fn lemma_or_fits(a: u64, b: u64, width: u32)
    requires
        width <= 64,
        (a as nat) < pow2(width as nat),
        (b as nat) < pow2(width as nat),
    ensures
        ((a | b) as nat) < pow2(width as nat),
{
    lemma_modulus_bounds(RBound { width });
    if width < 64 {
        lemma_u64_pow2_no_overflow(width as nat);
        lemma_u64_shl_is_mul(1u64, width as u64);
        let w = width as u64;
        assert(a < (1u64 << w) && b < (1u64 << w) ==> (a | b) < (1u64 << w)) by (bit_vector)
            requires
                w < 64,
        ;
    }
}

} // verus!
