//! Signed (two's complement) interpretation of concrete bitvectors:
//! comparison, extension, arithmetic shift and division.
use vstd::arithmetic::div_mod::*;
use vstd::arithmetic::power2::*;
use vstd::bits::*;
use vstd::prelude::*;

use super::{lemma_modulus_bounds, modulus_u128, ConcreteBitvector, RBound};

verus! {

/// Whether the highest bit of a value of the given width is set.
pub open spec fn spec_is_negative(value: nat, width: nat) -> bool {
    width > 0 && value >= pow2((width - 1) as nat)
}

/// The two's complement value of a bitvector.
pub open spec fn signed_value(c: ConcreteBitvector) -> int {
    if spec_is_negative(c.val(), c.width()) {
        c.val() - c.modulus()
    } else {
        c.val() as int
    }
}

/// Negation modulo `m`.
pub open spec fn neg_mod(x: nat, m: nat) -> nat {
    ((-(x as int)) % (m as int)) as nat
}

/// Unsigned division with all ones for a zero divisor.
pub open spec fn udiv_val(x: nat, y: nat, m: nat) -> nat {
    if y == 0 {
        (m - 1) as nat
    } else {
        x / y
    }
}

/// Unsigned remainder with the dividend for a zero divisor.
pub open spec fn urem_val(x: nat, y: nat) -> nat {
    if y == 0 {
        x
    } else {
        x % y
    }
}

/// Signed division by quadrants: the magnitudes are divided unsigned and
/// the quotient negated where exactly one operand is negative.
pub open spec fn sdiv_val(x: nat, y: nat, width: nat) -> nat {
    let m = pow2(width);
    let neg_x = spec_is_negative(x, width);
    let neg_y = spec_is_negative(y, width);
    if !neg_x && !neg_y {
        udiv_val(x, y, m)
    } else if neg_x && !neg_y {
        neg_mod(udiv_val(neg_mod(x, m), y, m), m)
    } else if !neg_x && neg_y {
        neg_mod(udiv_val(x, neg_mod(y, m), m), m)
    } else {
        udiv_val(neg_mod(x, m), neg_mod(y, m), m)
    }
}

/// Signed remainder by quadrants: the magnitudes are divided unsigned and
/// the remainder takes the sign of the dividend.
pub open spec fn srem_val(x: nat, y: nat, width: nat) -> nat {
    let m = pow2(width);
    let neg_x = spec_is_negative(x, width);
    let neg_y = spec_is_negative(y, width);
    if !neg_x && !neg_y {
        urem_val(x, y)
    } else if neg_x && !neg_y {
        neg_mod(urem_val(neg_mod(x, m), y), m)
    } else if !neg_x && neg_y {
        urem_val(x, neg_mod(y, m))
    } else {
        neg_mod(urem_val(neg_mod(x, m), neg_mod(y, m)), m)
    }
}

/// Floor division of a negated number: `-n / p == -ceil(n / p)`.
proof fn lemma_floor_of_negated(n: int, p: int)
    requires
        n >= 0,
        p > 0,
    ensures
        (-n) / p == -((n + p - 1) / p),
{
    let q = (n + p - 1) / p;
    let r = (n + p - 1) % p;
    lemma_fundamental_div_mod(n + p - 1, p);
    lemma_mod_bound(n + p - 1, p);
    assert(-n == (-q) * p + (p - 1 - r)) by (nonlinear_arith)
        requires
            n + p - 1 == p * q + r,
    ;
    lemma_fundamental_div_mod_converse(-n, p, -q, p - 1 - r);
}

impl ConcreteBitvector {
    /// Whether the highest bit is set.
    pub fn is_negative(&self) -> (r: bool)
        requires
            self.wf(),
        ensures
            r == spec_is_negative(self.val(), self.width()),
    {
        if self.bound.width == 0 {
            return false;
        }
        let shift = (self.bound.width - 1) as u64;
        proof {
            lemma_u64_pow2_no_overflow(shift as nat);
            lemma_u64_shl_is_mul(1u64, shift);
        }
        self.value >= (1u64 << shift)
    }

    /// The two's complement value.
    pub fn to_i128(&self) -> (r: i128)
        requires
            self.wf(),
        ensures
            r == signed_value(*self),
    {
        proof {
            lemma_modulus_bounds(self.bound);
        }
        if self.is_negative() {
            let m = modulus_u128(self.bound);
            (self.value as i128) - (m as i128)
        } else {
            self.value as i128
        }
    }

    /// Signed less-than comparison, giving a single-bit result.
    pub fn slt(self, rhs: ConcreteBitvector) -> (r: ConcreteBitvector)
        requires
            self.wf(),
            rhs.wf(),
        ensures
            r.wf(),
            r.bound.width == 1,
            r.value == (if signed_value(self) < signed_value(rhs) { 1u64 } else { 0u64 }),
    {
        ConcreteBitvector::from_bool(self.to_i128() < rhs.to_i128())
    }

    /// Signed less-or-equal comparison, giving a single-bit result.
    pub fn sle(self, rhs: ConcreteBitvector) -> (r: ConcreteBitvector)
        requires
            self.wf(),
            rhs.wf(),
        ensures
            r.wf(),
            r.bound.width == 1,
            r.value == (if signed_value(self) <= signed_value(rhs) { 1u64 } else { 0u64 }),
    {
        ConcreteBitvector::from_bool(self.to_i128() <= rhs.to_i128())
    }

    /// Signed extension (or truncation) to a new bound.
    pub fn sext(self, new_bound: RBound) -> (r: ConcreteBitvector)
        requires
            self.wf(),
            new_bound.wf(),
        ensures
            r.wf(),
            r.bound == new_bound,
            r.val() as int == signed_value(self) % (new_bound.modulus() as int),
    {
        proof {
            lemma_modulus_bounds(self.bound);
            lemma_modulus_bounds(new_bound);
        }
        let m = modulus_u128(new_bound);
        if !self.is_negative() {
            let v = (self.value as u128) % m;
            return ConcreteBitvector { value: v as u64, bound: new_bound };
        }
        let old_m = modulus_u128(self.bound);
        let n = (old_m - self.value as u128) % m;
        let v = if n == 0 {
            0u128
        } else {
            m - n
        };
        proof {
            let mi = m as int;
            let nn = old_m as int - self.val();
            lemma_mod_bound(nn, mi);
            if n == 0 {
                lemma_sub_mod_noop(0, nn, mi);
                lemma_small_mod(0, m as nat);
            } else {
                lemma_sub_mod_noop(mi, nn, mi);
                lemma_mod_self_0(mi);
                lemma_small_mod((mi - n) as nat, m as nat);
                lemma_mod_add_multiples_vanish(-nn, mi);
                lemma_mod_add_multiples_vanish(-(n as int), mi);
            }
        }
        ConcreteBitvector { value: v as u64, bound: new_bound }
    }

    /// Arithmetic shift right: the two's complement value divided by
    /// `2^amount`, rounded down.
    pub fn arith_shr(self, amount: ConcreteBitvector) -> (r: ConcreteBitvector)
        requires
            self.wf(),
            amount.wf(),
        ensures
            r.wf(),
            r.bound == self.bound,
            r.val() as int == (signed_value(self) / (pow2(amount.val()) as int)) % (self.modulus() as int),
    {
        proof {
            lemma_modulus_bounds(self.bound);
            lemma_pow2_pos(amount.val());
        }
        if !self.is_negative() {
            let r = self.logic_shr(amount);
            proof {
                lemma_div_is_ordered_by_denominator(self.val() as int, 1, pow2(amount.val()) as int);
                lemma_small_mod(r.val(), self.modulus());
            }
            return r;
        }
        let m = modulus_u128(self.bound);
        let w = self.bound.width;
        let n = m - self.value as u128;
        if amount.value >= w as u64 {
            proof {
                let nn = n as int;
                let p = pow2(amount.val()) as int;
                if amount.val() > w {
                    lemma_pow2_strictly_increases(w as nat, amount.val());
                }
                lemma_floor_of_negated(nn, p);
                lemma_div_basics_4(nn + p - 1, p);
                lemma_fundamental_div_mod(nn + p - 1, p);
                lemma_mod_bound(nn + p - 1, p);
                assert((nn + p - 1) / p == 1) by (nonlinear_arith)
                    requires
                        1 <= nn <= p,
                        nn + p - 1 == p * ((nn + p - 1) / p) + (nn + p - 1) % p,
                        0 <= (nn + p - 1) % p < p,
                ;
                lemma_mod_add_multiples_vanish(-1, m as int);
                lemma_small_mod((m - 1) as nat, m as nat);
            }
            return ConcreteBitvector { value: (m - 1) as u64, bound: self.bound };
        }
        proof {
            lemma_u64_pow2_no_overflow(amount.val());
            lemma_u64_shl_is_mul(1u64, amount.value);
        }
        let p = (1u64 << amount.value) as u128;
        let q = (n + p - 1) / p;
        proof {
            let nn = n as int;
            let pi = p as int;
            lemma_floor_of_negated(nn, pi);
            lemma_fundamental_div_mod(nn + pi - 1, pi);
            lemma_mod_bound(nn + pi - 1, pi);
            assert(1 <= q <= nn) by (nonlinear_arith)
                requires
                    1 <= nn,
                    1 <= pi,
                    nn + pi - 1 == pi * q + (nn + pi - 1) % pi,
                    0 <= (nn + pi - 1) % pi < pi,
            ;
            lemma_mod_add_multiples_vanish(-(q as int), m as int);
            lemma_small_mod((m - q) as nat, m as nat);
        }
        ConcreteBitvector { value: (m - q) as u64, bound: self.bound }
    }

    /// Signed division by quadrants.
    pub fn sdiv(self, rhs: ConcreteBitvector) -> (r: ConcreteBitvector)
        requires
            self.wf(),
            rhs.wf(),
            self.bound == rhs.bound,
        ensures
            r.wf(),
            r.bound == self.bound,
            r.val() == sdiv_val(self.val(), rhs.val(), self.width()),
    {
        let neg_lhs = self.is_negative();
        let neg_rhs = rhs.is_negative();
        if !neg_lhs && !neg_rhs {
            self.udiv(rhs)
        } else if neg_lhs && !neg_rhs {
            self.arith_neg().udiv(rhs).arith_neg()
        } else if !neg_lhs && neg_rhs {
            self.udiv(rhs.arith_neg()).arith_neg()
        } else {
            self.arith_neg().udiv(rhs.arith_neg())
        }
    }

    /// Signed remainder by quadrants, with the sign of the dividend.
    pub fn srem(self, rhs: ConcreteBitvector) -> (r: ConcreteBitvector)
        requires
            self.wf(),
            rhs.wf(),
            self.bound == rhs.bound,
        ensures
            r.wf(),
            r.bound == self.bound,
            r.val() == srem_val(self.val(), rhs.val(), self.width()),
    {
        let neg_lhs = self.is_negative();
        let neg_rhs = rhs.is_negative();
        if !neg_lhs && !neg_rhs {
            self.urem(rhs)
        } else if neg_lhs && !neg_rhs {
            self.arith_neg().urem(rhs).arith_neg()
        } else if !neg_lhs && neg_rhs {
            self.urem(rhs.arith_neg())
        } else {
            self.arith_neg().urem(rhs.arith_neg()).arith_neg()
        }
    }
}

} // verus!
