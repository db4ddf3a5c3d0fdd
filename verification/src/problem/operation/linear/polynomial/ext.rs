//! Extension and truncation of linear polynomials.
use vstd::arithmetic::div_mod::*;
use vstd::arithmetic::power2::*;
use vstd::prelude::*;

use crate::domain::bitvector::{lemma_modulus_bounds, ConcreteBitvector, RBound};
use crate::problem::operation::linear::slice::LinearSlice;
use crate::problem::terms::{coeff_of, congruent, convert_terms, normalize_terms, terms_sum, terms_wf, TermKey};

use super::LinearPolynomial;

verus! {

/// `2^a <= 2^b` for `a <= b`.
pub proof fn lemma_pow2_le(a: nat, b: nat)
    requires
        a <= b,
    ensures
        pow2(a) <= pow2(b),
{
    if a < b {
        lemma_pow2_strictly_increases(a, b);
    }
}

/// Truncating a constant and coefficients to a dividing modulus truncates
/// the value.
proof fn lemma_truncated_value(c: int, c2: int, s: int, s2: int, m: int, m2: int, k: int)
    requires
        0 < m2,
        0 < k,
        m == m2 * k,
        c2 == c % m2,
        s2 % m2 == s % m2,
    ensures
        (c2 + s2) % m2 == ((c + s) % m) % m2,
{
    lemma_mod_mod(c + s, m2, k);
    lemma_add_mod_noop(c, s, m2);
    lemma_add_mod_noop(c2, s2, m2);
    lemma_mod_twice(c, m2);
}

/// Every coefficient is below the modulus of the bound.
pub proof fn lemma_coeff_below(s: Seq<(LinearSlice, ConcreteBitvector)>, k: LinearSlice, bound: RBound)
    requires
        bound.wf(),
        terms_wf(s, bound),
    ensures
        coeff_of(s, k) < bound.modulus(),
    decreases s.len(),
{
    lemma_modulus_bounds(bound);
    if s.len() > 0 {
        let t = s.drop_last();
        assert forall|i: int| 0 <= i < t.len() implies (#[trigger] t[i].1).wf() && t[i].1.bound == bound by {
            assert(s[i].1.wf());
        }
        assert forall|i: int, j: int| 0 <= i < j < t.len() implies (#[trigger] t[i].0).key_lt(#[trigger] t[j].0) by {
            assert(s[i].0.key_lt(s[j].0));
        }
        lemma_coeff_below(t, k, bound);
        assert(s[s.len() - 1].1.wf());
    }
}

impl LinearPolynomial {
    /// Unsigned extension or truncation to a new bound. Truncating or keeping
    /// the width always succeeds. A wider bound succeeds only where the
    /// polynomial cannot overflow its own bound; otherwise the polynomial is
    /// given back unchanged.
    pub fn uext(self, new_bound: RBound) -> (r: Result<LinearPolynomial, LinearPolynomial>)
        requires
            self.wf(),
            new_bound.wf(),
        ensures
            r is Ok <==> (new_bound.width <= self.spec_bound().width || self.spec_cannot_overflow()),
            r matches Err(p) ==> p == self,
            new_bound.width == self.spec_bound().width ==> r == Ok::<LinearPolynomial, LinearPolynomial>(self),
            r matches Ok(p) ==> {
                &&& p.wf()
                &&& p.spec_bound() == new_bound
                &&& p.constant_term.val() == self.constant_term.val() % new_bound.modulus()
                &&& forall|k: LinearSlice|
                    #[trigger] p.coefficient(k) == self.coefficient(k) % new_bound.modulus()
                &&& self.is_normal() ==> p.is_normal()
                &&& new_bound.width <= self.spec_bound().width ==> forall|tv: spec_fn(LinearSlice) -> int|
                    #[trigger] p.eval(tv) == self.eval(tv) % (new_bound.modulus() as int)
                &&& new_bound.width > self.spec_bound().width ==> forall|tv: spec_fn(LinearSlice) -> int|
                    self.values_fit(tv) ==> #[trigger] p.eval(tv) == self.eval(tv)
            },
    {
        let mut polynomial = match Self::try_shrink_or_identity(self, new_bound) {
            Ok(ok) => return Ok(ok),
            Err(polynomial) => polynomial,
        };
        // the new bound is wider: extend only where no overflow ever happened
        if polynomial.might_overflow() {
            return Err(polynomial);
        }
        let old_bound = polynomial.bound();
        polynomial.constant_term = polynomial.constant_term.uext(new_bound);
        convert_terms(&mut polynomial.linear_terms, old_bound, new_bound);
        proof {
            let m = old_bound.modulus();
            let m2 = new_bound.modulus();
            lemma_modulus_bounds(old_bound);
            lemma_modulus_bounds(new_bound);
            lemma_pow2_strictly_increases(old_bound.width as nat, new_bound.width as nat);
            lemma_small_mod(self.constant_term.val(), m2);
            assert forall|i: int| 0 <= i < polynomial.linear_terms@.len() implies (#[trigger] polynomial.linear_terms@[i]).1.val() == self.linear_terms@[i].1.val() by {
                lemma_small_mod(self.linear_terms@[i].1.val(), m2);
            }
            assert forall|tv: spec_fn(LinearSlice) -> int| self.values_fit(tv) implies #[trigger] polynomial.eval(tv) == self.eval(tv) by {
                let c = self.constant_term.val() as int;
                lemma_small_mod(c as nat, m);
                if self.linear_terms@.len() == 0 {
                    assert(terms_sum(polynomial.linear_terms@, tv) == 0);
                    assert(terms_sum(self.linear_terms@, tv) == 0);
                } else {
                    let t = self.linear_terms@[0];
                    let v = tv(t.0);
                    assert(0 <= tv(self.linear_terms@[0].0) < pow2(self.linear_terms@[0].0.width as nat));
                    lemma_pow2_le(t.0.width as nat, old_bound.width as nat);
                    lemma_small_mod(1, m2);
                    assert(polynomial.linear_terms@[0].1.val() == 1);
                    assert(polynomial.linear_terms@[0].0 == t.0) by {
                        assert(polynomial.linear_terms@.map_values(|x: (LinearSlice, ConcreteBitvector)| x.0)[0]
                            == self.linear_terms@.map_values(|x: (LinearSlice, ConcreteBitvector)| x.0)[0]);
                    }
                    assert(terms_sum(polynomial.linear_terms@.drop_last(), tv) == 0);
                    assert(terms_sum(self.linear_terms@.drop_last(), tv) == 0);
                    assert(polynomial.linear_terms@.last() == polynomial.linear_terms@[0]);
                    assert(self.linear_terms@.last() == t);
                    assert(terms_sum(polynomial.linear_terms@, tv) == v);
                    assert(terms_sum(self.linear_terms@, tv) == v);
                    lemma_small_mod(v as nat, m);
                    lemma_small_mod(v as nat, m2);
                }
            }
            if self.is_normal() {
                assert forall|i: int| 0 <= i < polynomial.linear_terms@.len() implies (#[trigger] polynomial.linear_terms@[i].1).value != 0 by {
                    assert(self.linear_terms@[i].1.value != 0);
                }
            }
        }
        Ok(polynomial)
    }

    /// Signed extension or truncation to a new bound. Truncating or keeping
    /// the width succeeds; a wider bound gives the polynomial back unchanged.
    pub fn sext(self, new_bound: RBound) -> (r: Result<LinearPolynomial, LinearPolynomial>)
        requires
            self.wf(),
            new_bound.wf(),
        ensures
            r is Ok <==> new_bound.width <= self.spec_bound().width,
            r matches Err(p) ==> p == self,
            new_bound.width == self.spec_bound().width ==> r == Ok::<LinearPolynomial, LinearPolynomial>(self),
            r matches Ok(p) ==> {
                &&& p.wf()
                &&& p.spec_bound() == new_bound
                &&& p.constant_term.val() == self.constant_term.val() % new_bound.modulus()
                &&& forall|k: LinearSlice|
                    #[trigger] p.coefficient(k) == self.coefficient(k) % new_bound.modulus()
                &&& self.is_normal() ==> p.is_normal()
                &&& forall|tv: spec_fn(LinearSlice) -> int|
                    #[trigger] p.eval(tv) == self.eval(tv) % (new_bound.modulus() as int)
            },
    {
        Self::try_shrink_or_identity(self, new_bound)
    }

    /// Truncates to a narrower bound or keeps an equal one; a wider bound
    /// gives the polynomial back.
    fn try_shrink_or_identity(polynomial: LinearPolynomial, new_bound: RBound) -> (r: Result<LinearPolynomial, LinearPolynomial>)
        requires
            polynomial.wf(),
            new_bound.wf(),
        ensures
            r is Ok <==> new_bound.width <= polynomial.spec_bound().width,
            r matches Err(p) ==> p == polynomial,
            new_bound.width == polynomial.spec_bound().width ==> r == Ok::<LinearPolynomial, LinearPolynomial>(polynomial),
            r matches Ok(p) ==> {
                &&& p.wf()
                &&& p.spec_bound() == new_bound
                &&& p.constant_term.val() == polynomial.constant_term.val() % new_bound.modulus()
                &&& forall|k: LinearSlice|
                    #[trigger] p.coefficient(k) == polynomial.coefficient(k) % new_bound.modulus()
                &&& polynomial.is_normal() ==> p.is_normal()
                &&& forall|tv: spec_fn(LinearSlice) -> int|
                    #[trigger] p.eval(tv) == polynomial.eval(tv) % (new_bound.modulus() as int)
            },
    {
        let old_width = polynomial.bound().width();
        let new_width = new_bound.width();
        if new_width < old_width {
            Ok(polynomial.truncate(new_bound))
        } else if new_width == old_width {
            proof {
                let m = new_bound.modulus();
                lemma_modulus_bounds(new_bound);
                lemma_small_mod(polynomial.constant_term.val(), m);
                assert forall|k: LinearSlice| #[trigger] polynomial.coefficient(k) == polynomial.coefficient(k) % m by {
                    lemma_coeff_below(polynomial.linear_terms@, k, new_bound);
                    lemma_small_mod(polynomial.coefficient(k), m);
                }
                assert forall|tv: spec_fn(LinearSlice) -> int| #[trigger] polynomial.eval(tv) == polynomial.eval(tv) % (m as int) by {
                    lemma_mod_twice(polynomial.constant_term.val() + terms_sum(polynomial.linear_terms@, tv), m as int);
                }
            }
            Ok(polynomial)
        } else {
            Err(polynomial)
        }
    }

    /// Truncates the constant and the coefficients to a narrower bound.
    fn truncate(self, new_bound: RBound) -> (r: LinearPolynomial)
        requires
            self.wf(),
            new_bound.wf(),
            new_bound.width < self.spec_bound().width,
        ensures
            r.wf(),
            r.is_normal(),
            r.spec_bound() == new_bound,
            r.constant_term.val() == self.constant_term.val() % new_bound.modulus(),
            forall|k: LinearSlice| #[trigger] r.coefficient(k) == self.coefficient(k) % new_bound.modulus(),
            forall|tv: spec_fn(LinearSlice) -> int|
                #[trigger] r.eval(tv) == self.eval(tv) % (new_bound.modulus() as int),
    {
        let mut result = self;
        let old_bound = result.bound();
        result.constant_term = result.constant_term.uext(new_bound);
        convert_terms(&mut result.linear_terms, old_bound, new_bound);
        normalize_terms(&mut result.linear_terms, new_bound);
        proof {
            let w2 = new_bound.width as nat;
            let w = old_bound.width as nat;
            lemma_modulus_bounds(new_bound);
            lemma_pow2_adds(w2, (w - w2) as nat);
            lemma_pow2_pos((w - w2) as nat);
            assert forall|tv: spec_fn(LinearSlice) -> int| #[trigger] result.eval(tv) == self.eval(tv) % (new_bound.modulus() as int) by {
                assert(congruent(terms_sum(result.linear_terms@, tv), terms_sum(self.linear_terms@, tv), new_bound.modulus()));
                lemma_truncated_value(
                    self.constant_term.val() as int,
                    result.constant_term.val() as int,
                    terms_sum(self.linear_terms@, tv),
                    terms_sum(result.linear_terms@, tv),
                    old_bound.modulus() as int,
                    new_bound.modulus() as int,
                    pow2((w - w2) as nat) as int,
                );
            }
        }
        result
    }
}

} // verus!
