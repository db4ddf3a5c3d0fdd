//! If-then-else of linear polynomials.
use vstd::arithmetic::div_mod::*;
use vstd::arithmetic::mul::*;
use vstd::prelude::*;

use crate::domain::bitvector::lemma_modulus_bounds;
use crate::problem::operation::linear::slice::LinearSlice;
use crate::problem::terms::{coeff_of, lemma_terms_canonical, terms_sum};

use super::ext::{lemma_coeff_below, lemma_pow2_le};
use super::LinearPolynomial;

verus! {

/// `condition * (then - else) + else` modulo `m`, with the condition
/// truncated or extended to the modulus.
pub open spec fn ite_value(condition: int, then_value: int, else_value: int, m: int) -> int {
    ((condition % m) * (then_value - else_value) + else_value) % m
}

/// Multiplying two reduced factors and adding a summand, all modulo `m`.
proof fn lemma_ite_arith(a: int, b: int, e: int, m: int)
    requires
        0 < m,
    ensures
        ((((a % m) * (b % m)) % m) + e) % m == ((a % m) * b + e) % m,
        ((((b % m) * (a % m)) % m) + e) % m == ((a % m) * b + e) % m,
{
    lemma_mul_mod_noop_right(a % m, b, m);
    lemma_mul_is_commutative(a % m, b % m);
    lemma_add_mod_noop(((a % m) * b), e, m);
    lemma_add_mod_noop(((a % m) * b) % m, e, m);
    lemma_mod_twice((a % m) * b, m);
}

/// A selector `s` of zero or one (reduced modulo `m`) applied to a reduced
/// difference `t - e` and added to `e` gives back `t` or `e`.
proof fn lemma_select(s: int, t: int, e: int, m: int)
    requires
        0 < m,
        0 <= t < m,
        0 <= e < m,
        s == 1int % m || s == 0,
    ensures
        s == 1int % m ==> (((s * ((t - e) % m)) % m) + e) % m == t && ((((t - e) % m) * s) % m + e) % m == t,
        s == 0 ==> (((s * ((t - e) % m)) % m) + e) % m == e && ((((t - e) % m) * s) % m + e) % m == e,
{
    lemma_small_mod(e as nat, m as nat);
    lemma_small_mod(t as nat, m as nat);
    if m == 1 {
        assert(t == 0 && e == 0);
        lemma_small_mod(0, 1);
    } else {
        lemma_small_mod(1, m as nat);
        let d = (t - e) % m;
        lemma_mod_bound(t - e, m);
        if s == 1 {
            assert(s * d == d && d * s == d);
            lemma_small_mod(d as nat, m as nat);
            lemma_add_mod_noop(t - e, e, m);
            lemma_mod_twice(t - e, m);
        } else {
            assert(s * d == 0 && d * s == 0);
            lemma_small_mod(0, m as nat);
        }
    }
}

impl LinearPolynomial {
    /// If-then-else as `condition * (then - else) + else`. It succeeds where
    /// the condition is a constant, or where the branches differ by a
    /// constant and the condition can be extended to their bound.
    pub fn ite(
        condition: LinearPolynomial,
        then_branch: LinearPolynomial,
        else_branch: LinearPolynomial,
    ) -> (r: Result<LinearPolynomial, ()>)
        requires
            condition.wf(),
            then_branch.wf(),
            else_branch.wf(),
            then_branch.constant_term.bound == else_branch.constant_term.bound,
        ensures
            r is Ok <==> (condition.linear_terms@.len() == 0 || ((forall|k: LinearSlice|
                #[trigger] then_branch.coefficient(k) == else_branch.coefficient(k)) && (
            then_branch.spec_bound().width <= condition.spec_bound().width
                || condition.spec_cannot_overflow()))),
            r matches Ok(p) ==> {
                &&& p.wf()
                &&& p.spec_bound() == then_branch.spec_bound()
                &&& forall|tv: spec_fn(LinearSlice) -> int|
                    (condition.linear_terms@.len() == 0 || condition.values_fit(tv)) ==> #[trigger] p.eval(tv)
                        == ite_value(
                        condition.eval(tv),
                        then_branch.eval(tv),
                        else_branch.eval(tv),
                        then_branch.modulus() as int,
                    )
            },
            condition.linear_terms@.len() == 0 && condition.constant_term.val() == 1 && then_branch.is_normal() ==> (
            r matches Ok(p) && p.linear_terms@ == then_branch.linear_terms@ && p.constant_term == then_branch.constant_term),
            condition.linear_terms@.len() == 0 && condition.constant_term.val() == 0 && else_branch.is_normal() ==> (
            r matches Ok(p) && p.linear_terms@ == else_branch.linear_terms@ && p.constant_term == else_branch.constant_term),
    {
        let bound = then_branch.bound();
        let ghost m = then_branch.modulus() as int;
        proof {
            lemma_modulus_bounds(bound);
            lemma_modulus_bounds(condition.constant_term.bound);
        }
        let else_copy = else_branch.duplicate();
        let mut truth = then_branch.sub(else_copy);
        proof {
            truth.lemma_no_terms_iff_zero();
            assert((truth.linear_terms@.len() == 0) <==> forall|k: LinearSlice|
                #[trigger] then_branch.coefficient(k) == else_branch.coefficient(k)) by {
                assert forall|k: LinearSlice|
                    #![trigger truth.coefficient(k)]
                    #![trigger then_branch.coefficient(k)]
                    truth.coefficient(k) == 0 <==> then_branch.coefficient(k) == else_branch.coefficient(k) by {
                    lemma_coeff_below(then_branch.linear_terms@, k, bound);
                    lemma_coeff_below(else_branch.linear_terms@, k, bound);
                    let d = then_branch.coefficient(k) as int - else_branch.coefficient(k) as int;
                    assert(truth.coefficient(k) as int == d % m);
                    assert(0 <= then_branch.coefficient(k) < m);
                    assert(0 <= else_branch.coefficient(k) < m);
                    if d == 0 {
                        lemma_small_mod(0, m as nat);
                    } else {
                        if d > 0 {
                            lemma_small_mod(d as nat, m as nat);
                        } else {
                            lemma_mod_add_multiples_vanish(d, m);
                            lemma_small_mod((m + d) as nat, m as nat);
                        }
                    }
                }
            }
        }
        if let Some(condition_constant) = condition.constant_value() {
            let scaler = condition_constant.uext(bound);
            let ghost truth_before = truth;
            truth.scale(scaler);
            let result = truth.add(else_branch);
            proof {
                assert forall|tv: spec_fn(LinearSlice) -> int| #[trigger] result.eval(tv) == ite_value(
                    condition.eval(tv),
                    then_branch.eval(tv),
                    else_branch.eval(tv),
                    m,
                ) by {
                    let c = condition.constant_term.val() as int;
                    lemma_small_mod(c as nat, condition.modulus());
                    assert(condition.eval(tv) == c);
                    lemma_ite_arith(c, then_branch.eval(tv) - else_branch.eval(tv), else_branch.eval(tv), m);
                }
                let c = condition_constant.val() as int;
                if c == 1 || c == 0 {
                    let s = scaler.val() as int;
                    if c == 1 {
                        lemma_small_mod(1, condition.modulus());
                    }
                    assert(s == 1int % m || s == 0) by {
                        lemma_small_mod(0, m as nat);
                    }
                    assert(s == c % m);
                    if c == 1 {
                        assert(s == 1int % m);
                    } else {
                        lemma_small_mod(0, m as nat);
                        assert(s == 0);
                    }
                    let target = if c == 1 { then_branch } else { else_branch };
                    if target.is_normal() {
                        assert forall|k: LinearSlice| #[trigger] coeff_of(result.linear_terms@, k) == coeff_of(
                            target.linear_terms@,
                            k,
                        ) by {
                            lemma_coeff_below(then_branch.linear_terms@, k, bound);
                            lemma_coeff_below(else_branch.linear_terms@, k, bound);
                            let tk = then_branch.coefficient(k) as int;
                            let ek = else_branch.coefficient(k) as int;
                            assert(truth_before.coefficient(k) as int == (tk - ek) % m);
                            assert(truth.coefficient(k) as int == (s * truth_before.coefficient(k)) % m);
                            assert(result.coefficient(k) as int == (truth.coefficient(k) + ek) % m);
                            lemma_select(s, tk, ek, m);
                            assert(result.coefficient(k) as int == (((s * ((tk - ek) % m)) % m) + ek) % m);
                            assert(result.coefficient(k) == target.coefficient(k));
                        }
                        lemma_terms_canonical(result.linear_terms@, target.linear_terms@, bound);
                        let tc = then_branch.constant_term.val() as int;
                        let ec = else_branch.constant_term.val() as int;
                        assert(truth_before.constant_term.val() as int == (tc - ec) % m);
                        assert(truth.constant_term.val() as int == (truth_before.constant_term.val() * s) % m);
                        assert(result.constant_term.val() as int == (truth.constant_term.val() + ec) % m);
                        lemma_select(s, tc, ec, m);
                        assert(result.constant_term.val() as int == ((((tc - ec) % m) * s) % m + ec) % m);
                        assert(result.constant_term.val() == target.constant_term.val());
                    }
                }
            }
            return Ok(result);
        }
        if let Some(truth_constant) = truth.constant_value() {
            if let Ok(mut extended_condition) = condition.uext(bound) {
                let ghost extended_before = extended_condition;
                extended_condition.scale(truth_constant);
                let result = extended_condition.add(else_branch);
                proof {
                    assert forall|tv: spec_fn(LinearSlice) -> int| condition.values_fit(tv) implies #[trigger] result.eval(tv)
                        == ite_value(condition.eval(tv), then_branch.eval(tv), else_branch.eval(tv), m) by {
                        let ce = condition.eval(tv);
                        let d = then_branch.eval(tv) - else_branch.eval(tv);
                        assert(truth.eval(tv) == truth_constant.val() % (m as nat));
                        lemma_small_mod(truth_constant.val(), m as nat);
                        assert(truth_constant.val() as int == d % m);
                        if bound.width > condition.constant_term.bound.width {
                            lemma_pow2_le(condition.constant_term.bound.width as nat, bound.width as nat);
                            lemma_small_mod(ce as nat, m as nat);
                            assert(extended_before.eval(tv) == ce % m);
                        }
                        assert(extended_before.eval(tv) == ce % m);
                        lemma_ite_arith(ce, d, else_branch.eval(tv), m);
                    }
                }
                return Ok(result);
            }
        }
        Err(())
    }
}

} // verus!
