//! Sorted lists of linear terms: keys with bitvector coefficients.
//!
//! A term list is sorted strictly by key, so every key occurs at most once,
//! and all coefficients share one bound. Its value under a valuation of the
//! keys is the sum of coefficient times key value.
use vstd::arithmetic::div_mod::*;
use vstd::arithmetic::mul::*;
use vstd::prelude::*;

use crate::domain::bitvector::{ConcreteBitvector, RBound};

verus! {

/// Keys of linear terms, with a strict total order.
pub trait TermKey: Copy + Sized {
    spec fn key_lt(self, other: Self) -> bool;

    /// Whether the key is well-formed.
    spec fn key_wf(self) -> bool;

    proof fn lemma_key_order(a: Self, b: Self, c: Self)
        ensures
            !a.key_lt(a),
            a.key_lt(b) && b.key_lt(c) ==> a.key_lt(c),
            a.key_lt(b) || b.key_lt(a) || a == b,
    ;

    fn key_less(&self, other: &Self) -> (r: bool)
        ensures
            r == self.key_lt(*other),
    ;

    fn key_equal(&self, other: &Self) -> (r: bool)
        ensures
            r == (*self == *other),
    ;
}

/// Keys strictly increase along the list.
pub open spec fn terms_sorted<K: TermKey>(s: Seq<(K, ConcreteBitvector)>) -> bool {
    forall|i: int, j: int| 0 <= i < j < s.len() ==> (#[trigger] s[i].0).key_lt(#[trigger] s[j].0)
}

/// Sorted, and every coefficient is a well-formed bitvector of the bound.
pub open spec fn terms_wf<K: TermKey>(s: Seq<(K, ConcreteBitvector)>, bound: RBound) -> bool {
    &&& terms_sorted(s)
    &&& forall|i: int|
        0 <= i < s.len() ==> (#[trigger] s[i].1).wf() && s[i].1.bound == bound
}

/// Every key is well-formed.
pub open spec fn terms_keys_wf<K: TermKey>(s: Seq<(K, ConcreteBitvector)>) -> bool {
    forall|i: int| 0 <= i < s.len() ==> (#[trigger] s[i]).0.key_wf()
}

/// A key with a nonzero coefficient occurs in the list.
pub proof fn lemma_coeff_nonzero_present<K: TermKey>(s: Seq<(K, ConcreteBitvector)>, k: K)
    requires
        coeff_of(s, k) != 0,
    ensures
        exists|i: int| 0 <= i < s.len() && (#[trigger] s[i]).0 == k,
    decreases s.len(),
{
    if s.last().0 != k {
        lemma_coeff_nonzero_present(s.drop_last(), k);
        let i = choose|i: int| 0 <= i < s.drop_last().len() && (#[trigger] s.drop_last()[i]).0 == k;
        assert(s[i] == s.drop_last()[i]);
    } else {
        assert(s[s.len() - 1].0 == k);
    }
}

/// No coefficient is zero.
pub open spec fn terms_nonzero<K: TermKey>(s: Seq<(K, ConcreteBitvector)>) -> bool {
    forall|i: int| 0 <= i < s.len() ==> (#[trigger] s[i].1).value != 0
}

/// The coefficient of a key, zero for an absent key.
pub open spec fn coeff_of<K: TermKey>(s: Seq<(K, ConcreteBitvector)>, k: K) -> nat
    decreases s.len(),
{
    if s.len() == 0 {
        0
    } else if s.last().0 == k {
        s.last().1.val()
    } else {
        coeff_of(s.drop_last(), k)
    }
}

/// Sum of the terms, each coefficient times the key's value.
pub open spec fn terms_sum<K: TermKey>(s: Seq<(K, ConcreteBitvector)>, tv: spec_fn(K) -> int) -> int
    decreases s.len(),
{
    if s.len() == 0 {
        0
    } else {
        terms_sum(s.drop_last(), tv) + s.last().1.val() * tv(s.last().0)
    }
}

/// The sum only depends on the values of the keys of the list.
pub proof fn lemma_terms_sum_agree<K: TermKey>(s: Seq<(K, ConcreteBitvector)>, tv1: spec_fn(K) -> int, tv2: spec_fn(K) -> int)
    requires
        forall|i: int| 0 <= i < s.len() ==> tv1(#[trigger] s[i].0) == tv2(s[i].0),
    ensures
        terms_sum(s, tv1) == terms_sum(s, tv2),
    decreases s.len(),
{
    if s.len() > 0 {
        let s0 = s.drop_last();
        assert forall|i: int| 0 <= i < s0.len() implies tv1(#[trigger] s0[i].0) == tv2(s0[i].0) by {
            assert(s0[i] == s[i]);
        }
        lemma_terms_sum_agree(s0, tv1, tv2);
        assert(tv1(s[s.len() - 1].0) == tv2(s[s.len() - 1].0));
    }
}

/// The keys of the list, in order.
pub open spec fn terms_keys<K: TermKey>(s: Seq<(K, ConcreteBitvector)>) -> Seq<K> {
    s.map_values(|t: (K, ConcreteBitvector)| t.0)
}

/// Equality modulo `m`.
pub open spec fn congruent(a: int, b: int, m: nat) -> bool {
    a % (m as int) == b % (m as int)
}

pub proof fn lemma_congruent_add(a: int, b: int, x: int, y: int, m: nat)
    requires
        m > 0,
        congruent(a, b, m),
        congruent(x, y, m),
    ensures
        congruent(a + x, b + y, m),
{
    lemma_add_mod_noop(a, x, m as int);
    lemma_add_mod_noop(b, y, m as int);
}

pub proof fn lemma_congruent_mul(a: int, b: int, t: int, m: nat)
    requires
        m > 0,
        congruent(a, b, m),
    ensures
        congruent(a * t, b * t, m),
{
    lemma_mul_mod_noop_left(a, t, m as int);
    lemma_mul_mod_noop_left(b, t, m as int);
}

/// A key absent from the list has coefficient zero; a present key has
/// the coefficient it is listed with.
pub proof fn lemma_coeff_of_index<K: TermKey>(s: Seq<(K, ConcreteBitvector)>, k: K)
    requires
        terms_sorted(s),
    ensures
        (forall|i: int| 0 <= i < s.len() ==> s[i].0 != k) ==> coeff_of(s, k) == 0,
        forall|i: int| 0 <= i < s.len() && s[i].0 == k ==> coeff_of(s, k) == s[i].1.val(),
    decreases s.len(),
{
    if s.len() > 0 {
        let t = s.drop_last();
        assert(terms_sorted(t));
        lemma_coeff_of_index(t, k);
        assert forall|i: int| 0 <= i < s.len() && s[i].0 == k implies coeff_of(s, k)
            == s[i].1.val() by {
            if i < s.len() - 1 {
                assert(s[i].0.key_lt(s[s.len() - 1].0));
                K::lemma_key_order(s[i].0, s[i].0, s[i].0);
                assert(t[i] == s[i]);
            }
        }
        if forall|i: int| 0 <= i < s.len() ==> s[i].0 != k {
            assert forall|i: int| 0 <= i < t.len() implies t[i].0 != k by {
                assert(t[i] == s[i]);
            }
        }
    }
}

/// Appending a term adds its product to the sum and sets its key's coefficient.
pub proof fn lemma_terms_push<K: TermKey>(
    s: Seq<(K, ConcreteBitvector)>,
    t: (K, ConcreteBitvector),
    tv: spec_fn(K) -> int,
)
    ensures
        terms_sum(s.push(t), tv) == terms_sum(s, tv) + t.1.val() * tv(t.0),
        forall|k: K| #[trigger] coeff_of(s.push(t), k) == if k == t.0 {
            t.1.val()
        } else {
            coeff_of(s, k)
        },
{
    assert(s.push(t).drop_last() == s);
}

/// The first `n + 1` terms are the first `n` terms followed by term `n`.
pub proof fn lemma_take_push<K: TermKey>(s: Seq<(K, ConcreteBitvector)>, n: int)
    requires
        0 <= n < s.len(),
    ensures
        s.take(n + 1) == s.take(n).push(s[n]),
{
    assert(s.take(n + 1) =~= s.take(n).push(s[n]));
}

/// Merges two sorted term lists, combining the coefficients of equal keys
/// as `left + right` (or `left - right` when `subtract`), modulo the bound,
/// and leaving out terms whose combined coefficient is zero.
pub fn merge_terms<K: TermKey>(
    a: &Vec<(K, ConcreteBitvector)>,
    b: &Vec<(K, ConcreteBitvector)>,
    bound: RBound,
    subtract: bool,
) -> (r: Vec<(K, ConcreteBitvector)>)
    requires
        bound.wf(),
        terms_wf(a@, bound),
        terms_wf(b@, bound),
    ensures
        terms_wf(r@, bound),
        terms_nonzero(r@),
        terms_keys_wf(a@) && terms_keys_wf(b@) ==> terms_keys_wf(r@),
        forall|k: K|
            #[trigger] coeff_of(r@, k) as int == (coeff_of(a@, k) + (if subtract {
                -1int
            } else {
                1int
            }) * coeff_of(b@, k)) % (bound.modulus() as int),
        forall|tv: spec_fn(K) -> int|
            congruent(
                #[trigger] terms_sum(r@, tv),
                terms_sum(a@, tv) + (if subtract {
                    -1int
                } else {
                    1int
                }) * terms_sum(b@, tv),
                bound.modulus(),
            ),
{
    let ghost sign: int = if subtract {
        -1int
    } else {
        1int
    };
    let ghost m = bound.modulus();
    let zero = ConcreteBitvector::zero(bound);
    let mut r: Vec<(K, ConcreteBitvector)> = Vec::new();
    let mut i: usize = 0;
    let mut j: usize = 0;
    proof {
        crate::domain::bitvector::lemma_modulus_bounds(bound);
        assert(a@.take(0) =~= Seq::<(K, ConcreteBitvector)>::empty());
        assert(b@.take(0) =~= Seq::<(K, ConcreteBitvector)>::empty());
        lemma_small_mod(0, m);
        assert(sign * 0 == 0);
        assert forall|k: K| #[trigger] coeff_of(r@, k) as int == (coeff_of(a@.take(0), k) + sign
            * coeff_of(b@.take(0), k)) % (m as int) by {
            assert(coeff_of(a@.take(0), k) == 0);
            assert(coeff_of(b@.take(0), k) == 0);
            assert(coeff_of(r@, k) == 0);
        }
        assert forall|tv: spec_fn(K) -> int| congruent(
            #[trigger] terms_sum(r@, tv),
            terms_sum(a@.take(0), tv) + sign * terms_sum(b@.take(0), tv),
            m,
        ) by {
            assert(terms_sum(a@.take(0), tv) == 0);
            assert(terms_sum(b@.take(0), tv) == 0);
            assert(terms_sum(r@, tv) == 0);
        }
    }
    while i < a.len() || j < b.len()
        invariant
            bound.wf(),
            m == bound.modulus(),
            m > 0,
            sign == (if subtract {
                -1int
            } else {
                1int
            }),
            zero.wf(),
            zero.value == 0,
            zero.bound == bound,
            terms_wf(a@, bound),
            terms_wf(b@, bound),
            0 <= i <= a.len(),
            0 <= j <= b.len(),
            terms_wf(r@, bound),
            terms_nonzero(r@),
            forall|x: int| 0 <= x < r.len() ==> (i < a.len() ==> (#[trigger] r@[x]).0.key_lt(a@[i as int].0)),
            forall|x: int| 0 <= x < r.len() ==> (j < b.len() ==> (#[trigger] r@[x]).0.key_lt(b@[j as int].0)),
            forall|y: int| 0 <= y < j ==> (i < a.len() ==> (#[trigger] b@[y]).0.key_lt(a@[i as int].0)),
            forall|y: int| 0 <= y < i ==> (j < b.len() ==> (#[trigger] a@[y]).0.key_lt(b@[j as int].0)),
            forall|k: K|
                #[trigger] coeff_of(r@, k) as int == (coeff_of(a@.take(i as int), k) + sign
                    * coeff_of(b@.take(j as int), k)) % (m as int),
            forall|tv: spec_fn(K) -> int|
                congruent(
                    #[trigger] terms_sum(r@, tv),
                    terms_sum(a@.take(i as int), tv) + sign * terms_sum(b@.take(j as int), tv),
                    m,
                ),
        decreases a.len() + b.len() - i - j,
    {
        let take_left: bool;
        let take_right: bool;
        if i < a.len() && j < b.len() {
            if a[i].0.key_equal(&b[j].0) {
                take_left = true;
                take_right = true;
            } else if a[i].0.key_less(&b[j].0) {
                take_left = true;
                take_right = false;
            } else {
                proof {
                    K::lemma_key_order(a@[i as int].0, b@[j as int].0, a@[i as int].0);
                }
                take_left = false;
                take_right = true;
            }
        } else if i < a.len() {
            take_left = true;
            take_right = false;
        } else {
            take_left = false;
            take_right = true;
        }
        let key = if take_left {
            a[i].0
        } else {
            b[j].0
        };
        let left = if take_left {
            a[i].1
        } else {
            zero
        };
        let right = if take_right {
            b[j].1
        } else {
            zero
        };
        let combined = if subtract {
            left.sub(right)
        } else {
            left.add(right)
        };
        let ghost old_r = r@;
        let ghost old_i = i as int;
        let ghost old_j = j as int;
        if combined.is_nonzero() {
            r.push((key, combined));
        }
        if take_left {
            i = i + 1;
        }
        if take_right {
            j = j + 1;
        }
        proof {
            lemma_merge_step(
                a@,
                b@,
                old_r,
                r@,
                old_i,
                old_j,
                i as int,
                j as int,
                key,
                left,
                right,
                combined,
                bound,
                sign,
                take_left,
                take_right,
            );
        }
    }
    proof {
        assert(a@.take(a.len() as int) =~= a@);
        assert(b@.take(b.len() as int) =~= b@);
        if terms_keys_wf(a@) && terms_keys_wf(b@) {
            assert forall|x: int| 0 <= x < r@.len() implies (#[trigger] r@[x]).0.key_wf() by {
                let k = r@[x].0;
                lemma_coeff_of_index(r@, k);
                if coeff_of(a@, k) == 0 && coeff_of(b@, k) == 0 {
                    assert(sign * 0 == 0);
                    lemma_small_mod(0, m);
                } else if coeff_of(a@, k) != 0 {
                    lemma_coeff_nonzero_present(a@, k);
                } else {
                    lemma_coeff_nonzero_present(b@, k);
                }
            }
        }
    }
    r
}

proof fn lemma_sum_step(sa: int, sa2: int, sb: int, sb2: int, l: int, r: int, sign: int, t: int)
    by (nonlinear_arith)
    requires
        sa2 == sa + l * t || (sa2 == sa && l == 0),
        sb2 == sb + r * t || (sb2 == sb && r == 0),
    ensures
        sa2 + sign * sb2 == sa + sign * sb + (l * t + sign * (r * t)),
{
}

/// One step of the merge keeps its invariant.
proof fn lemma_merge_step<K: TermKey>(
    a: Seq<(K, ConcreteBitvector)>,
    b: Seq<(K, ConcreteBitvector)>,
    old_r: Seq<(K, ConcreteBitvector)>,
    new_r: Seq<(K, ConcreteBitvector)>,
    old_i: int,
    old_j: int,
    new_i: int,
    new_j: int,
    key: K,
    left: ConcreteBitvector,
    right: ConcreteBitvector,
    combined: ConcreteBitvector,
    bound: RBound,
    sign: int,
    take_left: bool,
    take_right: bool,
)
    requires
        bound.wf(),
        bound.modulus() > 0,
        sign == 1 || sign == -1,
        terms_wf(a, bound),
        terms_wf(b, bound),
        0 <= old_i <= a.len(),
        0 <= old_j <= b.len(),
        take_left || take_right,
        take_left ==> old_i < a.len() && key == a[old_i].0 && left == a[old_i].1,
        !take_left ==> left.value == 0,
        take_right ==> old_j < b.len() && key == b[old_j].0 && right == b[old_j].1,
        !take_right ==> right.value == 0,
        take_left && !take_right && old_j < b.len() ==> key.key_lt(b[old_j].0),
        !take_left && take_right && old_i < a.len() ==> key.key_lt(a[old_i].0),
        new_i == (if take_left { old_i + 1 } else { old_i }),
        new_j == (if take_right { old_j + 1 } else { old_j }),
        combined.wf(),
        combined.bound == bound,
        combined.val() as int == (left.val() + sign * right.val()) % (bound.modulus() as int),
        new_r == (if combined.value != 0 { old_r.push((key, combined)) } else { old_r }),
        terms_wf(old_r, bound),
        terms_nonzero(old_r),
        forall|x: int| 0 <= x < old_r.len() ==> (old_i < a.len() ==> (#[trigger] old_r[x]).0.key_lt(a[old_i].0)),
        forall|x: int| 0 <= x < old_r.len() ==> (old_j < b.len() ==> (#[trigger] old_r[x]).0.key_lt(b[old_j].0)),
        forall|y: int| 0 <= y < old_j ==> (old_i < a.len() ==> (#[trigger] b[y]).0.key_lt(a[old_i].0)),
        forall|y: int| 0 <= y < old_i ==> (old_j < b.len() ==> (#[trigger] a[y]).0.key_lt(b[old_j].0)),
        forall|k: K|
            #[trigger] coeff_of(old_r, k) as int == (coeff_of(a.take(old_i), k) + sign * coeff_of(
                b.take(old_j),
                k,
            )) % (bound.modulus() as int),
        forall|tv: spec_fn(K) -> int|
            congruent(
                #[trigger] terms_sum(old_r, tv),
                terms_sum(a.take(old_i), tv) + sign * terms_sum(b.take(old_j), tv),
                bound.modulus(),
            ),
    ensures
        terms_wf(new_r, bound),
        terms_nonzero(new_r),
        forall|x: int| 0 <= x < new_r.len() ==> (new_i < a.len() ==> (#[trigger] new_r[x]).0.key_lt(a[new_i].0)),
        forall|x: int| 0 <= x < new_r.len() ==> (new_j < b.len() ==> (#[trigger] new_r[x]).0.key_lt(b[new_j].0)),
        forall|y: int| 0 <= y < new_j ==> (new_i < a.len() ==> (#[trigger] b[y]).0.key_lt(a[new_i].0)),
        forall|y: int| 0 <= y < new_i ==> (new_j < b.len() ==> (#[trigger] a[y]).0.key_lt(b[new_j].0)),
        forall|k: K|
            #[trigger] coeff_of(new_r, k) as int == (coeff_of(a.take(new_i), k) + sign * coeff_of(
                b.take(new_j),
                k,
            )) % (bound.modulus() as int),
        forall|tv: spec_fn(K) -> int|
            congruent(
                #[trigger] terms_sum(new_r, tv),
                terms_sum(a.take(new_i), tv) + sign * terms_sum(b.take(new_j), tv),
                bound.modulus(),
            ),
{
    let m = bound.modulus();
    let ai = a.take(old_i);
    let bj = b.take(old_j);
    let ai2 = a.take(new_i);
    let bj2 = b.take(new_j);
    // the new prefixes differ from the old ones by the taken terms
    if take_left {
        lemma_take_push(a, old_i);
    } else {
        assert(ai2 == ai);
    }
    if take_right {
        lemma_take_push(b, old_j);
    } else {
        assert(bj2 == bj);
    }
    // the key is not in the old prefixes
    assert forall|y: int| 0 <= y < ai.len() implies ai[y].0 != key by {
        K::lemma_key_order(key, key, key);
        if take_left {
            assert(a[y].0.key_lt(a[old_i].0));
        } else {
            assert(a[y].0.key_lt(b[old_j].0));
        }
    }
    assert forall|y: int| 0 <= y < bj.len() implies bj[y].0 != key by {
        K::lemma_key_order(key, key, key);
        if take_right {
            assert(b[y].0.key_lt(b[old_j].0));
        } else {
            assert(b[y].0.key_lt(a[old_i].0));
        }
    }
    // key ordering for the next elements
    if new_i < a.len() {
        if take_left {
            assert(key.key_lt(a[new_i].0));
        } else {
            assert(new_i == old_i);
        }
    }
    if new_j < b.len() {
        if take_right {
            assert(key.key_lt(b[new_j].0));
        } else {
            assert(new_j == old_j);
        }
    }
    // the old result keys are all below the key
    assert forall|x: int| 0 <= x < old_r.len() implies (#[trigger] old_r[x]).0.key_lt(key) by {
        if take_left {
            assert(old_i < a.len());
        } else {
            assert(old_j < b.len());
        }
    }
    // coefficients
    assert forall|k: K| #[trigger] coeff_of(new_r, k) as int == (coeff_of(ai2, k) + sign
        * coeff_of(bj2, k)) % (m as int) by {
        lemma_terms_push(old_r, (key, combined), |x: K| 0int);
        if take_left {
            lemma_terms_push(ai, a[old_i], |x: K| 0int);
        }
        if take_right {
            lemma_terms_push(bj, b[old_j], |x: K| 0int);
        }
        if k == key {
            lemma_coeff_of_index(ai, k);
            assert(terms_sorted(bj)) by {
                assert forall|x: int, y: int| 0 <= x < y < bj.len() implies (#[trigger] bj[x]).0.key_lt(
                    #[trigger] bj[y].0,
                ) by {
                    assert(bj[x] == b[x] && bj[y] == b[y]);
                }
            }
            assert(terms_sorted(ai)) by {
                assert forall|x: int, y: int| 0 <= x < y < ai.len() implies (#[trigger] ai[x]).0.key_lt(
                    #[trigger] ai[y].0,
                ) by {
                    assert(ai[x] == a[x] && ai[y] == a[y]);
                }
            }
            lemma_coeff_of_index(bj, k);
            lemma_coeff_of_index(old_r, k);
            assert forall|x: int| 0 <= x < old_r.len() implies old_r[x].0 != key by {
                K::lemma_key_order(key, key, key);
            }
            if combined.value == 0 {
                lemma_small_mod(0, m);
            } else {
            }
        }
    }
    // sums
    assert forall|tv: spec_fn(K) -> int| congruent(
        #[trigger] terms_sum(new_r, tv),
        terms_sum(ai2, tv) + sign * terms_sum(bj2, tv),
        m,
    ) by {
        lemma_terms_push(old_r, (key, combined), tv);
        if take_left {
            lemma_terms_push(ai, a[old_i], tv);
        }
        if take_right {
            lemma_terms_push(bj, b[old_j], tv);
        }
        let t = tv(key);
        let delta = left.val() * t + sign * (right.val() * t);
        lemma_sum_step(
            terms_sum(ai, tv),
            terms_sum(ai2, tv),
            terms_sum(bj, tv),
            terms_sum(bj2, tv),
            left.val() as int,
            right.val() as int,
            sign,
            t,
        );
        assert(congruent(combined.val() as int, left.val() + sign * right.val(), m)) by {
            lemma_mod_twice(left.val() + sign * right.val(), m as int);
            lemma_small_mod(combined.val(), m);
        }
        lemma_congruent_mul(combined.val() as int, left.val() + sign * right.val(), t, m);
        assert((left.val() + sign * right.val()) * t == delta) by (nonlinear_arith)
            requires
                delta == left.val() * t + sign * (right.val() * t),
        ;
        if combined.value != 0 {
            lemma_congruent_add(
                terms_sum(old_r, tv),
                terms_sum(ai, tv) + sign * terms_sum(bj, tv),
                combined.val() * t,
                delta,
                m,
            );
        } else {
            assert(congruent(0, delta, m)) by {
                lemma_small_mod(0, m);
            }
            lemma_congruent_add(
                terms_sum(old_r, tv),
                terms_sum(ai, tv) + sign * terms_sum(bj, tv),
                0,
                delta,
                m,
            );
        }
    }
    // new result is sorted and well-formed
    if combined.value != 0 {
        assert forall|x: int, y: int| 0 <= x < y < new_r.len() implies (#[trigger] new_r[x]).0.key_lt(
            #[trigger] new_r[y].0,
        ) by {
            if y == new_r.len() - 1 {
                assert(new_r[x] == old_r[x]);
            } else {
                assert(new_r[x] == old_r[x] && new_r[y] == old_r[y]);
            }
        }
    }
    // ordering against the next elements
    assert forall|x: int| 0 <= x < new_r.len() && new_i < a.len() implies (#[trigger] new_r[x]).0.key_lt(
        a[new_i].0,
    ) by {
        if new_i < a.len() {
            if x < old_r.len() {
                assert(new_r[x] == old_r[x]);
                if take_left {
                    assert(a[old_i].0.key_lt(a[new_i].0));
                    K::lemma_key_order(old_r[x].0, a[old_i].0, a[new_i].0);
                }
            }
        }
    }
    assert forall|x: int| 0 <= x < new_r.len() && new_j < b.len() implies (#[trigger] new_r[x]).0.key_lt(
        b[new_j].0,
    ) by {
        if new_j < b.len() {
            if x < old_r.len() {
                assert(new_r[x] == old_r[x]);
                if take_right {
                    assert(b[old_j].0.key_lt(b[new_j].0));
                    K::lemma_key_order(old_r[x].0, b[old_j].0, b[new_j].0);
                }
            }
        }
    }
    assert forall|y: int| 0 <= y < new_j && new_i < a.len() implies (#[trigger] b[y]).0.key_lt(
        a[new_i].0,
    ) by {
        if new_i < a.len() {
            if take_left {
                assert(a[old_i].0.key_lt(a[new_i].0));
            }
            if y < old_j {
                if take_left {
                    K::lemma_key_order(b[y].0, a[old_i].0, a[new_i].0);
                }
            } else {
                // y is the taken right term
                if take_left {
                    K::lemma_key_order(b[y].0, a[old_i].0, a[new_i].0);
                }
            }
        }
    }
    assert forall|y: int| 0 <= y < new_i && new_j < b.len() implies (#[trigger] a[y]).0.key_lt(
        b[new_j].0,
    ) by {
        if new_j < b.len() {
            if take_right {
                assert(b[old_j].0.key_lt(b[new_j].0));
            }
            if y < old_i {
                if take_right {
                    K::lemma_key_order(a[y].0, b[old_j].0, b[new_j].0);
                }
            } else {
                if take_right {
                    K::lemma_key_order(a[y].0, b[old_j].0, b[new_j].0);
                }
            }
        }
    }
}

/// Terms whose coefficients are `f` times those of another list, modulo `m`,
/// sum to `f` times its sum, modulo `m`.
pub proof fn lemma_pointwise<K: TermKey>(
    s: Seq<(K, ConcreteBitvector)>,
    t: Seq<(K, ConcreteBitvector)>,
    f: int,
    m: nat,
)
    requires
        m > 0,
        s.len() == t.len(),
        forall|i: int|
            0 <= i < s.len() ==> (#[trigger] t[i]).0 == s[i].0 && t[i].1.val() as int == (f
                * s[i].1.val()) % (m as int),
    ensures
        forall|tv: spec_fn(K) -> int| congruent(#[trigger] terms_sum(t, tv), f * terms_sum(s, tv), m),
        forall|k: K| #[trigger] coeff_of(t, k) as int == (f * coeff_of(s, k)) % (m as int),
    decreases s.len(),
{
    if s.len() == 0 {
        assert forall|tv: spec_fn(K) -> int| congruent(#[trigger] terms_sum(t, tv), f * terms_sum(s, tv), m) by {
            assert(f * 0 == 0);
        }
        assert forall|k: K| #[trigger] coeff_of(t, k) as int == (f * coeff_of(s, k)) % (m as int) by {
            assert(f * 0 == 0);
            lemma_small_mod(0, m);
        }
    } else {
        let n = s.len() - 1;
        let s0 = s.drop_last();
        let t0 = t.drop_last();
        assert forall|i: int| 0 <= i < s0.len() implies (#[trigger] t0[i]).0 == s0[i].0 && t0[i].1.val() as int == (f
            * s0[i].1.val()) % (m as int) by {
            assert(t0[i] == t[i] && s0[i] == s[i]);
        }
        lemma_pointwise(s0, t0, f, m);
        assert(t[n].0 == s[n].0);
        assert forall|tv: spec_fn(K) -> int| congruent(#[trigger] terms_sum(t, tv), f * terms_sum(s, tv), m) by {
            let x = tv(s[n].0);
            assert(congruent(t[n].1.val() as int, f * s[n].1.val(), m)) by {
                lemma_mod_twice(f * s[n].1.val(), m as int);
                lemma_small_mod(t[n].1.val(), m);
            }
            lemma_congruent_mul(t[n].1.val() as int, f * s[n].1.val(), x, m);
            lemma_congruent_add(terms_sum(t0, tv), f * terms_sum(s0, tv), t[n].1.val() * x, (f * s[n].1.val()) * x, m);
            assert(f * terms_sum(s0, tv) + (f * s[n].1.val()) * x == f * (terms_sum(s0, tv) + s[n].1.val() * x)) by (nonlinear_arith);
        }
        assert forall|k: K| #[trigger] coeff_of(t, k) as int == (f * coeff_of(s, k)) % (m as int) by {
            if k == s[n].0 {
            } else {
                assert(coeff_of(t, k) == coeff_of(t0, k));
                assert(coeff_of(s, k) == coeff_of(s0, k));
            }
        }
    }
}

/// Multiplies every coefficient by a scaler, modulo the bound.
pub fn scale_terms<K: TermKey>(s: &mut Vec<(K, ConcreteBitvector)>, scaler: ConcreteBitvector)
    requires
        scaler.wf(),
        terms_wf(old(s)@, scaler.bound),
    ensures
        terms_wf(final(s)@, scaler.bound),
        terms_keys(final(s)@) == terms_keys(old(s)@),
        terms_keys_wf(old(s)@) ==> terms_keys_wf(final(s)@),
        final(s)@.len() == old(s)@.len(),
        forall|i: int|
            0 <= i < old(s)@.len() ==> (#[trigger] final(s)@[i]).1.val() == (old(s)@[i].1.val()
                * scaler.val()) % scaler.modulus(),
        forall|k: K|
            #[trigger] coeff_of(final(s)@, k) as int == ((scaler.val() as int) * coeff_of(old(s)@, k)) % (
            scaler.modulus() as int),
        forall|tv: spec_fn(K) -> int|
            congruent(
                #[trigger] terms_sum(final(s)@, tv),
                (scaler.val() as int) * terms_sum(old(s)@, tv),
                scaler.modulus(),
            ),
{
    let ghost orig = s@;
    let n = s.len();
    let mut i: usize = 0;
    while i < n
        invariant
            scaler.wf(),
            n == orig.len(),
            s@.len() == n,
            0 <= i <= n,
            terms_wf(orig, scaler.bound),
            forall|x: int| 0 <= x < n ==> (#[trigger] s@[x]).0 == orig[x].0,
            forall|x: int| 0 <= x < n ==> (#[trigger] s@[x]).1.wf() && s@[x].1.bound == scaler.bound,
            forall|x: int|
                0 <= x < i ==> (#[trigger] s@[x]).1.val() == (orig[x].1.val() * scaler.val())
                    % scaler.modulus(),
            forall|x: int| i <= x < n ==> (#[trigger] s@[x]) == orig[x],
        decreases n - i,
    {
        let (key, coefficient) = s[i];
        let scaled = coefficient.mul(scaler);
        s.set(i, (key, scaled));
        i = i + 1;
    }
    proof {
        crate::domain::bitvector::lemma_modulus_bounds(scaler.bound);
        assert forall|x: int| 0 <= x < orig.len() implies (#[trigger] s@[x]).0 == orig[x].0 && s@[x].1.val() as int == ((scaler.val() as int)
            * orig[x].1.val()) % (scaler.modulus() as int) by {
            assert(orig[x].1.val() * scaler.val() == scaler.val() * orig[x].1.val()) by (nonlinear_arith);
        }
        lemma_pointwise(orig, s@, scaler.val() as int, scaler.modulus());
        assert(terms_keys(s@) =~= terms_keys(orig));
        assert forall|x: int| 0 <= x < s@.len() && terms_keys_wf(orig) implies (#[trigger] s@[x]).0.key_wf() by {
            assert(orig[x].0.key_wf());
        }
        assert forall|x: int, y: int| 0 <= x < y < s@.len() implies (#[trigger] s@[x]).0.key_lt(#[trigger] s@[y].0) by {
            assert(orig[x].0.key_lt(orig[y].0));
        }
    }
}

/// Negates every coefficient, modulo the bound.
pub fn negate_terms<K: TermKey>(s: &mut Vec<(K, ConcreteBitvector)>, bound: RBound)
    requires
        bound.wf(),
        terms_wf(old(s)@, bound),
    ensures
        terms_wf(final(s)@, bound),
        terms_keys(final(s)@) == terms_keys(old(s)@),
        terms_keys_wf(old(s)@) ==> terms_keys_wf(final(s)@),
        final(s)@.len() == old(s)@.len(),
        forall|i: int|
            0 <= i < old(s)@.len() ==> (#[trigger] final(s)@[i]).1.val() as int == (-(old(s)@[i].1.val() as int))
                % (bound.modulus() as int),
        forall|k: K|
            #[trigger] coeff_of(final(s)@, k) as int == (-1 * coeff_of(old(s)@, k)) % (bound.modulus() as int),
        forall|tv: spec_fn(K) -> int|
            congruent(#[trigger] terms_sum(final(s)@, tv), -1 * terms_sum(old(s)@, tv), bound.modulus()),
{
    let ghost orig = s@;
    let n = s.len();
    let mut i: usize = 0;
    while i < n
        invariant
            bound.wf(),
            n == orig.len(),
            s@.len() == n,
            0 <= i <= n,
            terms_wf(orig, bound),
            forall|x: int| 0 <= x < n ==> (#[trigger] s@[x]).0 == orig[x].0,
            forall|x: int| 0 <= x < n ==> (#[trigger] s@[x]).1.wf() && s@[x].1.bound == bound,
            forall|x: int|
                0 <= x < i ==> (#[trigger] s@[x]).1.val() as int == (-(orig[x].1.val() as int)) % (bound.modulus() as int),
            forall|x: int| i <= x < n ==> (#[trigger] s@[x]) == orig[x],
        decreases n - i,
    {
        let (key, coefficient) = s[i];
        let negated = coefficient.arith_neg();
        s.set(i, (key, negated));
        i = i + 1;
    }
    proof {
        crate::domain::bitvector::lemma_modulus_bounds(bound);
        assert forall|x: int| 0 <= x < orig.len() implies (#[trigger] s@[x]).0 == orig[x].0 && s@[x].1.val() as int == (-1
            * orig[x].1.val()) % (bound.modulus() as int) by {}
        lemma_pointwise(orig, s@, -1, bound.modulus());
        assert(terms_keys(s@) =~= terms_keys(orig));
        assert forall|x: int| 0 <= x < s@.len() && terms_keys_wf(orig) implies (#[trigger] s@[x]).0.key_wf() by {
            assert(orig[x].0.key_wf());
        }
        assert forall|x: int, y: int| 0 <= x < y < s@.len() implies (#[trigger] s@[x]).0.key_lt(#[trigger] s@[y].0) by {
            assert(orig[x].0.key_lt(orig[y].0));
        }
    }
}

/// Converts every coefficient to a new bound (truncating or zero-extending).
pub fn convert_terms<K: TermKey>(s: &mut Vec<(K, ConcreteBitvector)>, old_bound: RBound, new_bound: RBound)
    requires
        old_bound.wf(),
        new_bound.wf(),
        terms_wf(old(s)@, old_bound),
    ensures
        terms_wf(final(s)@, new_bound),
        terms_keys(final(s)@) == terms_keys(old(s)@),
        terms_keys_wf(old(s)@) ==> terms_keys_wf(final(s)@),
        final(s)@.len() == old(s)@.len(),
        forall|i: int|
            0 <= i < old(s)@.len() ==> (#[trigger] final(s)@[i]).1.val() == old(s)@[i].1.val() % new_bound.modulus(),
        forall|k: K|
            #[trigger] coeff_of(final(s)@, k) == coeff_of(old(s)@, k) % new_bound.modulus(),
        forall|tv: spec_fn(K) -> int|
            congruent(#[trigger] terms_sum(final(s)@, tv), terms_sum(old(s)@, tv), new_bound.modulus()),
{
    let ghost orig = s@;
    let n = s.len();
    let mut i: usize = 0;
    while i < n
        invariant
            old_bound.wf(),
            new_bound.wf(),
            n == orig.len(),
            s@.len() == n,
            0 <= i <= n,
            terms_wf(orig, old_bound),
            forall|x: int| 0 <= x < n ==> (#[trigger] s@[x]).0 == orig[x].0,
            forall|x: int| 0 <= x < i ==> (#[trigger] s@[x]).1.wf() && s@[x].1.bound == new_bound
                && s@[x].1.val() == orig[x].1.val() % new_bound.modulus(),
            forall|x: int| i <= x < n ==> (#[trigger] s@[x]) == orig[x],
        decreases n - i,
    {
        let (key, coefficient) = s[i];
        let converted = coefficient.uext(new_bound);
        s.set(i, (key, converted));
        i = i + 1;
    }
    proof {
        crate::domain::bitvector::lemma_modulus_bounds(new_bound);
        assert forall|x: int| 0 <= x < orig.len() implies (#[trigger] s@[x]).0 == orig[x].0 && s@[x].1.val() as int == (1int
            * orig[x].1.val()) % (new_bound.modulus() as int) by {}
        lemma_pointwise(orig, s@, 1int, new_bound.modulus());
        assert(terms_keys(s@) =~= terms_keys(orig));
        assert forall|x: int| 0 <= x < s@.len() && terms_keys_wf(orig) implies (#[trigger] s@[x]).0.key_wf() by {
            assert(orig[x].0.key_wf());
        }
        assert forall|x: int, y: int| 0 <= x < y < s@.len() implies (#[trigger] s@[x]).0.key_lt(#[trigger] s@[y].0) by {
            assert(orig[x].0.key_lt(orig[y].0));
        }
        assert forall|tv: spec_fn(K) -> int| congruent(#[trigger] terms_sum(s@, tv), terms_sum(orig, tv), new_bound.modulus()) by {
            assert(1 * terms_sum(orig, tv) == terms_sum(orig, tv));
        }
    }
}

/// Removes the terms with zero coefficients.
pub fn normalize_terms<K: TermKey>(s: &mut Vec<(K, ConcreteBitvector)>, bound: RBound)
    requires
        terms_wf(old(s)@, bound),
    ensures
        terms_wf(final(s)@, bound),
        terms_nonzero(final(s)@),
        terms_keys_wf(old(s)@) ==> terms_keys_wf(final(s)@),
        forall|k: K| #[trigger] coeff_of(final(s)@, k) == coeff_of(old(s)@, k),
        forall|tv: spec_fn(K) -> int| #[trigger] terms_sum(final(s)@, tv) == terms_sum(old(s)@, tv),
        forall|i: int| 0 <= i < final(s)@.len() ==> old(s)@.contains(#[trigger] final(s)@[i]),
        terms_nonzero(old(s)@) ==> final(s)@ == old(s)@,
{
    let ghost orig = s@;
    let mut r: Vec<(K, ConcreteBitvector)> = Vec::new();
    let n = s.len();
    let mut i: usize = 0;
    while i < n
        invariant
            n == orig.len(),
            s@ == orig,
            0 <= i <= n,
            terms_wf(orig, bound),
            terms_wf(r@, bound),
            terms_nonzero(r@),
            forall|x: int| 0 <= x < r.len() ==> (i < n ==> (#[trigger] r@[x]).0.key_lt(orig[i as int].0)),
            forall|x: int| 0 <= x < r.len() ==> orig.take(i as int).contains(#[trigger] r@[x]),
            forall|k: K| #[trigger] coeff_of(r@, k) == coeff_of(orig.take(i as int), k),
            forall|tv: spec_fn(K) -> int| #[trigger] terms_sum(r@, tv) == terms_sum(orig.take(i as int), tv),
            terms_nonzero(orig) ==> r@ == orig.take(i as int),
        decreases n - i,
    {
        let term = s[i];
        let ghost old_r = r@;
        if term.1.is_nonzero() {
            r.push(term);
        }
        proof {
            lemma_take_push(orig, i as int);
            let pre = orig.take(i as int);
            assert forall|k: K| #[trigger] coeff_of(r@, k) == coeff_of(orig.take(i + 1), k) by {
                lemma_terms_push(old_r, term, |x: K| 0int);
                lemma_terms_push(pre, term, |x: K| 0int);
                if k == term.0 && term.1.value == 0 {
                    lemma_coeff_of_index(old_r, k);
                    assert forall|x: int| 0 <= x < old_r.len() implies old_r[x].0 != k by {
                        K::lemma_key_order(k, k, k);
                    }
                }
            }
            assert forall|tv: spec_fn(K) -> int| #[trigger] terms_sum(r@, tv) == terms_sum(orig.take(i + 1), tv) by {
                lemma_terms_push(old_r, term, tv);
                lemma_terms_push(pre, term, tv);
            }
            assert forall|x: int| 0 <= x < r.len() implies orig.take(i + 1).contains(#[trigger] r@[x]) by {
                if x < old_r.len() {
                    let y = choose|y: int| 0 <= y < pre.len() && pre[y] == old_r[x];
                    assert(orig.take(i + 1)[y] == old_r[x]);
                } else {
                    assert(orig.take(i + 1)[i as int] == term);
                }
            }
            if term.1.value != 0 {
                assert forall|x: int, y: int| 0 <= x < y < r.len() implies (#[trigger] r@[x]).0.key_lt(#[trigger] r@[y].0) by {
                    if y < old_r.len() {
                        assert(r@[x] == old_r[x] && r@[y] == old_r[y]);
                    } else {
                        assert(r@[x] == old_r[x]);
                    }
                }
            }
            assert forall|x: int| 0 <= x < r.len() && i + 1 < n implies (#[trigger] r@[x]).0.key_lt(orig[i + 1].0) by {
                assert(orig[i as int].0.key_lt(orig[i + 1].0));
                if x < old_r.len() {
                    assert(r@[x] == old_r[x]);
                    K::lemma_key_order(old_r[x].0, orig[i as int].0, orig[i + 1].0);
                }
            }
        }
        i = i + 1;
    }
    proof {
        assert(orig.take(n as int) =~= orig);
        assert forall|x: int| 0 <= x < r@.len() && terms_keys_wf(orig) implies (#[trigger] r@[x]).0.key_wf() by {
            let y = choose|y: int| 0 <= y < orig.len() && orig[y] == r@[x];
            assert(orig[y].0.key_wf());
        }
    }
    *s = r;
}

/// Inserts a term, replacing the term with the same key if there is one.
pub fn insert_term<K: TermKey>(s: &Vec<(K, ConcreteBitvector)>, t: (K, ConcreteBitvector), bound: RBound) -> (r: Vec<(K, ConcreteBitvector)>)
    requires
        terms_wf(s@, bound),
        t.1.wf(),
        t.1.bound == bound,
    ensures
        terms_wf(r@, bound),
        terms_nonzero(s@) && t.1.value != 0 ==> terms_nonzero(r@),
        terms_keys_wf(s@) && t.0.key_wf() ==> terms_keys_wf(r@),
        forall|k: K| #[trigger] coeff_of(r@, k) == if k == t.0 { t.1.val() } else { coeff_of(s@, k) },
        forall|x: int| 0 <= x < r@.len() ==> (#[trigger] r@[x]) == t || s@.contains(r@[x]),
{
    let mut r: Vec<(K, ConcreteBitvector)> = Vec::new();
    let n = s.len();
    let mut i: usize = 0;
    let mut inserted = false;
    while i < n
        invariant
            n == s@.len(),
            0 <= i <= n,
            terms_wf(s@, bound),
            t.1.wf(),
            t.1.bound == bound,
            terms_wf(r@, bound),
            terms_nonzero(s@) && t.1.value != 0 ==> terms_nonzero(r@),
            forall|x: int| 0 <= x < r.len() ==> (#[trigger] r@[x]) == t || s@.contains(r@[x]),
            forall|x: int| 0 <= x < r.len() ==> (i < n ==> (#[trigger] r@[x]).0.key_lt(s@[i as int].0)),
            !inserted ==> forall|x: int| 0 <= x < r.len() ==> (#[trigger] r@[x]).0.key_lt(t.0),
            !inserted ==> forall|x: int| 0 <= x < i ==> (#[trigger] s@[x]).0.key_lt(t.0),
            inserted ==> (i < n ==> t.0.key_lt(s@[i as int].0)),
            forall|k: K| #[trigger] coeff_of(r@, k) == if inserted && k == t.0 { t.1.val() } else { coeff_of(s@.take(i as int), k) },
        decreases n - i,
    {
        let term = s[i];
        let ghost old_r = r@;
        let ghost was_inserted = inserted;
        proof {
            lemma_take_push(s@, i as int);
            if i + 1 < n {
                assert(s@[i as int].0.key_lt(s@[i + 1].0));
            }
        }
        if inserted {
            r.push(term);
        } else if t.0.key_equal(&term.0) {
            r.push(t);
            inserted = true;
        } else if t.0.key_less(&term.0) {
            r.push(t);
            r.push(term);
            inserted = true;
        } else {
            r.push(term);
        }
        proof {
            K::lemma_key_order(t.0, term.0, t.0);
            K::lemma_key_order(term.0, term.0, term.0);
            let pre = s@.take(i as int);
            assert forall|k: K| #[trigger] coeff_of(r@, k) == if inserted && k == t.0 { t.1.val() } else { coeff_of(s@.take(i + 1), k) } by {
                lemma_terms_push(pre, term, |x: K| 0int);
                lemma_terms_push(old_r, term, |x: K| 0int);
                lemma_terms_push(old_r, t, |x: K| 0int);
                lemma_terms_push(old_r.push(t), term, |x: K| 0int);
            }
            assert forall|x: int, y: int| 0 <= x < y < r.len() implies (#[trigger] r@[x]).0.key_lt(#[trigger] r@[y].0) by {
                if y < old_r.len() {
                    assert(r@[x] == old_r[x] && r@[y] == old_r[y]);
                } else if x < old_r.len() {
                    assert(r@[x] == old_r[x]);
                    if !was_inserted {
                        K::lemma_key_order(old_r[x].0, t.0, term.0);
                    }
                } else {
                }
            }
            assert forall|x: int| 0 <= x < r.len() && i + 1 < n implies (#[trigger] r@[x]).0.key_lt(s@[i + 1].0) by {
                if x < old_r.len() {
                    assert(r@[x] == old_r[x]);
                    K::lemma_key_order(old_r[x].0, term.0, s@[i + 1].0);
                } else if r@[x].0 == t.0 {
                    K::lemma_key_order(t.0, term.0, s@[i + 1].0);
                }
            }
            if inserted && !was_inserted && i + 1 < n {
                K::lemma_key_order(t.0, term.0, s@[i + 1].0);
            }
            if inserted && was_inserted && i + 1 < n {
                K::lemma_key_order(t.0, term.0, s@[i + 1].0);
            }
            assert forall|x: int| 0 <= x < r.len() implies (#[trigger] r@[x]) == t || s@.contains(r@[x]) by {
                if x < old_r.len() {
                    assert(r@[x] == old_r[x]);
                } else if r@[x] != t {
                    assert(r@[x] == s@[i as int]);
                }
            }
            assert forall|x: int| 0 <= x < r.len() && !inserted implies (#[trigger] r@[x]).0.key_lt(t.0) by {
                if x < old_r.len() {
                    assert(r@[x] == old_r[x]);
                }
            }
        }
        i = i + 1;
    }
    proof {
        assert(s@.take(n as int) =~= s@);
    }
    if !inserted {
        let ghost old_r = r@;
        r.push(t);
        proof {
            lemma_terms_push(old_r, t, |x: K| 0int);
            assert forall|x: int, y: int| 0 <= x < y < r.len() implies (#[trigger] r@[x]).0.key_lt(#[trigger] r@[y].0) by {
                if y < old_r.len() {
                    assert(r@[x] == old_r[x] && r@[y] == old_r[y]);
                } else {
                    assert(r@[x] == old_r[x]);
                }
            }
            assert forall|k: K| #[trigger] coeff_of(r@, k) == if k == t.0 { t.1.val() } else { coeff_of(s@, k) } by {
                if k == t.0 {
                    lemma_coeff_of_index(s@, k);
                    assert forall|x: int| 0 <= x < s@.len() implies s@[x].0 != k by {
                        K::lemma_key_order(k, k, k);
                    }
                }
            }
        }
        proof {
            assert forall|x: int| 0 <= x < r.len() implies (#[trigger] r@[x]) == t || s@.contains(r@[x]) by {
                if x < old_r.len() {
                    assert(r@[x] == old_r[x]);
                }
            }
        }
    } else {
        proof {
            assert forall|k: K| #[trigger] coeff_of(r@, k) == if k == t.0 { t.1.val() } else { coeff_of(s@, k) } by {}
        }
    }
    proof {
        assert forall|x: int| 0 <= x < r@.len() && terms_keys_wf(s@) && t.0.key_wf() implies (#[trigger] r@[x]).0.key_wf() by {
            if r@[x] != t {
                let y = choose|y: int| 0 <= y < s@.len() && s@[y] == r@[x];
                assert(s@[y].0.key_wf());
            }
        }
    }
    r
}

/// Copies a list of terms.
pub fn copy_terms<K: TermKey>(s: &Vec<(K, ConcreteBitvector)>) -> (r: Vec<(K, ConcreteBitvector)>)
    ensures
        r@ == s@,
{
    let mut r: Vec<(K, ConcreteBitvector)> = Vec::new();
    let mut i: usize = 0;
    while i < s.len()
        invariant
            0 <= i <= s.len(),
            r@ == s@.take(i as int),
        decreases s.len() - i,
    {
        r.push(s[i]);
        proof {
            lemma_take_push(s@, i as int);
        }
        i = i + 1;
    }
    proof {
        assert(s@.take(s.len() as int) =~= s@);
    }
    r
}

/// The value of a constant plus terms, combined as `x + sign * y`, equals the
/// combination of the values.
pub proof fn lemma_combined_value(c1: int, c2: int, c: int, s1: int, s2: int, s: int, sign: int, m: nat)
    requires
        m > 0,
        sign == 1 || sign == -1,
        c == (c1 + sign * c2) % (m as int),
        congruent(s, s1 + sign * s2, m),
    ensures
        (c + s) % (m as int) == ((c1 + s1) % (m as int) + sign * ((c2 + s2) % (m as int))) % (m as int),
{
    let mi = m as int;
    lemma_mod_twice(c1 + sign * c2, mi);
    lemma_congruent_add(c, c1 + sign * c2, s, s1 + sign * s2, m);
    assert(c1 + sign * c2 + (s1 + sign * s2) == (c1 + s1) + sign * (c2 + s2)) by (nonlinear_arith);
    if sign == 1 {
        lemma_add_mod_noop(c1 + s1, c2 + s2, mi);
    } else {
        lemma_sub_mod_noop(c1 + s1, c2 + s2, mi);
    }
}

/// The value of a constant plus terms, each scaled by `f`, is `f` times the value.
pub proof fn lemma_scaled_value(c1: int, c: int, s1: int, s: int, f: int, m: nat)
    requires
        m > 0,
        c == (f * c1) % (m as int),
        congruent(s, f * s1, m),
    ensures
        (c + s) % (m as int) == (f * ((c1 + s1) % (m as int))) % (m as int),
{
    let mi = m as int;
    lemma_mod_twice(f * c1, mi);
    lemma_congruent_add(c, f * c1, s, f * s1, m);
    assert(f * c1 + f * s1 == f * (c1 + s1)) by (nonlinear_arith);
    lemma_mul_mod_noop_right(f, c1 + s1, mi);
}

/// The last key of a sorted nonempty list is greater than every other key.
proof fn lemma_last_key_greatest<K: TermKey>(s: Seq<(K, ConcreteBitvector)>, i: int)
    requires
        terms_sorted(s),
        0 <= i < s.len() - 1,
    ensures
        s[i].0.key_lt(s.last().0),
        s[i].0 != s.last().0,
{
    assert(s[i].0.key_lt(s[s.len() - 1].0));
    K::lemma_key_order(s[i].0, s[i].0, s[i].0);
}

/// Normal form is canonical: two sorted lists without zero coefficients
/// that give every key the same coefficient are equal.
pub proof fn lemma_terms_canonical<K: TermKey>(a: Seq<(K, ConcreteBitvector)>, b: Seq<(K, ConcreteBitvector)>, bound: RBound)
    requires
        terms_wf(a, bound),
        terms_wf(b, bound),
        terms_nonzero(a),
        terms_nonzero(b),
        forall|k: K| #[trigger] coeff_of(a, k) == coeff_of(b, k),
    ensures
        a == b,
    decreases a.len() + b.len(),
{
    if a.len() == 0 && b.len() == 0 {
        assert(a =~= b);
        return;
    }
    if a.len() == 0 {
        let k = b.last().0;
        lemma_coeff_of_index(b, k);
        assert(b[b.len() - 1].1.value != 0);
        assert(coeff_of(a, k) == coeff_of(b, k));
        assert(false);
    }
    if b.len() == 0 {
        let k = a.last().0;
        lemma_coeff_of_index(a, k);
        assert(a[a.len() - 1].1.value != 0);
        assert(coeff_of(a, k) == coeff_of(b, k));
        assert(false);
    }
    let ka = a.last().0;
    let kb = b.last().0;
    lemma_coeff_of_index(a, ka);
    lemma_coeff_of_index(b, kb);
    lemma_coeff_of_index(a, kb);
    lemma_coeff_of_index(b, ka);
    assert(a[a.len() - 1].1.value != 0);
    assert(b[b.len() - 1].1.value != 0);
    assert(coeff_of(a, ka) == coeff_of(b, ka));
    assert(coeff_of(a, kb) == coeff_of(b, kb));
    if ka != kb {
        // each last key has a nonzero coefficient in the other list, so it
        // occurs there, below that list's last key
        let i = choose|i: int| 0 <= i < b.len() && b[i].0 == ka;
        let j = choose|j: int| 0 <= j < a.len() && a[j].0 == kb;
        if i < b.len() - 1 {
            lemma_last_key_greatest(b, i);
        }
        if j < a.len() - 1 {
            lemma_last_key_greatest(a, j);
        }
        K::lemma_key_order(ka, kb, ka);
        assert(false);
    }
    assert(a.last().1 == b.last().1);
    let ta = a.drop_last();
    let tb = b.drop_last();
    assert forall|i: int, j: int| 0 <= i < j < ta.len() implies (#[trigger] ta[i].0).key_lt(#[trigger] ta[j].0) by {
        assert(a[i].0.key_lt(a[j].0));
    }
    assert forall|i: int, j: int| 0 <= i < j < tb.len() implies (#[trigger] tb[i].0).key_lt(#[trigger] tb[j].0) by {
        assert(b[i].0.key_lt(b[j].0));
    }
    assert forall|i: int| 0 <= i < ta.len() implies (#[trigger] ta[i].1).wf() && ta[i].1.bound == bound && ta[i].1.value != 0 by {
        assert(a[i].1.wf() && a[i].1.value != 0);
    }
    assert forall|i: int| 0 <= i < tb.len() implies (#[trigger] tb[i].1).wf() && tb[i].1.bound == bound && tb[i].1.value != 0 by {
        assert(b[i].1.wf() && b[i].1.value != 0);
    }
    lemma_coeff_of_index(ta, ka);
    lemma_coeff_of_index(tb, ka);
    assert forall|i: int| 0 <= i < ta.len() implies ta[i].0 != ka by {
        lemma_last_key_greatest(a, i);
    }
    assert forall|i: int| 0 <= i < tb.len() implies tb[i].0 != ka by {
        lemma_last_key_greatest(b, i);
    }
    assert forall|k: K| #[trigger] coeff_of(ta, k) == coeff_of(tb, k) by {
        assert(coeff_of(a, k) == coeff_of(b, k));
    }
    lemma_terms_canonical(ta, tb, bound);
    assert(a =~= ta.push(a.last()));
    assert(b =~= tb.push(b.last()));
}

} // verus!
