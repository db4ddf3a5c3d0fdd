//! The linear abstraction of operation results: a result is either unknown
//! (top) or a linear polynomial or system over slices of formula results.
//! Each operation on bitvectors has a counterpart here that keeps the
//! result linear where it can and gives top otherwise.
use vstd::prelude::*;
use vstd::string::StringExecFns;

use vstd::arithmetic::div_mod::*;
use vstd::arithmetic::power2::pow2;

use crate::domain::bitvector::{lemma_modulus_bounds, ConcreteBitvector, RBound};
use crate::problem::formula::FormulaId;
use crate::problem::operation::linear::combination::LinearCombination;
use crate::problem::operation::linear::polynomial::eq::ite_value;
use crate::problem::operation::linear::relation::LinearRelation;
use crate::problem::operation::linear::{LinearOperation, LinearOperationType, LinearPolynomial, LinearSlice, LinearSystem};

verus! {

/// A polynomial without terms has its constant as its value.
pub proof fn lemma_constant_eval(p: LinearPolynomial)
    requires
        p.wf(),
        p.linear_terms@.len() == 0,
    ensures
        forall|tv: spec_fn(LinearSlice) -> int| #[trigger] p.eval(tv) == p.constant_term.val(),
{
    assert forall|tv: spec_fn(LinearSlice) -> int| #[trigger] p.eval(tv) == p.constant_term.val() by {
        assert(crate::problem::terms::terms_sum(p.linear_terms@, tv) == 0);
        vstd::arithmetic::div_mod::lemma_small_mod(p.constant_term.val(), p.modulus());
    }
}

/// A linear abstraction of an operation result.
#[derive(Clone, Debug, PartialEq, Eq)]
pub enum OperationDomain {
    /// Nothing known of the result but its bound.
    Top(RBound),
    /// The result is the value of the linear operation.
    Linear(LinearOperation),
}

impl OperationDomain {
    /// The bound or the linear operation is well-formed, and a system has
    /// relations.
    pub open spec fn wf(self) -> bool {
        match self {
            OperationDomain::Top(bound) => bound.wf(),
            OperationDomain::Linear(linear) => linear.wf() && (linear.0 matches LinearOperationType::System(system)
                ==> system.relations().len() > 0),
        }
    }

    pub open spec fn spec_bound(self) -> RBound {
        match self {
            OperationDomain::Top(bound) => bound,
            OperationDomain::Linear(linear) => linear.spec_result_bound(),
        }
    }

    /// Whether the element stands for the value when each slice has the
    /// value `tv(slice)`: top stands for every value of its bound, a linear
    /// operation for its value.
    pub open spec fn represents(self, tv: spec_fn(LinearSlice) -> int, v: int) -> bool {
        match self {
            OperationDomain::Top(bound) => 0 <= v < bound.modulus(),
            OperationDomain::Linear(linear) => v == linear.value(tv),
        }
    }

    /// The bound of the result.
    pub fn bound(&self) -> (r: RBound)
        ensures
            r == self.spec_bound(),
    {
        match self {
            OperationDomain::Top(bound) => *bound,
            OperationDomain::Linear(linear) => linear.result_bound(),
        }
    }

    /// Nothing known of a result of the bound.
    pub fn top(bound: RBound) -> (r: OperationDomain)
        ensures
            r == OperationDomain::Top(bound),
    {
        OperationDomain::Top(bound)
    }

    /// The constant value.
    pub fn single_value(value: ConcreteBitvector) -> (r: OperationDomain)
        requires
            value.wf(),
        ensures
            r.wf(),
            r.spec_bound() == value.bound,
            forall|tv: spec_fn(LinearSlice) -> int| #[trigger] r.represents(tv, value.val() as int),
    {
        let p = LinearPolynomial::from_constant(value);
        proof {
            lemma_constant_eval(p);
        }
        Self::from_polynomial(p)
    }

    /// No concrete value is kept by the linear abstraction.
    pub fn concrete_value(&self) -> (r: Option<ConcreteBitvector>)
        ensures
            r is None,
    {
        None
    }

    /// The formulas that the element uses.
    pub fn used_ids(&self) -> (r: Vec<FormulaId>)
        ensures
            r@ == match self {
                OperationDomain::Top(_) => Seq::empty(),
                OperationDomain::Linear(linear) => linear.spec_used_ids(),
            },
    {
        match self {
            OperationDomain::Top(_) => Vec::new(),
            OperationDomain::Linear(linear) => linear.used_ids(),
        }
    }

    /// The polynomial of the element, or the element itself where it is not
    /// a polynomial.
    pub fn try_polynomial(self) -> (r: Result<LinearPolynomial, OperationDomain>)
        ensures
            match self {
                OperationDomain::Linear(linear) => match linear.0 {
                    LinearOperationType::Polynomial(p) => r == Ok::<LinearPolynomial, OperationDomain>(p),
                    _ => r == Err::<LinearPolynomial, OperationDomain>(self),
                },
                _ => r == Err::<LinearPolynomial, OperationDomain>(self),
            },
    {
        match self {
            OperationDomain::Linear(linear) => match linear.try_into_polynomial() {
                Ok(polynomial) => Ok(polynomial),
                Err(linear) => Err(OperationDomain::Linear(linear)),
            },
            OperationDomain::Top(bound) => Err(OperationDomain::Top(bound)),
        }
    }

    /// The constant value of a polynomial without terms.
    pub fn constant_value(&self) -> (r: Option<ConcreteBitvector>)
        ensures
            r == match self {
                OperationDomain::Linear(linear) => match linear.0 {
                    LinearOperationType::Polynomial(p) => if p.linear_terms@.len() == 0 {
                        Some(p.constant_term)
                    } else {
                        None
                    },
                    _ => None,
                },
                _ => None::<ConcreteBitvector>,
            },
    {
        match self {
            OperationDomain::Linear(linear) => linear.constant_value(),
            OperationDomain::Top(_) => None,
        }
    }

    /// The element of a polynomial.
    pub fn from_polynomial(polynomial: LinearPolynomial) -> (r: OperationDomain)
        ensures
            r == OperationDomain::Linear(LinearOperation(LinearOperationType::Polynomial(polynomial))),
    {
        OperationDomain::Linear(LinearOperation::from_polynomial(polynomial))
    }

    /// The element of a system, made a polynomial where the system is one.
    pub fn from_system(system: LinearSystem) -> (r: OperationDomain)
        requires
            system.wf(),
        ensures
            r matches OperationDomain::Linear(linear) && linear.wf() && (linear.0 is System <==> !system.spec_converts_to_polynomial())
                && (linear.0 is System ==> linear.0 == LinearOperationType::System(system)),
    {
        OperationDomain::Linear(LinearOperation::from_system(system))
    }
}

/// Conjunction (product) or disjunction of single-bit values.
pub open spec fn single_bit_op(x: int, y: int, conjunction: bool) -> int {
    if conjunction {
        x * y
    } else {
        x + y - x * y
    }
}

/// Single-bit conjunction and disjunction give single bits.
pub proof fn lemma_single_bit_op(conjunction: bool)
    ensures
        forall|x: int, y: int|
            0 <= x < 2 && 0 <= y < 2 ==> 0 <= #[trigger] single_bit_op(x, y, conjunction) < 2 && (single_bit_op(
                x,
                y,
                conjunction,
            ) == 1 <==> if conjunction {
                x == 1 && y == 1
            } else {
                x == 1 || y == 1
            }),
{
    assert forall|x: int, y: int|
        0 <= x < 2 && 0 <= y < 2 implies 0 <= #[trigger] single_bit_op(x, y, conjunction) < 2 && (single_bit_op(
        x,
        y,
        conjunction,
    ) == 1 <==> if conjunction {
        x == 1 && y == 1
    } else {
        x == 1 || y == 1
    }) by {
        if x == 0 {
            assert(x * y == 0);
        } else {
            assert(x * y == y);
        }
    }
}

/// Every slice value fits in the slice's width.
pub open spec fn slices_fit(tv: spec_fn(LinearSlice) -> int) -> bool {
    forall|s: LinearSlice| 0 <= #[trigger] tv(s) < pow2(s.width as nat)
}

/// The value of a linear operation is within its bound.
pub proof fn lemma_value_in_bound(linear: LinearOperation, tv: spec_fn(LinearSlice) -> int)
    requires
        linear.wf(),
    ensures
        0 <= linear.value(tv) < linear.spec_result_bound().modulus(),
{
    match linear.0 {
        LinearOperationType::Polynomial(p) => {
            lemma_modulus_bounds(p.constant_term.bound);
            lemma_mod_bound(p.constant_term.val() + crate::problem::terms::terms_sum(p.linear_terms@, tv), p.modulus() as int);
        },
        LinearOperationType::System(_) => {
            vstd::arithmetic::power2::lemma2_to64();
        },
    }
}

/// Every slice value fitting, each polynomial's slice values fit.
pub proof fn lemma_values_fit(p: LinearPolynomial, tv: spec_fn(LinearSlice) -> int)
    requires
        slices_fit(tv),
    ensures
        p.values_fit(tv),
{
    assert forall|i: int| 0 <= i < p.linear_terms@.len() implies 0 <= #[trigger] tv(p.linear_terms@[i].0) < pow2(
        p.linear_terms@[i].0.width as nat,
    ) by {}
}

impl OperationDomain {
    /// Every represented value is within the bound.
    pub proof fn lemma_represents_in_bound(self, tv: spec_fn(LinearSlice) -> int, v: int)
        requires
            self.wf(),
            self.represents(tv, v),
        ensures
            0 <= v < self.spec_bound().modulus(),
    {
        if let OperationDomain::Linear(linear) = self {
            lemma_value_in_bound(linear, tv);
        }
    }

    /// Bitwise negation.
    pub fn bit_not(self) -> (r: OperationDomain)
        requires
            self.wf(),
        ensures
            r.wf(),
            r.spec_bound() == self.spec_bound(),
            forall|tv: spec_fn(LinearSlice) -> int, x: int|
                #[trigger] self.represents(tv, x) ==> r.represents(tv, self.spec_bound().modulus() - 1 - x),
    {
        match self {
            OperationDomain::Top(bound) => {
                proof {
                    lemma_modulus_bounds(bound);
                }
                OperationDomain::Top(bound)
            },
            OperationDomain::Linear(linear) => match linear.0 {
                LinearOperationType::Polynomial(p) => Self::from_polynomial(p.bit_not()),
                LinearOperationType::System(system) => {
                    let ghost orig = system;
                    match system.bit_not() {
                        Ok(negated) => {
                            proof {
                                vstd::arithmetic::power2::lemma2_to64();
                            }
                            OperationDomain::Linear(LinearOperation(LinearOperationType::System(negated)))
                        },
                        Err(constant) => {
                            let p = LinearPolynomial::single_bit(constant);
                            proof {
                                lemma_constant_eval(p);
                                vstd::arithmetic::power2::lemma2_to64();
                                assert(orig.relations().len() > 0);
                                assert(!(orig is Disjunction && orig.relations().len() == 0));
                            }
                            Self::from_polynomial(p)
                        },
                    }
                },
            },
        }
    }

    /// Arithmetic negation; an element that is not a polynomial is kept
    /// (a single bit is its own negation).
    pub fn arith_neg(self) -> (r: OperationDomain)
        requires
            self.wf(),
        ensures
            r.wf(),
            r.spec_bound() == self.spec_bound(),
            forall|tv: spec_fn(LinearSlice) -> int, x: int|
                #[trigger] self.represents(tv, x) ==> r.represents(tv, (-x) % (self.spec_bound().modulus() as int)),
    {
        let ghost orig = self;
        match self.try_polynomial() {
            Ok(p) => Self::from_polynomial(p.arith_neg()),
            Err(other) => {
                proof {
                    assert forall|tv: spec_fn(LinearSlice) -> int, x: int|
                        #[trigger] orig.represents(tv, x) implies orig.represents(tv, (-x) % (orig.spec_bound().modulus() as int)) by {
                        orig.lemma_represents_in_bound(tv, x);
                        lemma_modulus_bounds(orig.spec_bound());
                        if orig is Linear {
                            vstd::arithmetic::power2::lemma2_to64();
                            assert(orig.spec_bound().modulus() == 2);
                            if x == 1 {
                                assert((-1int) % 2 == 1);
                            } else {
                                assert((-0int) % 2 == 0);
                            }
                        } else {
                            lemma_mod_bound(-x, orig.spec_bound().modulus() as int);
                        }
                    }
                }
                other
            },
        }
    }

    /// Addition, or subtraction where `subtract`; top unless both are
    /// polynomials.
    fn linear_combine(self, rhs: OperationDomain, subtract: bool) -> (r: OperationDomain)
        requires
            self.wf(),
            rhs.wf(),
            self.spec_bound() == rhs.spec_bound(),
        ensures
            r.wf(),
            r.spec_bound() == self.spec_bound(),
            forall|tv: spec_fn(LinearSlice) -> int, x: int, y: int|
                #[trigger] self.represents(tv, x) && #[trigger] rhs.represents(tv, y) ==> r.represents(
                    tv,
                    (if subtract {
                        x - y
                    } else {
                        x + y
                    }) % (self.spec_bound().modulus() as int),
                ),
    {
        let bound = self.bound();
        let ghost m = bound.modulus() as int;
        proof {
            lemma_modulus_bounds(bound);
        }
        match (self.try_polynomial(), rhs.try_polynomial()) {
            (Ok(lhs), Ok(rhs)) => {
                if subtract {
                    Self::from_polynomial(lhs.sub(rhs))
                } else {
                    Self::from_polynomial(lhs.add(rhs))
                }
            },
            _ => {
                OperationDomain::Top(bound)
            },
        }
    }

    /// Addition.
    pub fn add(self, rhs: OperationDomain) -> (r: OperationDomain)
        requires
            self.wf(),
            rhs.wf(),
            self.spec_bound() == rhs.spec_bound(),
        ensures
            r.wf(),
            r.spec_bound() == self.spec_bound(),
            forall|tv: spec_fn(LinearSlice) -> int, x: int, y: int|
                #[trigger] self.represents(tv, x) && #[trigger] rhs.represents(tv, y) ==> r.represents(
                    tv,
                    (x + y) % (self.spec_bound().modulus() as int),
                ),
    {
        self.linear_combine(rhs, false)
    }

    /// Subtraction.
    pub fn sub(self, rhs: OperationDomain) -> (r: OperationDomain)
        requires
            self.wf(),
            rhs.wf(),
            self.spec_bound() == rhs.spec_bound(),
        ensures
            r.wf(),
            r.spec_bound() == self.spec_bound(),
            forall|tv: spec_fn(LinearSlice) -> int, x: int, y: int|
                #[trigger] self.represents(tv, x) && #[trigger] rhs.represents(tv, y) ==> r.represents(
                    tv,
                    (x - y) % (self.spec_bound().modulus() as int),
                ),
    {
        self.linear_combine(rhs, true)
    }

    /// Multiplication: a polynomial scaled by a constant; top otherwise.
    pub fn mul(self, rhs: OperationDomain) -> (r: OperationDomain)
        requires
            self.wf(),
            rhs.wf(),
            self.spec_bound() == rhs.spec_bound(),
        ensures
            r.wf(),
            r.spec_bound() == self.spec_bound(),
            forall|tv: spec_fn(LinearSlice) -> int, x: int, y: int|
                #[trigger] self.represents(tv, x) && #[trigger] rhs.represents(tv, y) ==> r.represents(
                    tv,
                    (x * y) % (self.spec_bound().modulus() as int),
                ),
    {
        let bound = self.bound();
        let ghost m = bound.modulus() as int;
        proof {
            lemma_modulus_bounds(bound);
        }
        let (lhs, rhs) = match (self.try_polynomial(), rhs.try_polynomial()) {
            (Ok(lhs), Ok(rhs)) => (lhs, rhs),
            _ => return OperationDomain::Top(bound),
        };
        if lhs.linear_terms.len() == 0 {
            let mut combination = rhs;
            let ghost orig = combination;
            proof {
                lemma_constant_eval(lhs);
            }
            combination.scale(lhs.constant_term);
            proof {
                assert forall|tv: spec_fn(LinearSlice) -> int| #[trigger] combination.eval(tv) == (lhs.eval(tv) * orig.eval(tv)) % m by {
                    vstd::arithmetic::mul::lemma_mul_is_commutative(lhs.eval(tv), orig.eval(tv));
                }
            }
            Self::from_polynomial(combination)
        } else if rhs.linear_terms.len() == 0 {
            let mut combination = lhs;
            let ghost orig = combination;
            proof {
                lemma_constant_eval(rhs);
            }
            combination.scale(rhs.constant_term);
            proof {
                assert forall|tv: spec_fn(LinearSlice) -> int| #[trigger] combination.eval(tv) == (orig.eval(tv) * rhs.eval(tv)) % m by {
                    vstd::arithmetic::mul::lemma_mul_is_commutative(rhs.eval(tv), orig.eval(tv));
                }
            }
            Self::from_polynomial(combination)
        } else {
            OperationDomain::Top(bound)
        }
    }
}

impl OperationDomain {
    /// The outcome of a bitwise conjunction or disjunction wider than one
    /// bit: the bitwise combination of two polynomials where it exists, top
    /// otherwise.
    pub open spec fn wide_bitwise_outcome(self, rhs: OperationDomain, conjunction: bool, r: OperationDomain) -> bool {
        match (self, rhs) {
            (OperationDomain::Linear(a), OperationDomain::Linear(b)) => match (a.0, b.0) {
                (LinearOperationType::Polynomial(p), LinearOperationType::Polynomial(q)) => match p.bitwise_result(
                    q,
                    conjunction,
                ) {
                    None => r == OperationDomain::Top(self.spec_bound()),
                    Some((constant, terms)) => r matches OperationDomain::Linear(l) && l.0 matches LinearOperationType::Polynomial(
                        res,
                    ) && res.constant_term == (ConcreteBitvector { value: constant, bound: self.spec_bound() })
                        && res.linear_terms@ == terms,
                },
                _ => r == OperationDomain::Top(self.spec_bound()),
            },
            _ => r == OperationDomain::Top(self.spec_bound()),
        }
    }
}

impl OperationDomain {
    /// Bitwise conjunction (`conjunction`) or disjunction. On single bits a
    /// constant side decides or leaves the other side; polynomials are
    /// combined bitwise and systems joined; top otherwise.
    fn bit_linear(self, rhs: OperationDomain, conjunction: bool) -> (r: OperationDomain)
        requires
            self.wf(),
            rhs.wf(),
            self.spec_bound() == rhs.spec_bound(),
            self.spec_bound().width != 1 ==> match (self, rhs) {
                (OperationDomain::Linear(a), OperationDomain::Linear(b)) => match (a.0, b.0) {
                    (LinearOperationType::Polynomial(p), LinearOperationType::Polynomial(q)) => p.bitwise_combine_defined(
                        q,
                        conjunction,
                    ),
                    _ => true,
                },
                _ => true,
            },
        ensures
            r.wf(),
            r.spec_bound() == self.spec_bound(),
            self.spec_bound().width == 1 ==> forall|tv: spec_fn(LinearSlice) -> int, x: int, y: int|
                #[trigger] self.represents(tv, x) && #[trigger] rhs.represents(tv, y) ==> r.represents(
                    tv,
                    single_bit_op(x, y, conjunction),
                ),
            self.spec_bound().width != 1 ==> self.wide_bitwise_outcome(rhs, conjunction, r),
    {
        let bound = self.bound();
        let ghost orig_lhs = self;
        let ghost orig_rhs = rhs;
        proof {
            lemma_modulus_bounds(bound);
            vstd::arithmetic::power2::lemma2_to64();
            lemma_single_bit_op(conjunction);
            assert forall|tv: spec_fn(LinearSlice) -> int, x: int, y: int|
                #[trigger] orig_lhs.represents(tv, x) && #[trigger] orig_rhs.represents(tv, y) implies 0 <= x
                < bound.modulus() && 0 <= y < bound.modulus() by {
                orig_lhs.lemma_represents_in_bound(tv, x);
                orig_rhs.lemma_represents_in_bound(tv, y);
            }
        }
        if bound.width == 1 {
            let lhs_constant = self.constant_value();
            let rhs_constant = rhs.constant_value();
            let constant: Option<(bool, bool)> = match lhs_constant {
                Some(lhs) => Some((lhs.is_nonzero(), false)),
                None => match rhs_constant {
                    Some(rhs) => Some((rhs.is_nonzero(), true)),
                    None => None,
                },
            };
            if let Some((constant, is_constant_right)) = constant {
                proof {
                    if let OperationDomain::Linear(l) = orig_lhs {
                        if let LinearOperationType::Polynomial(p) = l.0 {
                            if p.linear_terms@.len() == 0 {
                                lemma_constant_eval(p);
                            }
                        }
                    }
                    if let OperationDomain::Linear(l) = orig_rhs {
                        if let LinearOperationType::Polynomial(p) = l.0 {
                            if p.linear_terms@.len() == 0 {
                                lemma_constant_eval(p);
                            }
                        }
                    }
                    assert forall|tv: spec_fn(LinearSlice) -> int, x: int, y: int|
                        #[trigger] orig_lhs.represents(tv, x) && #[trigger] orig_rhs.represents(tv, y) implies 0 <= x < 2 && 0
                        <= y < 2 by {
                        orig_lhs.lemma_represents_in_bound(tv, x);
                        orig_rhs.lemma_represents_in_bound(tv, y);
                    }
                }
                if constant == conjunction {
                    return if is_constant_right {
                        self
                    } else {
                        rhs
                    };
                } else {
                    let p = LinearPolynomial::single_bit(constant);
                    proof {
                        lemma_constant_eval(p);
                    }
                    return Self::from_polynomial(p);
                }
            }
        }
        let (lhs, rhs) = match (self, rhs) {
            (OperationDomain::Linear(lhs), OperationDomain::Linear(rhs)) => (lhs, rhs),
            _ => return OperationDomain::Top(bound),
        };
        match (lhs.into_type(), rhs.into_type()) {
            (LinearOperationType::Polynomial(lhs), LinearOperationType::Polynomial(rhs)) => {
                if bound.width == 1 {
                    // both sides have terms here: no bitwise combination
                    return OperationDomain::Top(bound);
                }
                if let Ok(polynomial) = lhs.bitwise_combine(rhs, conjunction) {
                    return Self::from_polynomial(polynomial);
                }
            },
            (LinearOperationType::System(lhs), LinearOperationType::System(rhs)) => {
                let system = if conjunction {
                    lhs.and(rhs)
                } else {
                    lhs.or(rhs)
                };
                if let Some(system) = system {
                    return OperationDomain::Linear(LinearOperation(LinearOperationType::System(system)));
                }
            },
            _ => {},
        }
        OperationDomain::Top(bound)
    }

    /// Bitwise conjunction.
    pub fn bit_and(self, rhs: OperationDomain) -> (r: OperationDomain)
        requires
            self.wf(),
            rhs.wf(),
            self.spec_bound() == rhs.spec_bound(),
            self.spec_bound().width != 1 ==> match (self, rhs) {
                (OperationDomain::Linear(a), OperationDomain::Linear(b)) => match (a.0, b.0) {
                    (LinearOperationType::Polynomial(p), LinearOperationType::Polynomial(q)) => p.bitwise_combine_defined(q, true),
                    _ => true,
                },
                _ => true,
            },
        ensures
            r.wf(),
            r.spec_bound() == self.spec_bound(),
            self.spec_bound().width == 1 ==> forall|tv: spec_fn(LinearSlice) -> int, x: int, y: int|
                #[trigger] self.represents(tv, x) && #[trigger] rhs.represents(tv, y) ==> r.represents(tv, x * y),
            self.spec_bound().width != 1 ==> self.wide_bitwise_outcome(rhs, true, r),
    {
        self.bit_linear(rhs, true)
    }

    /// Bitwise disjunction.
    pub fn bit_or(self, rhs: OperationDomain) -> (r: OperationDomain)
        requires
            self.wf(),
            rhs.wf(),
            self.spec_bound() == rhs.spec_bound(),
            self.spec_bound().width != 1 ==> match (self, rhs) {
                (OperationDomain::Linear(a), OperationDomain::Linear(b)) => match (a.0, b.0) {
                    (LinearOperationType::Polynomial(p), LinearOperationType::Polynomial(q)) => p.bitwise_combine_defined(q, false),
                    _ => true,
                },
                _ => true,
            },
        ensures
            r.wf(),
            r.spec_bound() == self.spec_bound(),
            self.spec_bound().width == 1 ==> forall|tv: spec_fn(LinearSlice) -> int, x: int, y: int|
                #[trigger] self.represents(tv, x) && #[trigger] rhs.represents(tv, y) ==> r.represents(tv, x + y - x * y),
            self.spec_bound().width != 1 ==> self.wide_bitwise_outcome(rhs, false, r),
    {
        self.bit_linear(rhs, false)
    }

    /// Bitwise exclusive or: nothing is known of it.
    pub fn bit_xor(self, rhs: OperationDomain) -> (r: OperationDomain)
        requires
            self.wf(),
            self.spec_bound() == rhs.spec_bound(),
        ensures
            r == OperationDomain::Top(self.spec_bound()),
    {
        OperationDomain::Top(self.bound())
    }

    /// Equality as a single bit: a relation of two polynomials; on single
    /// bits, a constant side gives the other side or its negation; top
    /// otherwise.
    pub fn eq(self, rhs: OperationDomain) -> (r: OperationDomain)
        requires
            self.wf(),
            rhs.wf(),
            self.spec_bound() == rhs.spec_bound(),
        ensures
            r.wf(),
            r.spec_bound().width == 1,
            forall|tv: spec_fn(LinearSlice) -> int, x: int, y: int|
                #[trigger] self.represents(tv, x) && #[trigger] rhs.represents(tv, y) ==> r.represents(
                    tv,
                    if x == y {
                        1int
                    } else {
                        0int
                    },
                ),
    {
        let bound = self.bound();
        let single_bit = RBound::single_bit_bound();
        let ghost orig_lhs = self;
        let ghost orig_rhs = rhs;
        proof {
            lemma_modulus_bounds(bound);
            vstd::arithmetic::power2::lemma2_to64();
            assert forall|tv: spec_fn(LinearSlice) -> int, x: int, y: int|
                #[trigger] orig_lhs.represents(tv, x) && #[trigger] orig_rhs.represents(tv, y) implies 0 <= x < bound.modulus() && 0
                <= y < bound.modulus() by {
                orig_lhs.lemma_represents_in_bound(tv, x);
                orig_rhs.lemma_represents_in_bound(tv, y);
            }
        }
        let (lhs, rhs) = match (self.try_polynomial(), rhs.try_polynomial()) {
            (Err(_), Err(_)) => return OperationDomain::Top(single_bit),
            (Ok(polynomial), Err(other)) => {
                return Self::eq_with_constant(polynomial, other, bound);
            },
            (Err(other), Ok(polynomial)) => {
                return Self::eq_with_constant(polynomial, other, bound);
            },
            (Ok(lhs), Ok(rhs)) => (lhs, rhs),
        };
        let system = LinearSystem::from_eq(lhs, rhs);
        proof {
            assert(system.relations().len() == 1);
        }
        OperationDomain::Linear(LinearOperation(LinearOperationType::System(system)))
    }

    /// Equality of a polynomial and an element that is not one: on single
    /// bits with a constant polynomial, the element or its negation; top
    /// otherwise.
    fn eq_with_constant(polynomial: LinearPolynomial, other: OperationDomain, bound: RBound) -> (r: OperationDomain)
        requires
            polynomial.wf(),
            other.wf(),
            polynomial.constant_term.bound == bound,
            other.spec_bound() == bound,
        ensures
            r.wf(),
            r.spec_bound().width == 1,
            forall|tv: spec_fn(LinearSlice) -> int, y: int|
                #[trigger] other.represents(tv, y) ==> r.represents(
                    tv,
                    if polynomial.eval(tv) == y {
                        1int
                    } else {
                        0int
                    },
                ),
    {
        proof {
            vstd::arithmetic::power2::lemma2_to64();
            assert forall|tv: spec_fn(LinearSlice) -> int, y: int| #[trigger] other.represents(tv, y) implies 0 <= y
                < bound.modulus() by {
                other.lemma_represents_in_bound(tv, y);
            }
        }
        if bound.width == 1 {
            if let Some(constant) = polynomial.constant_value() {
                proof {
                    lemma_constant_eval(polynomial);
                }
                if constant.is_nonzero() {
                    return other;
                } else {
                    return other.bit_not();
                }
            }
        }
        OperationDomain::Top(RBound::single_bit_bound())
    }

    /// Inequality as a single bit: the negation of equality.
    pub fn ne(self, rhs: OperationDomain) -> (r: OperationDomain)
        requires
            self.wf(),
            rhs.wf(),
            self.spec_bound() == rhs.spec_bound(),
        ensures
            r.wf(),
            r.spec_bound().width == 1,
            forall|tv: spec_fn(LinearSlice) -> int, x: int, y: int|
                #[trigger] self.represents(tv, x) && #[trigger] rhs.represents(tv, y) ==> r.represents(
                    tv,
                    if x != y {
                        1int
                    } else {
                        0int
                    },
                ),
    {
        let ghost orig_lhs = self;
        let ghost orig_rhs = rhs;
        let equal = self.eq(rhs);
        let r = equal.bit_not();
        proof {
            vstd::arithmetic::power2::lemma2_to64();
            assert forall|tv: spec_fn(LinearSlice) -> int, x: int, y: int|
                #[trigger] orig_lhs.represents(tv, x) && #[trigger] orig_rhs.represents(tv, y) implies r.represents(
                tv,
                if x != y {
                    1int
                } else {
                    0int
                },
            ) by {
                assert(equal.represents(tv, if x == y { 1int } else { 0int }));
            }
        }
        r
    }

    /// If-then-else on a single-bit condition: a constant condition picks a
    /// branch; constant single-bit branches give a constant, the condition
    /// or its negation; polynomials give their if-then-else polynomial;
    /// top otherwise.
    pub fn ite(condition: OperationDomain, then_branch: OperationDomain, else_branch: OperationDomain) -> (r: OperationDomain)
        requires
            condition.wf(),
            then_branch.wf(),
            else_branch.wf(),
            condition.spec_bound().width == 1,
            then_branch.spec_bound() == else_branch.spec_bound(),
        ensures
            r.wf(),
            r.spec_bound() == then_branch.spec_bound(),
            forall|tv: spec_fn(LinearSlice) -> int, c: int, t: int, e: int|
                slices_fit(tv) && #[trigger] condition.represents(tv, c) && #[trigger] then_branch.represents(tv, t)
                    && #[trigger] else_branch.represents(tv, e) ==> r.represents(
                    tv,
                    if c != 0 {
                        t
                    } else {
                        e
                    },
                ),
    {
        let bound = then_branch.bound();
        let ghost oc = condition;
        let ghost ot = then_branch;
        let ghost oe = else_branch;
        proof {
            lemma_modulus_bounds(bound);
            vstd::arithmetic::power2::lemma2_to64();
            assert forall|tv: spec_fn(LinearSlice) -> int, c: int| #[trigger] oc.represents(tv, c) implies 0 <= c < 2 by {
                oc.lemma_represents_in_bound(tv, c);
            }
            assert forall|tv: spec_fn(LinearSlice) -> int, t: int| #[trigger] ot.represents(tv, t) implies 0 <= t < bound.modulus() by {
                ot.lemma_represents_in_bound(tv, t);
            }
            assert forall|tv: spec_fn(LinearSlice) -> int, e: int| #[trigger] oe.represents(tv, e) implies 0 <= e < bound.modulus() by {
                oe.lemma_represents_in_bound(tv, e);
            }
        }
        if let Some(condition_value) = condition.constant_value() {
            proof {
                if let OperationDomain::Linear(l) = oc {
                    if let LinearOperationType::Polynomial(p) = l.0 {
                        lemma_constant_eval(p);
                    }
                }
            }
            if condition_value.is_nonzero() {
                return then_branch;
            } else {
                return else_branch;
            }
        }
        if bound.width == 1 {
            if let (Some(then_value), Some(else_value)) = (then_branch.constant_value(), else_branch.constant_value()) {
                proof {
                    if let OperationDomain::Linear(l) = ot {
                        if let LinearOperationType::Polynomial(p) = l.0 {
                            lemma_constant_eval(p);
                        }
                    }
                    if let OperationDomain::Linear(l) = oe {
                        if let LinearOperationType::Polynomial(p) = l.0 {
                            lemma_constant_eval(p);
                        }
                    }
                }
                return simplify_ite_boolean_branches(condition, then_value.is_nonzero(), else_value.is_nonzero());
            }
        }
        match (condition.try_polynomial(), then_branch.try_polynomial(), else_branch.try_polynomial()) {
            (Ok(c), Ok(t), Ok(e)) => {
                match LinearPolynomial::ite(c, t, e) {
                    Ok(p) => {
                        proof {
                            assert forall|tv: spec_fn(LinearSlice) -> int|
                                slices_fit(tv) implies #[trigger] p.eval(tv) == if c.eval(tv) != 0 {
                                t.eval(tv)
                            } else {
                                e.eval(tv)
                            } by {
                                lemma_values_fit(c, tv);
                                let m = t.modulus() as int;
                                let cv = c.eval(tv);
                                let tv_ = t.eval(tv);
                                let ev = e.eval(tv);
                                lemma_value_in_bound(LinearOperation(LinearOperationType::Polynomial(c)), tv);
                                lemma_value_in_bound(LinearOperation(LinearOperationType::Polynomial(t)), tv);
                                lemma_value_in_bound(LinearOperation(LinearOperationType::Polynomial(e)), tv);
                                assert(p.eval(tv) == ite_value(cv, tv_, ev, m));
                                lemma_small_mod(tv_ as nat, m as nat);
                                lemma_small_mod(ev as nat, m as nat);
                                if cv == 0 {
                                    assert(((cv % m) * (tv_ - ev) + ev) % m == ev % m) by (nonlinear_arith)
                                        requires
                                            cv == 0,
                                            m > 0,
                                    ;
                                } else {
                                    assert(cv == 1);
                                    if m > 1 {
                                        lemma_small_mod(1, m as nat);
                                        assert(((cv % m) * (tv_ - ev) + ev) % m == tv_ % m) by (nonlinear_arith)
                                            requires
                                                cv % m == 1,
                                                m > 1,
                                        ;
                                    } else {
                                        assert(tv_ == 0 && ev == 0);
                                    }
                                }
                            }
                        }
                        Self::from_polynomial(p)
                    },
                    Err(()) => OperationDomain::Top(bound),
                }
            },
            _ => OperationDomain::Top(bound),
        }
    }

    /// Unsigned extension (or truncation) of a polynomial; top otherwise.
    pub fn uext(self, new_bound: RBound) -> (r: OperationDomain)
        requires
            self.wf(),
            new_bound.wf(),
        ensures
            r.wf(),
            r.spec_bound() == new_bound,
            forall|tv: spec_fn(LinearSlice) -> int, x: int|
                slices_fit(tv) && #[trigger] self.represents(tv, x) ==> r.represents(tv, x % (new_bound.modulus() as int)),
    {
        proof {
            lemma_modulus_bounds(new_bound);
        }
        let ghost orig = self;
        let polynomial = match self.try_polynomial() {
            Ok(polynomial) => polynomial,
            Err(_) => return OperationDomain::Top(new_bound),
        };
        match polynomial.uext(new_bound) {
            Ok(extended) => {
                proof {
                    assert forall|tv: spec_fn(LinearSlice) -> int|
                        slices_fit(tv) implies #[trigger] extended.eval(tv) == polynomial.eval(tv) % (new_bound.modulus() as int) by {
                        lemma_values_fit(polynomial, tv);
                        if new_bound.width > polynomial.spec_bound().width {
                            lemma_value_in_bound(LinearOperation(LinearOperationType::Polynomial(polynomial)), tv);
                            vstd::arithmetic::power2::lemma_pow2_strictly_increases(
                                polynomial.spec_bound().width as nat,
                                new_bound.width as nat,
                            );
                            lemma_small_mod(polynomial.eval(tv) as nat, new_bound.modulus());
                        }
                    }
                }
                Self::from_polynomial(extended)
            },
            Err(_) => OperationDomain::Top(new_bound),
        }
    }

    /// Signed extension (or truncation) of a polynomial: only truncation
    /// keeps it linear; top otherwise.
    pub fn sext(self, new_bound: RBound) -> (r: OperationDomain)
        requires
            self.wf(),
            new_bound.wf(),
        ensures
            r.wf(),
            r.spec_bound() == new_bound,
            new_bound.width <= self.spec_bound().width ==> forall|tv: spec_fn(LinearSlice) -> int, x: int|
                #[trigger] self.represents(tv, x) ==> r.represents(tv, x % (new_bound.modulus() as int)),
            new_bound.width > self.spec_bound().width ==> r == OperationDomain::Top(new_bound),
    {
        proof {
            lemma_modulus_bounds(new_bound);
        }
        let ghost orig = self;
        let polynomial = match self.try_polynomial() {
            Ok(polynomial) => polynomial,
            Err(_) => return OperationDomain::Top(new_bound),
        };
        match polynomial.sext(new_bound) {
            Ok(extended) => Self::from_polynomial(extended),
            Err(_) => OperationDomain::Top(new_bound),
        }
    }
}

/// If-then-else with constant single-bit branches: a constant where they
/// are the same, else the condition or its negation.
fn simplify_ite_boolean_branches(condition: OperationDomain, then_branch: bool, else_branch: bool) -> (r: OperationDomain)
    requires
        condition.wf(),
        condition.spec_bound().width == 1,
    ensures
        r.wf(),
        r.spec_bound().width == 1,
        forall|tv: spec_fn(LinearSlice) -> int, c: int|
            #[trigger] condition.represents(tv, c) ==> r.represents(
                tv,
                if c != 0 {
                    if then_branch {
                        1int
                    } else {
                        0int
                    }
                } else {
                    if else_branch {
                        1int
                    } else {
                        0int
                    }
                },
            ),
{
    proof {
        vstd::arithmetic::power2::lemma2_to64();
        assert forall|tv: spec_fn(LinearSlice) -> int, c: int| #[trigger] condition.represents(tv, c) implies 0 <= c < 2 by {
            condition.lemma_represents_in_bound(tv, c);
        }
    }
    if then_branch == else_branch {
        let p = LinearPolynomial::single_bit(then_branch);
        proof {
            lemma_constant_eval(p);
        }
        OperationDomain::from_polynomial(p)
    } else if then_branch {
        condition
    } else {
        condition.bit_not()
    }
}

/// The shift operations on the linear abstraction.
#[derive(Clone, Copy, Debug, PartialEq, Eq, Structural)]
pub enum ShiftKind {
    LogicLeft,
    LogicRight,
    ArithRight,
}

/// Both polynomials have the same constant and the same terms.
pub open spec fn same_polynomial(a: LinearPolynomial, b: LinearPolynomial) -> bool {
    a.constant_term == b.constant_term && a.linear_terms@ == b.linear_terms@
}

/// Whether both polynomials have the same constant and terms.
fn polynomials_equal(a: &LinearPolynomial, b: &LinearPolynomial) -> (r: bool)
    ensures
        r == same_polynomial(*a, *b),
{
    if a.constant_term != b.constant_term || a.linear_terms.len() != b.linear_terms.len() {
        return false;
    }
    let mut i: usize = 0;
    while i < a.linear_terms.len()
        invariant
            a.linear_terms@.len() == b.linear_terms@.len(),
            0 <= i <= a.linear_terms@.len(),
            forall|j: int| 0 <= j < i ==> a.linear_terms@[j] == b.linear_terms@[j],
        decreases a.linear_terms@.len() - i,
    {
        let (sa, ca) = a.linear_terms[i];
        let (sb, cb) = b.linear_terms[i];
        if sa != sb || ca != cb {
            return false;
        }
        i = i + 1;
    }
    proof {
        assert(a.linear_terms@ =~= b.linear_terms@);
    }
    true
}

/// Both relations have the same slack and the same polynomial.
pub open spec fn same_relation(a: LinearRelation, b: LinearRelation) -> bool {
    a.slack == b.slack && same_polynomial(a.polynomial, b.polynomial)
}

/// Both systems are of the same kind, with the same relations in order.
pub open spec fn same_system(a: LinearSystem, b: LinearSystem) -> bool {
    &&& (a is Single <==> b is Single)
    &&& (a is Conjunction <==> b is Conjunction)
    &&& a.relations().len() == b.relations().len()
    &&& forall|i: int| 0 <= i < a.relations().len() ==> same_relation(#[trigger] a.relations()[i], b.relations()[i])
}

/// Both elements are top, or the same polynomial, or the same system.
pub open spec fn same_element(a: OperationDomain, b: OperationDomain) -> bool {
    match (a, b) {
        (OperationDomain::Top(x), OperationDomain::Top(y)) => x == y,
        (OperationDomain::Linear(p), OperationDomain::Linear(q)) => match (p.0, q.0) {
            (LinearOperationType::Polynomial(x), LinearOperationType::Polynomial(y)) => same_polynomial(x, y),
            (LinearOperationType::System(x), LinearOperationType::System(y)) => same_system(x, y),
            _ => false,
        },
        _ => false,
    }
}

/// Whether both relations have the same slack and polynomial.
fn relations_equal(a: &LinearRelation, b: &LinearRelation) -> (r: bool)
    ensures
        r == same_relation(*a, *b),
{
    a.slack == b.slack && polynomials_equal(&a.polynomial, &b.polynomial)
}

/// Whether both lists hold the same relations in order.
fn relation_lists_equal(a: &Vec<LinearRelation>, b: &Vec<LinearRelation>) -> (r: bool)
    ensures
        r == (a@.len() == b@.len() && forall|i: int| 0 <= i < a@.len() ==> same_relation(#[trigger] a@[i], b@[i])),
{
    if a.len() != b.len() {
        return false;
    }
    let mut i: usize = 0;
    while i < a.len()
        invariant
            a@.len() == b@.len(),
            0 <= i <= a@.len(),
            forall|j: int| 0 <= j < i ==> same_relation(#[trigger] a@[j], b@[j]),
        decreases a@.len() - i,
    {
        if !relations_equal(&a[i], &b[i]) {
            return false;
        }
        i = i + 1;
    }
    true
}

/// Whether both systems are of the same kind with the same relations.
fn systems_equal(a: &LinearSystem, b: &LinearSystem) -> (r: bool)
    ensures
        r == same_system(*a, *b),
{
    match (a, b) {
        (LinearSystem::Single(x), LinearSystem::Single(y)) => {
            proof {
                assert(a.relations()[0] == *x && b.relations()[0] == *y);
            }
            relations_equal(x, y)
        },
        (LinearSystem::Conjunction(xs), LinearSystem::Conjunction(ys)) | (
            LinearSystem::Disjunction(xs),
            LinearSystem::Disjunction(ys),
        ) => {
            proof {
                assert(a.relations() == xs@ && b.relations() == ys@);
            }
            relation_lists_equal(xs, ys)
        },
        _ => false,
    }
}

/// Equal systems hold together.
proof fn lemma_same_system_holds(a: LinearSystem, b: LinearSystem, tv: spec_fn(LinearSlice) -> int)
    requires
        same_system(a, b),
    ensures
        a.holds(tv) == b.holds(tv),
{
    let ra = a.relations();
    let rb = b.relations();
    assert forall|i: int| 0 <= i < ra.len() implies (#[trigger] ra[i]).holds(tv) == rb[i].holds(tv) by {
        assert(same_relation(ra[i], rb[i]));
    }
    match (a, b) {
        (LinearSystem::Single(x), LinearSystem::Single(y)) => {
            assert(ra[0] == x && rb[0] == y);
        },
        (LinearSystem::Conjunction(xs), LinearSystem::Conjunction(ys)) => {
            assert(ra == xs@ && rb == ys@);
            if a.holds(tv) {
                assert forall|i: int| 0 <= i < ys@.len() implies #[trigger] ys@[i].holds(tv) by {
                    assert(xs@[i].holds(tv));
                }
            }
            if b.holds(tv) {
                assert forall|i: int| 0 <= i < xs@.len() implies #[trigger] xs@[i].holds(tv) by {
                    assert(ys@[i].holds(tv));
                }
            }
        },
        (LinearSystem::Disjunction(xs), LinearSystem::Disjunction(ys)) => {
            assert(ra == xs@ && rb == ys@);
            if a.holds(tv) {
                let i = choose|i: int| 0 <= i < xs@.len() && #[trigger] xs@[i].holds(tv);
                assert(ys@[i].holds(tv));
            }
            if b.holds(tv) {
                let i = choose|i: int| 0 <= i < ys@.len() && #[trigger] ys@[i].holds(tv);
                assert(xs@[i].holds(tv));
            }
        },
        _ => {
            assert(false);
        },
    }
}

impl OperationDomain {
    /// The join in the single-layer lattice: an element joined with an
    /// equal one (the same bound, or the same polynomial) is kept; anything
    /// else gives top.
    pub fn join(self, other: &OperationDomain) -> (r: OperationDomain)
        requires
            self.wf(),
            other.wf(),
            self.spec_bound() == other.spec_bound(),
        ensures
            r.wf(),
            r.spec_bound() == self.spec_bound(),
            forall|tv: spec_fn(LinearSlice) -> int, x: int|
                #[trigger] self.represents(tv, x) ==> r.represents(tv, x),
            forall|tv: spec_fn(LinearSlice) -> int, x: int|
                #[trigger] other.represents(tv, x) ==> r.represents(tv, x),
            r == if same_element(self, *other) {
                self
            } else {
                OperationDomain::Top(self.spec_bound())
            },
    {
        let bound = self.bound();
        let ghost orig = self;
        proof {
            assert forall|tv: spec_fn(LinearSlice) -> int, x: int| #[trigger] orig.represents(tv, x) implies 0 <= x
                < bound.modulus() by {
                orig.lemma_represents_in_bound(tv, x);
            }
            assert forall|tv: spec_fn(LinearSlice) -> int, x: int| #[trigger] other.represents(tv, x) implies 0 <= x
                < bound.modulus() by {
                other.lemma_represents_in_bound(tv, x);
            }
        }
        let equal = match (&self, other) {
            (OperationDomain::Top(_), OperationDomain::Top(_)) => true,
            (OperationDomain::Linear(a), OperationDomain::Linear(b)) => match (&a.0, &b.0) {
                (LinearOperationType::Polynomial(p), LinearOperationType::Polynomial(q)) => polynomials_equal(p, q),
                (LinearOperationType::System(p), LinearOperationType::System(q)) => systems_equal(p, q),
                _ => false,
            },
            _ => false,
        };
        if equal {
            proof {
                assert forall|tv: spec_fn(LinearSlice) -> int, x: int| #[trigger] other.represents(tv, x) implies orig.represents(
                    tv,
                    x,
                ) by {
                    if let (OperationDomain::Linear(a), OperationDomain::Linear(b)) = (orig, *other) {
                        if let (LinearOperationType::System(p), LinearOperationType::System(q)) = (a.0, b.0) {
                            lemma_same_system_holds(p, q, tv);
                        }
                    }
                }
            }
            self
        } else {
            OperationDomain::Top(bound)
        }
    }

    /// A shift of a polynomial by a constant polynomial amount, through
    /// the linear combination with the same constant and terms; top where
    /// either is not a polynomial or the shift is not linear.
    pub fn perform_shift(self, amount: OperationDomain, kind: ShiftKind) -> (r: OperationDomain)
        requires
            self.wf(),
            amount.wf(),
            self.spec_bound() == amount.spec_bound(),
        ensures
            r.wf(),
            r.spec_bound() == self.spec_bound(),
            kind == ShiftKind::LogicLeft ==> forall|tv: spec_fn(LinearSlice) -> int, x: int, a: ConcreteBitvector|
                #[trigger] self.represents(tv, x) && amount.constant_value_spec() == Some(a) ==> #[trigger] r.represents(
                    tv,
                    ((pow2((a.value % 64) as nat) as int % (self.spec_bound().modulus() as int)) * x) % (
                    self.spec_bound().modulus() as int),
                ),
            kind == ShiftKind::LogicRight ==> forall|tv: spec_fn(LinearSlice) -> int, c: ConcreteBitvector, a: ConcreteBitvector|
                self.constant_value_spec() == Some(c) && amount.constant_value_spec() == Some(a) ==> #[trigger] r.represents(
                    tv,
                    (c.val() / pow2(a.val())) as int,
                ),
            kind == ShiftKind::ArithRight ==> r == OperationDomain::Top(self.spec_bound()),
    {
        let bound = self.bound();
        let ghost orig = self;
        let ghost orig_amount = amount;
        proof {
            lemma_modulus_bounds(bound);
        }
        let (lhs, amount) = match (self.try_polynomial(), amount.try_polynomial()) {
            (Ok(lhs), Ok(amount)) => (lhs, amount),
            _ => return OperationDomain::Top(bound),
        };
        let lhs = LinearCombination { constant: lhs.constant_term, monomials: lhs.linear_terms };
        let amount = LinearCombination { constant: amount.constant_term, monomials: amount.linear_terms };
        let result = match kind {
            ShiftKind::LogicLeft => lhs.logic_shl(amount),
            ShiftKind::LogicRight => lhs.logic_shr(amount),
            ShiftKind::ArithRight => lhs.arith_shr(amount),
        };
        match result {
            Ok(c) => {
                let ghost gc = c;
                let p = LinearPolynomial { linear_terms: c.monomials, constant_term: c.constant };
                let r = Self::from_polynomial(p);
                proof {
                    assert(p == gc.as_polynomial());
                    if kind == ShiftKind::LogicRight {
                        assert forall|tv: spec_fn(LinearSlice) -> int, cc: ConcreteBitvector, a: ConcreteBitvector|
                            orig.constant_value_spec() == Some(cc) && orig_amount.constant_value_spec() == Some(a) implies #[trigger] r.represents(
                            tv,
                            (cc.val() / pow2(a.val())) as int,
                        ) by {
                            assert(cc == lhs.constant && a == amount.constant);
                            let q = LinearPolynomial { linear_terms: gc.monomials, constant_term: gc.constant };
                            assert(gc.monomials@.len() == 0);
                            lemma_constant_eval(q);
                        }
                    }
                    if kind == ShiftKind::LogicLeft {
                        let m = bound.modulus() as int;
                        assert forall|tv: spec_fn(LinearSlice) -> int, x: int, a: ConcreteBitvector|
                            #[trigger] orig.represents(tv, x) && orig_amount.constant_value_spec() == Some(a) implies #[trigger] r.represents(
                            tv,
                            ((pow2((a.value % 64) as nat) as int % m) * x) % m,
                        ) by {
                            assert(a == amount.constant);
                            assert(x == lhs.eval(tv));
                            assert(gc.eval(tv) == ((pow2((amount.constant.value % 64) as nat) as int % m) * lhs.eval(tv)) % m);
                        }
                    }
                }
                r
            },
            Err(()) => OperationDomain::Top(bound),
        }
    }

    /// The constant value of a polynomial without terms.
    pub open spec fn constant_value_spec(self) -> Option<ConcreteBitvector> {
        match self {
            OperationDomain::Linear(linear) => match linear.0 {
                LinearOperationType::Polynomial(p) => if p.linear_terms@.len() == 0 {
                    Some(p.constant_term)
                } else {
                    None
                },
                _ => None,
            },
            _ => None,
        }
    }

    /// Logical left shift.
    pub fn logic_shl(self, amount: OperationDomain) -> (r: OperationDomain)
        requires
            self.wf(),
            amount.wf(),
            self.spec_bound() == amount.spec_bound(),
        ensures
            r.wf(),
            r.spec_bound() == self.spec_bound(),
            forall|tv: spec_fn(LinearSlice) -> int, x: int, a: ConcreteBitvector|
                #[trigger] self.represents(tv, x) && amount.constant_value_spec() == Some(a) ==> #[trigger] r.represents(
                    tv,
                    ((pow2((a.value % 64) as nat) as int % (self.spec_bound().modulus() as int)) * x) % (
                    self.spec_bound().modulus() as int),
                ),
    {
        self.perform_shift(amount, ShiftKind::LogicLeft)
    }

    /// Logical right shift.
    pub fn logic_shr(self, amount: OperationDomain) -> (r: OperationDomain)
        requires
            self.wf(),
            amount.wf(),
            self.spec_bound() == amount.spec_bound(),
        ensures
            r.wf(),
            r.spec_bound() == self.spec_bound(),
            forall|tv: spec_fn(LinearSlice) -> int, c: ConcreteBitvector, a: ConcreteBitvector|
                self.constant_value_spec() == Some(c) && amount.constant_value_spec() == Some(a) ==> #[trigger] r.represents(
                    tv,
                    (c.val() / pow2(a.val())) as int,
                ),
    {
        self.perform_shift(amount, ShiftKind::LogicRight)
    }

    /// Arithmetic right shift: nothing linear is known of it.
    pub fn arith_shr(self, amount: OperationDomain) -> (r: OperationDomain)
        requires
            self.wf(),
            amount.wf(),
            self.spec_bound() == amount.spec_bound(),
        ensures
            r == OperationDomain::Top(self.spec_bound()),
    {
        self.perform_shift(amount, ShiftKind::ArithRight)
    }
}

impl OperationDomain {
    /// The text of the element: `⊤(width)` for top, the linear operation's
    /// text otherwise.
    pub open spec fn text(self) -> Seq<char> {
        match self {
            OperationDomain::Top(bound) => "⊤("@ + crate::printing::decimal(bound.width as nat) + ")"@,
            OperationDomain::Linear(linear) => linear.text(),
        }
    }

    /// Appends the text of the element.
    pub fn write_text(&self, out: &mut String)
        requires
            self.wf(),
        ensures
            final(out)@ == old(out)@ + self.text(),
    {
        match self {
            OperationDomain::Top(bound) => {
                out.append("⊤(");
                crate::printing::append_decimal(out, bound.width as u128);
                out.append(")");
                proof {
                    assert(final(out)@ =~= old(out)@ + self.text());
                }
            },
            OperationDomain::Linear(linear) => linear.write_text(out),
        }
    }
}

} // verus!
