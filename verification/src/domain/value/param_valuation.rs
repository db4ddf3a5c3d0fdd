//! Valuations of a Boolean that may depend on a parameter.
use core::cmp::Ordering;
use vstd::prelude::*;

use super::three_valued::ThreeValued;

verus! {

/// A parametric valuation known not to be unknown.
#[derive(Clone, Copy, PartialEq, Eq, Structural, Debug, Hash)]
pub enum KnownParamValuation {
    False,
    True,
    Dependent,
}

/// A Boolean valuation that is false, true, dependent on a parameter,
/// or unknown.
#[derive(Clone, Copy, PartialEq, Eq, Structural, Debug, Hash)]
pub enum ParamValuation {
    False,
    True,
    Dependent,
    Unknown,
}

/// The Boolean values that a valuation stands for.
pub open spec fn param_concretizes(value: ParamValuation, b: bool) -> bool {
    match value {
        ParamValuation::False => !b,
        ParamValuation::True => b,
        ParamValuation::Dependent => true,
        ParamValuation::Unknown => true,
    }
}

/// Conjunction preference: true < dependent < unknown < false.
pub open spec fn bitand_rank(value: ParamValuation) -> int {
    match value {
        ParamValuation::True => 0,
        ParamValuation::Dependent => 1,
        ParamValuation::Unknown => 2,
        ParamValuation::False => 3,
    }
}

/// Disjunction preference: false < dependent < unknown < true.
pub open spec fn bitor_rank(value: ParamValuation) -> int {
    match value {
        ParamValuation::False => 0,
        ParamValuation::Dependent => 1,
        ParamValuation::Unknown => 2,
        ParamValuation::True => 3,
    }
}

pub open spec fn spec_param_from_bool(value: bool) -> ParamValuation {
    if value {
        ParamValuation::True
    } else {
        ParamValuation::False
    }
}

pub open spec fn spec_param_not(value: ParamValuation) -> ParamValuation {
    match value {
        ParamValuation::False => ParamValuation::True,
        ParamValuation::True => ParamValuation::False,
        ParamValuation::Dependent => ParamValuation::Dependent,
        ParamValuation::Unknown => ParamValuation::Unknown,
    }
}

/// Conjunction keeps the operand preferred by `bitand_rank`.
pub open spec fn spec_param_and(a: ParamValuation, b: ParamValuation) -> ParamValuation {
    if bitand_rank(a) >= bitand_rank(b) {
        a
    } else {
        b
    }
}

/// Disjunction keeps the operand preferred by `bitor_rank`.
pub open spec fn spec_param_or(a: ParamValuation, b: ParamValuation) -> ParamValuation {
    if bitor_rank(a) >= bitor_rank(b) {
        a
    } else {
        b
    }
}

/// The `^` of valuations as computed: dependent first, then unknown, and
/// for known operands true exactly when they are equal (so on known
/// operands it is the equivalence, XNOR, not the exclusive disjunction).
pub open spec fn spec_param_xor(a: ParamValuation, b: ParamValuation) -> ParamValuation {
    if a == ParamValuation::Dependent || b == ParamValuation::Dependent {
        ParamValuation::Dependent
    } else if a == ParamValuation::Unknown || b == ParamValuation::Unknown {
        ParamValuation::Unknown
    } else if a == b {
        ParamValuation::True
    } else {
        ParamValuation::False
    }
}

pub open spec fn spec_param_join(a: ParamValuation, b: ParamValuation) -> ParamValuation {
    if a == ParamValuation::Dependent || b == ParamValuation::Dependent {
        ParamValuation::Dependent
    } else if a == b {
        a
    } else {
        ParamValuation::Unknown
    }
}

impl ParamValuation {
    /// Negation.
    pub fn not(self) -> (r: ParamValuation)
        ensures
            r == spec_param_not(self),
    {
        match self {
            ParamValuation::False => ParamValuation::True,
            ParamValuation::True => ParamValuation::False,
            ParamValuation::Dependent => ParamValuation::Dependent,
            ParamValuation::Unknown => ParamValuation::Unknown,
        }
    }

    /// Conjunction.
    pub fn bitand(self, rhs: ParamValuation) -> (r: ParamValuation)
        ensures
            r == spec_param_and(self, rhs),
    {
        match self.upward_bitand_ordering(&rhs) {
            Ordering::Less => rhs,
            _ => self,
        }
    }

    /// Disjunction.
    pub fn bitor(self, rhs: ParamValuation) -> (r: ParamValuation)
        ensures
            r == spec_param_or(self, rhs),
    {
        match self.upward_bitor_ordering(&rhs) {
            Ordering::Less => rhs,
            _ => self,
        }
    }

    /// The `^` of valuations: on known operands true exactly when they are
    /// equal (XNOR).
    pub fn bitxor(self, rhs: ParamValuation) -> (r: ParamValuation)
        ensures
            r == spec_param_xor(self, rhs),
    {
        match (self, rhs) {
            (ParamValuation::Dependent, _) | (_, ParamValuation::Dependent) => {
                ParamValuation::Dependent
            },
            (ParamValuation::Unknown, _) | (_, ParamValuation::Unknown) => ParamValuation::Unknown,
            (ParamValuation::False, ParamValuation::False)
            | (ParamValuation::True, ParamValuation::True) => ParamValuation::True,
            (ParamValuation::False, ParamValuation::True)
            | (ParamValuation::True, ParamValuation::False) => ParamValuation::False,
        }
    }

    pub fn from_bool(value: bool) -> (r: ParamValuation)
        ensures
            r == spec_param_from_bool(value),
    {
        if value {
            ParamValuation::True
        } else {
            ParamValuation::False
        }
    }

    pub fn from_three_valued(three_valued: ThreeValued) -> (r: ParamValuation)
        ensures
            r == (match three_valued {
                ThreeValued::False => ParamValuation::False,
                ThreeValued::True => ParamValuation::True,
                ThreeValued::Unknown => ParamValuation::Unknown,
            }),
    {
        match three_valued {
            ThreeValued::False => ParamValuation::False,
            ThreeValued::True => ParamValuation::True,
            ThreeValued::Unknown => ParamValuation::Unknown,
        }
    }

    pub fn try_into_bool(self) -> (r: Option<bool>)
        ensures
            r == (match self {
                ParamValuation::False => Some(false),
                ParamValuation::True => Some(true),
                _ => None::<bool>,
            }),
    {
        match self {
            ParamValuation::False => Some(false),
            ParamValuation::True => Some(true),
            ParamValuation::Dependent | ParamValuation::Unknown => None,
        }
    }

    pub fn is_unknown(&self) -> (r: bool)
        ensures
            r == (*self == ParamValuation::Unknown),
    {
        matches!(self, ParamValuation::Unknown)
    }

    pub fn is_known(&self) -> (r: bool)
        ensures
            r == (*self != ParamValuation::Unknown),
    {
        !self.is_unknown()
    }

    pub fn can_be_true(&self) -> (r: bool)
        ensures
            r == param_concretizes(*self, true),
    {
        matches!(self, ParamValuation::True | ParamValuation::Dependent | ParamValuation::Unknown)
    }

    pub fn can_be_false(&self) -> (r: bool)
        ensures
            r == param_concretizes(*self, false),
    {
        matches!(self, ParamValuation::False | ParamValuation::Dependent | ParamValuation::Unknown)
    }

    /// Orders from the lowest true to the greatest false,
    /// preferring false, then unknown, then dependent, then true.
    pub fn upward_bitand_ordering(self, rhs: &ParamValuation) -> (r: Ordering)
        ensures
            (r == Ordering::Less) == (bitand_rank(self) < bitand_rank(*rhs)),
            (r == Ordering::Equal) == (bitand_rank(self) == bitand_rank(*rhs)),
            (r == Ordering::Greater) == (bitand_rank(self) > bitand_rank(*rhs)),
    {
        match (self, rhs) {
            (ParamValuation::False, ParamValuation::False) => Ordering::Equal,
            (ParamValuation::False, _) => Ordering::Greater,
            (_, ParamValuation::False) => Ordering::Less,
            (ParamValuation::Unknown, ParamValuation::Unknown) => Ordering::Equal,
            (ParamValuation::Unknown, _) => Ordering::Greater,
            (_, ParamValuation::Unknown) => Ordering::Less,
            (ParamValuation::Dependent, ParamValuation::Dependent) => Ordering::Equal,
            (ParamValuation::Dependent, ParamValuation::True) => Ordering::Greater,
            (ParamValuation::True, ParamValuation::Dependent) => Ordering::Less,
            (ParamValuation::True, ParamValuation::True) => Ordering::Equal,
        }
    }

    /// Orders from the lowest false to the greatest true,
    /// preferring true, then unknown, then dependent, then false.
    pub fn upward_bitor_ordering(self, rhs: &ParamValuation) -> (r: Ordering)
        ensures
            (r == Ordering::Less) == (bitor_rank(self) < bitor_rank(*rhs)),
            (r == Ordering::Equal) == (bitor_rank(self) == bitor_rank(*rhs)),
            (r == Ordering::Greater) == (bitor_rank(self) > bitor_rank(*rhs)),
    {
        match (self, rhs) {
            (ParamValuation::True, ParamValuation::True) => Ordering::Equal,
            (ParamValuation::True, _) => Ordering::Greater,
            (_, ParamValuation::True) => Ordering::Less,
            (ParamValuation::Unknown, ParamValuation::Unknown) => Ordering::Equal,
            (ParamValuation::Unknown, _) => Ordering::Greater,
            (_, ParamValuation::Unknown) => Ordering::Less,
            (ParamValuation::Dependent, ParamValuation::Dependent) => Ordering::Equal,
            (ParamValuation::Dependent, ParamValuation::False) => Ordering::Greater,
            (ParamValuation::False, ParamValuation::Dependent) => Ordering::Less,
            (ParamValuation::False, ParamValuation::False) => Ordering::Equal,
        }
    }

    /// The least valuation standing for both valuations.
    pub fn join(self, other: &ParamValuation) -> (r: ParamValuation)
        ensures
            r == spec_param_join(self, *other),
    {
        match (self, other) {
            (ParamValuation::Dependent, _) | (_, ParamValuation::Dependent) => {
                ParamValuation::Dependent
            },
            (ParamValuation::Unknown, _) | (_, ParamValuation::Unknown) => ParamValuation::Unknown,
            (ParamValuation::False, ParamValuation::True)
            | (ParamValuation::True, ParamValuation::False) => ParamValuation::Unknown,
            (ParamValuation::False, ParamValuation::False) => ParamValuation::False,
            (ParamValuation::True, ParamValuation::True) => ParamValuation::True,
        }
    }

    /// The displayed name of the valuation.
    pub fn to_display_string(&self) -> (r: &'static str)
        ensures
            r@ == (match *self {
                ParamValuation::False => "false"@,
                ParamValuation::True => "true"@,
                ParamValuation::Dependent => "dependent"@,
                ParamValuation::Unknown => "unknown"@,
            }),
    {
        match self {
            ParamValuation::False => "false",
            ParamValuation::True => "true",
            ParamValuation::Dependent => "dependent",
            ParamValuation::Unknown => "unknown",
        }
    }
}

/// Conjunction and disjunction are commutative, associative and idempotent,
/// and join is commutative, associative and idempotent.
pub proof fn lemma_param_valuation_algebra(x: ParamValuation, y: ParamValuation, z: ParamValuation)
    ensures
        spec_param_and(x, y) == spec_param_and(y, x),
        spec_param_or(x, y) == spec_param_or(y, x),
        spec_param_and(spec_param_and(x, y), z) == spec_param_and(x, spec_param_and(y, z)),
        spec_param_or(spec_param_or(x, y), z) == spec_param_or(x, spec_param_or(y, z)),
        spec_param_and(x, x) == x,
        spec_param_or(x, x) == x,
        spec_param_join(x, y) == spec_param_join(y, x),
        spec_param_join(spec_param_join(x, y), z) == spec_param_join(x, spec_param_join(y, z)),
        spec_param_join(x, x) == x,
{
}

/// On known Boolean valuations, negation, conjunction and disjunction
/// agree with the Boolean operations.
pub proof fn lemma_param_valuation_extends_boolean(a: bool, b: bool)
    ensures
        spec_param_not(spec_param_from_bool(a)) == spec_param_from_bool(!a),
        spec_param_and(spec_param_from_bool(a), spec_param_from_bool(b)) == spec_param_from_bool(
            a && b,
        ),
        spec_param_or(spec_param_from_bool(a), spec_param_from_bool(b)) == spec_param_from_bool(
            a || b,
        ),
{
}

/// Negation, conjunction, disjunction and join are sound: the result stands
/// for the Boolean result of any Booleans that the operands stand for.
pub proof fn lemma_param_valuation_sound(x: ParamValuation, y: ParamValuation, a: bool, b: bool)
    requires
        param_concretizes(x, a),
        param_concretizes(y, b),
    ensures
        param_concretizes(spec_param_not(x), !a),
        param_concretizes(spec_param_and(x, y), a && b),
        param_concretizes(spec_param_or(x, y), a || b),
        param_concretizes(spec_param_join(x, y), a),
        param_concretizes(spec_param_join(x, y), b),
{
}

} // verus!
