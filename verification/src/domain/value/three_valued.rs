//! Three-valued logic: false, true, or unknown which one.
use core::cmp::Ordering;
use vstd::prelude::*;

verus! {

/// An extension of a Boolean to three-valued logic.
#[derive(Clone, Copy, PartialEq, Eq, Structural, Debug, Hash)]
pub enum ThreeValued {
    /// Known false.
    False,
    /// Known true.
    True,
    /// Either false or true, but it is unknown which one.
    Unknown,
}

/// The Boolean values that a three-valued value stands for.
pub open spec fn concretizes(value: ThreeValued, b: bool) -> bool {
    match value {
        ThreeValued::False => !b,
        ThreeValued::True => b,
        ThreeValued::Unknown => true,
    }
}

/// Position in the order false < unknown < true.
pub open spec fn order_rank(value: ThreeValued) -> int {
    match value {
        ThreeValued::False => 0,
        ThreeValued::Unknown => 1,
        ThreeValued::True => 2,
    }
}

pub open spec fn spec_from_bool(value: bool) -> ThreeValued {
    if value {
        ThreeValued::True
    } else {
        ThreeValued::False
    }
}

pub open spec fn spec_not(value: ThreeValued) -> ThreeValued {
    match value {
        ThreeValued::False => ThreeValued::True,
        ThreeValued::True => ThreeValued::False,
        ThreeValued::Unknown => ThreeValued::Unknown,
    }
}

pub open spec fn spec_and(a: ThreeValued, b: ThreeValued) -> ThreeValued {
    if a == ThreeValued::False || b == ThreeValued::False {
        ThreeValued::False
    } else if a == ThreeValued::Unknown || b == ThreeValued::Unknown {
        ThreeValued::Unknown
    } else {
        ThreeValued::True
    }
}

pub open spec fn spec_or(a: ThreeValued, b: ThreeValued) -> ThreeValued {
    if a == ThreeValued::True || b == ThreeValued::True {
        ThreeValued::True
    } else if a == ThreeValued::Unknown || b == ThreeValued::Unknown {
        ThreeValued::Unknown
    } else {
        ThreeValued::False
    }
}

pub open spec fn spec_xor(a: ThreeValued, b: ThreeValued) -> ThreeValued {
    if a == ThreeValued::Unknown || b == ThreeValued::Unknown {
        ThreeValued::Unknown
    } else if a == b {
        ThreeValued::False
    } else {
        ThreeValued::True
    }
}

/// The least value that stands for every Boolean either operand stands for.
pub open spec fn spec_join(a: ThreeValued, b: ThreeValued) -> ThreeValued {
    if a == b {
        a
    } else {
        ThreeValued::Unknown
    }
}

impl ThreeValued {
    /// Whether the value is unknown, i.e. neither false nor true.
    pub fn is_unknown(&self) -> (r: bool)
        ensures
            r == (*self == ThreeValued::Unknown),
    {
        matches!(self, ThreeValued::Unknown)
    }

    /// Whether the value is known, i.e. false or true.
    pub fn is_known(&self) -> (r: bool)
        ensures
            r == (*self != ThreeValued::Unknown),
    {
        !self.is_unknown()
    }

    /// Whether the value is definitely false.
    pub fn is_false(&self) -> (r: bool)
        ensures
            r == (*self == ThreeValued::False),
    {
        matches!(self, ThreeValued::False)
    }

    /// Whether the value is definitely true.
    pub fn is_true(&self) -> (r: bool)
        ensures
            r == (*self == ThreeValued::True),
    {
        matches!(self, ThreeValued::True)
    }

    pub fn from_bool(value: bool) -> (r: ThreeValued)
        ensures
            r == spec_from_bool(value),
    {
        if value {
            ThreeValued::True
        } else {
            ThreeValued::False
        }
    }

    /// The Boolean value if it is known.
    pub fn to_opt_bool(&self) -> (r: Option<bool>)
        ensures
            r == (match *self {
                ThreeValued::False => Some(false),
                ThreeValued::True => Some(true),
                ThreeValued::Unknown => None::<bool>,
            }),
    {
        match self {
            ThreeValued::False => Some(false),
            ThreeValued::True => Some(true),
            ThreeValued::Unknown => None,
        }
    }

    /// Three-valued negation.
    pub fn not(self) -> (r: ThreeValued)
        ensures
            r == spec_not(self),
    {
        match self {
            ThreeValued::False => ThreeValued::True,
            ThreeValued::True => ThreeValued::False,
            ThreeValued::Unknown => ThreeValued::Unknown,
        }
    }

    /// Three-valued conjunction.
    pub fn bitand(self, rhs: ThreeValued) -> (r: ThreeValued)
        ensures
            r == spec_and(self, rhs),
    {
        match (self, rhs) {
            (ThreeValued::False, _) => ThreeValued::False,
            (_, ThreeValued::False) => ThreeValued::False,
            (ThreeValued::Unknown, _) => ThreeValued::Unknown,
            (_, ThreeValued::Unknown) => ThreeValued::Unknown,
            (ThreeValued::True, ThreeValued::True) => ThreeValued::True,
        }
    }

    /// Three-valued disjunction.
    pub fn bitor(self, rhs: ThreeValued) -> (r: ThreeValued)
        ensures
            r == spec_or(self, rhs),
    {
        match (self, rhs) {
            (ThreeValued::True, _) => ThreeValued::True,
            (_, ThreeValued::True) => ThreeValued::True,
            (ThreeValued::Unknown, _) => ThreeValued::Unknown,
            (_, ThreeValued::Unknown) => ThreeValued::Unknown,
            (ThreeValued::False, ThreeValued::False) => ThreeValued::False,
        }
    }

    /// Three-valued exclusive disjunction.
    pub fn bitxor(self, rhs: ThreeValued) -> (r: ThreeValued)
        ensures
            r == spec_xor(self, rhs),
    {
        match (self, rhs) {
            (ThreeValued::True, ThreeValued::True) | (ThreeValued::False, ThreeValued::False) => {
                ThreeValued::False
            },
            (ThreeValued::True, ThreeValued::False) | (ThreeValued::False, ThreeValued::True) => {
                ThreeValued::True
            },
            _ => ThreeValued::Unknown,
        }
    }

    /// The least value standing for both values.
    pub fn join(self, rhs: &ThreeValued) -> (r: ThreeValued)
        ensures
            r == spec_join(self, *rhs),
    {
        match (self, rhs) {
            (ThreeValued::False, ThreeValued::False) => ThreeValued::False,
            (ThreeValued::True, ThreeValued::True) => ThreeValued::True,
            (ThreeValued::False, ThreeValued::True) | (ThreeValued::True, ThreeValued::False) => {
                ThreeValued::Unknown
            },
            (ThreeValued::Unknown, _) | (_, ThreeValued::Unknown) => ThreeValued::Unknown,
        }
    }

    /// Replaces the value by its join with the other.
    pub fn apply_join(&mut self, other: &ThreeValued)
        ensures
            *final(self) == spec_join(*old(self), *other),
    {
        *self = self.join(other)
    }

    /// Whether the value stands for every Boolean that the contained value stands for.
    pub fn contains(&self, contained: &ThreeValued) -> (r: bool)
        ensures
            r == (spec_join(*self, *contained) == *self),
            r == (forall|b: bool| concretizes(*contained, b) ==> concretizes(*self, b)),
    {
        let joined = self.join(contained);
        proof {
            assert(concretizes(*contained, true) || concretizes(*contained, false));
        }
        joined == *self
    }

    /// Total order with false < unknown < true.
    pub fn cmp(&self, other: &ThreeValued) -> (r: Ordering)
        ensures
            (r == Ordering::Less) == (order_rank(*self) < order_rank(*other)),
            (r == Ordering::Equal) == (order_rank(*self) == order_rank(*other)),
            (r == Ordering::Greater) == (order_rank(*self) > order_rank(*other)),
    {
        match (self, other) {
            (ThreeValued::False, ThreeValued::False) => Ordering::Equal,
            (ThreeValued::False, ThreeValued::Unknown) => Ordering::Less,
            (ThreeValued::False, ThreeValued::True) => Ordering::Less,
            (ThreeValued::Unknown, ThreeValued::False) => Ordering::Greater,
            (ThreeValued::Unknown, ThreeValued::Unknown) => Ordering::Equal,
            (ThreeValued::Unknown, ThreeValued::True) => Ordering::Less,
            (ThreeValued::True, ThreeValued::False) => Ordering::Greater,
            (ThreeValued::True, ThreeValued::Unknown) => Ordering::Greater,
            (ThreeValued::True, ThreeValued::True) => Ordering::Equal,
        }
    }

    /// The order as a partial order, which is always total.
    pub fn partial_cmp(&self, other: &ThreeValued) -> (r: Option<Ordering>)
        ensures
            r is Some,
            (r == Some(Ordering::Less)) == (order_rank(*self) < order_rank(*other)),
            (r == Some(Ordering::Equal)) == (order_rank(*self) == order_rank(*other)),
            (r == Some(Ordering::Greater)) == (order_rank(*self) > order_rank(*other)),
    {
        Some(self.cmp(other))
    }

    /// The displayed name of the value.
    pub fn to_display_string(&self) -> (r: &'static str)
        ensures
            r@ == (match *self {
                ThreeValued::False => "false"@,
                ThreeValued::True => "true"@,
                ThreeValued::Unknown => "unknown"@,
            }),
    {
        match self {
            ThreeValued::False => "false",
            ThreeValued::True => "true",
            ThreeValued::Unknown => "unknown",
        }
    }
}

/// Three-valued operations agree with Boolean ones on known values.
pub proof fn lemma_three_valued_extends_boolean(a: bool, b: bool)
    ensures
        spec_not(spec_from_bool(a)) == spec_from_bool(!a),
        spec_and(spec_from_bool(a), spec_from_bool(b)) == spec_from_bool(a && b),
        spec_or(spec_from_bool(a), spec_from_bool(b)) == spec_from_bool(a || b),
        spec_xor(spec_from_bool(a), spec_from_bool(b)) == spec_from_bool(a != b),
        spec_join(spec_from_bool(a), spec_from_bool(a)) == spec_from_bool(a),
{
}

/// Three-valued operations are sound: a result stands for the Boolean result
/// of any Booleans that the operands stand for.
pub proof fn lemma_three_valued_sound(x: ThreeValued, y: ThreeValued, a: bool, b: bool)
    requires
        concretizes(x, a),
        concretizes(y, b),
    ensures
        concretizes(spec_not(x), !a),
        concretizes(spec_and(x, y), a && b),
        concretizes(spec_or(x, y), a || b),
        concretizes(spec_xor(x, y), a != b),
        concretizes(spec_join(x, y), a),
        concretizes(spec_join(x, y), b),
{
}

/// Join is commutative, associative and idempotent, and unknown absorbs it.
pub proof fn lemma_three_valued_join_lattice(x: ThreeValued, y: ThreeValued, z: ThreeValued)
    ensures
        spec_join(x, y) == spec_join(y, x),
        spec_join(spec_join(x, y), z) == spec_join(x, spec_join(y, z)),
        spec_join(x, x) == x,
        spec_join(x, ThreeValued::Unknown) == ThreeValued::Unknown,
{
}

/// Negation is an involution and De Morgan's laws hold.
pub proof fn lemma_three_valued_negation(x: ThreeValued, y: ThreeValued)
    ensures
        spec_not(spec_not(x)) == x,
        spec_not(spec_and(x, y)) == spec_or(spec_not(x), spec_not(y)),
        spec_not(spec_or(x, y)) == spec_and(spec_not(x), spec_not(y)),
{
}

} // verus!
