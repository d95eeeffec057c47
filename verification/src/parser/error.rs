//! The failure kinds of the engine and the total order that ranks them.

use vstd::prelude::*;

verus! {

/// An error type that describes any possible parsing error.
#[derive(Clone, Copy, Debug, PartialEq, Eq, PartialOrd, Ord)]
pub enum ParseError {
    /// The failure that carries no information: the identity of alternation.
    Unit,
    /// A character-level match failed. `expected` is absent for a generic
    /// mismatch, `found` is absent at the end of the input.
    CharacterMismatch { expected: Option<char>, found: Option<char> },
}

/// The order on optional characters: absent first, then by code point.
pub open spec fn slot_le(a: Option<char>, b: Option<char>) -> bool {
    match (a, b) {
        (None, _) => true,
        (Some(_), None) => false,
        (Some(x), Some(y)) => x <= y,
    }
}

impl ParseError {
    /// The total order on failures: `Unit` is least, mismatches are ordered
    /// by what was expected and then by what was found.
    pub open spec fn le(self, other: ParseError) -> bool {
        match (self, other) {
            (ParseError::Unit, _) => true,
            (ParseError::CharacterMismatch { .. }, ParseError::Unit) => false,
            (
                ParseError::CharacterMismatch { expected: e1, found: f1 },
                ParseError::CharacterMismatch { expected: e2, found: f2 },
            ) => if e1 == e2 {
                slot_le(f1, f2)
            } else {
                slot_le(e1, e2)
            },
        }
    }

    /// The greater of two failures.
    pub open spec fn greater(self, other: ParseError) -> ParseError {
        if self.le(other) {
            other
        } else {
            self
        }
    }

    /// Whether `self` ranks at or below `other`.
    pub fn at_most(self, other: ParseError) -> (b: bool)
        ensures
            b == self.le(other),
    {
        match (self, other) {
            (ParseError::Unit, _) => true,
            (ParseError::CharacterMismatch { .. }, ParseError::Unit) => false,
            (
                ParseError::CharacterMismatch { expected: e1, found: f1 },
                ParseError::CharacterMismatch { expected: e2, found: f2 },
            ) => if slot_same(e1, e2) {
                slot_at_most(f1, f2)
            } else {
                slot_at_most(e1, e2)
            },
        }
    }

    /// The greater of two failures under the total order; this is the failure
    /// that an alternation reports when both of its branches fail.
    pub fn max(self, other: ParseError) -> (m: ParseError)
        ensures
            m == self.greater(other),
    {
        if self.at_most(other) {
            other
        } else {
            self
        }
    }
}

fn slot_same(a: Option<char>, b: Option<char>) -> (r: bool)
    ensures
        r == (a == b),
{
    match (a, b) {
        (None, None) => true,
        (Some(x), Some(y)) => x == y,
        _ => false,
    }
}

fn slot_at_most(a: Option<char>, b: Option<char>) -> (r: bool)
    ensures
        r == slot_le(a, b),
{
    match (a, b) {
        (None, _) => true,
        (Some(_), None) => false,
        (Some(x), Some(y)) => x <= y,
    }
}

/// The order is reflexive.
pub proof fn order_reflexive(a: ParseError)
    ensures
        a.le(a),
{
}

/// Two failures that rank at or below one another are the same failure.
pub proof fn order_antisymmetric(a: ParseError, b: ParseError)
    requires
        a.le(b),
        b.le(a),
    ensures
        a == b,
{
}

/// The order is transitive.
pub proof fn order_transitive(a: ParseError, b: ParseError, c: ParseError)
    requires
        a.le(b),
        b.le(c),
    ensures
        a.le(c),
{
}

/// Any two failures are comparable.
pub proof fn order_total(a: ParseError, b: ParseError)
    ensures
        a.le(b) || b.le(a),
{
}

/// `Unit` ranks below every failure, and every mismatch ranks strictly above it.
pub proof fn unit_is_least(a: ParseError)
    ensures
        ParseError::Unit.le(a),
        a is CharacterMismatch ==> !a.le(ParseError::Unit),
        ParseError::Unit.greater(a) == a,
        a.greater(ParseError::Unit) == a,
{
}

/// The greater of two failures is one of them and bounds both; taking it is
/// commutative, associative and idempotent.
pub proof fn greater_is_least_upper_bound(a: ParseError, b: ParseError, c: ParseError)
    ensures
        a.greater(b) == a || a.greater(b) == b,
        a.le(a.greater(b)),
        b.le(a.greater(b)),
        a.le(c) && b.le(c) ==> a.greater(b).le(c),
        a.greater(b) == b.greater(a),
        a.greater(b).greater(c) == a.greater(b.greater(c)),
        a.greater(a) == a,
{
}

} // verus!
