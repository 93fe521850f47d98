//! The data shapes produced by parsing and realization: a term's count,
//! value kind, sign and modifiers, and the realized counterpart carrying
//! a rolled total with its theoretical bounds.

use vstd::prelude::*;

verus! {

/// The value kind of a term: a constant modifier, or a die size
/// (number of faces) to be resolved against a randomness source.
#[derive(Clone, Copy, Debug, PartialEq, Eq)]
pub enum Value {
    /// A constant numeric modifier.
    Fixed(i32),
    /// A die-backed value: the number of faces.
    Bounded(i32),
}

impl Value {
    /// The numeric magnitude carried by either variant: the die size of a
    /// bounded value, or the constant of a fixed one.
    pub open spec fn spec_magnitude(&self) -> i32 {
        match *self {
            Value::Fixed(n) => n,
            Value::Bounded(n) => n,
        }
    }

    /// Returns the die size or fixed constant, whichever is set.
    pub fn magnitude(&self) -> (r: i32)
        ensures
            r == self.spec_magnitude(),
    {
        match *self {
            Value::Fixed(n) => n,
            Value::Bounded(n) => n,
        }
    }
}

/// One additive component of a compound dice expression: a dice roll or a
/// flat modifier, together with its sign and optional modifiers.
#[derive(Clone, Copy, Debug, PartialEq, Eq)]
pub struct Term {
    /// Number of dice (or 1 for a fixed modifier). A count of 0 marks a
    /// term that was never populated; the tokenizer drops such terms at
    /// interior boundaries.
    pub count: u32,
    /// Constant modifier or die size.
    pub value: Value,
    /// True if the term is subtracted from the running total.
    pub invert: bool,
    /// Draw two values per die and keep the larger.
    pub advantage: bool,
    /// Draw two values per die and keep the smaller.
    pub disadvantage: bool,
    /// Any single die result at or below this threshold is discarded and
    /// drawn again.
    pub reroll: Option<i32>,
    /// Any single die result at or above this threshold is kept and
    /// triggers an additional accumulating draw.
    pub explode: Option<i32>,
}

/// The default, not-yet-populated term: count 0, fixed value 0, no sign,
/// no modifiers.
pub open spec fn empty_term() -> Term {
    Term {
        count: 0,
        value: Value::Fixed(0),
        invert: false,
        advantage: false,
        disadvantage: false,
        reroll: None,
        explode: None,
    }
}

impl Default for Term {
    /// The not-yet-populated term.
    fn default() -> (r: Self)
        ensures
            r == empty_term(),
    {
        Term {
            count: 0,
            value: Value::Fixed(0),
            invert: false,
            advantage: false,
            disadvantage: false,
            reroll: None,
            explode: None,
        }
    }
}

impl Term {
    /// Whether the term was never populated: its count is still 0.
    pub open spec fn spec_is_empty(&self) -> bool {
        self.count == 0
    }

    /// True of a term whose count was never set; the tokenizer drops such
    /// terms at interior boundaries rather than emitting them.
    pub fn is_empty(&self) -> (r: bool)
        ensures
            r == self.spec_is_empty(),
    {
        self.count == 0
    }
}

/// One realized term: the rolled, sign-adjusted value together with the
/// theoretical bounds achievable ignoring reroll/explode amplification
/// (an exploding die can exceed `max`; that is accepted behavior).
#[derive(Clone, Copy, Debug, PartialEq, Eq)]
pub struct RealizedTerm {
    /// The rolled or fixed value, sign-adjusted.
    pub realized: i64,
    /// The theoretical minimum for this term.
    pub min: i64,
    /// The theoretical maximum for this term.
    pub max: i64,
}

/// A whole parsed notation string: its terms in order. Produced once by
/// parsing and read-only afterwards; realizing it never changes it.
pub type CompoundExpression = Vec<Term>;

/// The result of realizing a whole compound expression: the sequential sum
/// of all realized term values, and the terms in the order produced.
#[derive(Clone, Debug, PartialEq, Eq)]
pub struct RealizedCompoundExpression {
    /// Left-to-right sum of the realized term values.
    pub sum: i64,
    /// The realized terms, in expression order.
    pub terms: Vec<RealizedTerm>,
}

} // verus!
