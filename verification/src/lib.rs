//! Tabletop dice-notation: parsing of strings such as `2d6+3`, `a20` or
//! `s2d10r2!-3` into term sequences, and their realization against a
//! pluggable source of randomness.

pub mod error;
pub mod expression;
pub mod parser;
pub mod realize;
pub mod term;

pub use error::Error;
pub use expression::{Advantage, Explode, Expression, ExpressionParser, Reroll};
pub use term::{CompoundExpression, RealizedCompoundExpression, RealizedTerm, Term, Value};
