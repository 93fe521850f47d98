//! Typed failure values for malformed notation and integer parse failures.

use vstd::prelude::*;

verus! {

/// A parse failure. Both variants carry the offending substring for
/// diagnostics.
#[derive(Clone, Debug, PartialEq, Eq)]
pub enum Error {
    /// A term span could not be interpreted as a count/value pair.
    BadExpression(String),
    /// A numeric span failed integer parsing: the token that failed,
    /// and the full span it stood in.
    BadInteger(String, String),
}

impl Error {
    /// A malformed-expression error carrying the given span.
    pub fn bad_expression(span: &str) -> (r: Error)
        ensures
            r matches Error::BadExpression(t) && t@ == span@,
    {
        Error::BadExpression(span.to_owned())
    }

    /// An invalid-integer error carrying the token that failed to parse
    /// and the full span it stood in.
    pub fn bad_integer(token: &str, span: &str) -> (r: Error)
        ensures
            r matches Error::BadInteger(t, s) && t@ == token@ && s@ == span@,
    {
        Error::BadInteger(token.to_owned(), span.to_owned())
    }
}

} // verus!
