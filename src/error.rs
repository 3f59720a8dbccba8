use vstd::prelude::*;

verus! {

#[verifier::external_type_specification]
#[verifier::external_body]
pub struct ExJsonError(serde_json::Error);

/// What can go wrong with an operation on monetary values.
#[derive(Debug)]
pub enum OwoError {
    /// Two values of different currencies were combined; carries both codes.
    CurrencyMismatch(String, String),
    /// A division by a zero divisor was asked for.
    DivisionByZero,
    /// The JSON encoder failed.
    SerdeError(serde_json::Error),
}

} // verus!
