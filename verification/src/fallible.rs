//! Two small fallible lookups over a fixed two-element table.
//!
//! Both functions look past the end of the table, so both always fail;
//! `f1` reports the failure with this crate's own error type, `f2` wraps
//! the same failure in an `anyhow::Error`.

use vstd::prelude::*;

verus! {

/// The error `f1` reports when the requested slot is missing.
#[derive(Debug, PartialEq, Eq, Structural)]
pub enum LookupError {
    /// The requested index lies past the end of the table.
    OutOfRange,
}

/// `anyhow::Error` carried opaquely through this crate's signatures.
#[verifier::external_type_specification]
#[verifier::external_body]
pub struct ExAnyhowError(anyhow::Error);

/// Relies on `anyhow::Error::new`, which wraps any std error value into
/// an `anyhow::Error`; nothing about the wrapped value is needed here.
#[verifier::external_body]
fn missing_value_error() -> anyhow::Error {
    anyhow::Error::new(std::fmt::Error)
}

/// Look up slot 3 of a two-element table: the slot is always missing, so
/// the result is always `LookupError::OutOfRange`.
pub fn f1() -> (r: Result<String, LookupError>)
    ensures
        r == Err::<String, LookupError>(LookupError::OutOfRange),
{
    let table: Vec<&str> = vec!["1", "2"];
    if 3 < table.len() {
        Ok(table[3].to_owned())
    } else {
        Err(LookupError::OutOfRange)
    }
}

/// The same missing lookup as `f1`, reported as an `anyhow::Error`: the
/// result is always the error case.
pub fn f2() -> (r: Result<String, anyhow::Error>)
    ensures
        r is Err,
{
    Err(missing_value_error())
}

} // verus!
