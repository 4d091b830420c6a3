//! Errors of the Cuckatoo proof-of-work solver and verifier.

use vstd::prelude::*;
use crate::text::{dec_digits, u64_to_string};

verus! {

/// Cuckatoo solver or validation error.
#[derive(PartialEq, Eq, Debug)]
pub enum Error {
    /// Pre POW error.
    PrePowError(String),
    /// Verification error.
    Verification(String),
    /// IO error, with the text of the underlying error.
    IOError(String),
    /// Unexpected edge error.
    EdgeAddition,
    /// Path error.
    Path,
    /// Invalid cycle length.
    InvalidCycle(usize),
    /// No cycle found.
    NoCycle,
    /// No solution found.
    NoSolution,
}

/// The error text of one [`Error`] value.
pub open spec fn spec_error_text(e: Error) -> Seq<char> {
    match e {
        Error::PrePowError(s) => "POW prepare error: "@ + s@,
        Error::Verification(s) => "POW Verification Error: "@ + s@,
        Error::IOError(s) => "POW IO Error, "@ + s@,
        Error::EdgeAddition => "POW Edge Addition Error"@,
        Error::Path => "POW Path Error"@,
        Error::InvalidCycle(n) => "POW Invalid Cycle length: "@ + dec_digits(n as int),
        Error::NoCycle => "POW No Cycle"@,
        Error::NoSolution => "POW No Solution"@,
    }
}

impl Error {
    /// The error text, exactly [`spec_error_text`].
    pub fn text(&self) -> (r: String)
        ensures
            r@ == spec_error_text(*self),
    {
        match self {
            Error::PrePowError(s) => {
                let mut r = String::from_str("POW prepare error: ");
                r.append(s.as_str());
                r
            },
            Error::Verification(s) => {
                let mut r = String::from_str("POW Verification Error: ");
                r.append(s.as_str());
                r
            },
            Error::IOError(s) => {
                let mut r = String::from_str("POW IO Error, ");
                r.append(s.as_str());
                r
            },
            Error::EdgeAddition => String::from_str("POW Edge Addition Error"),
            Error::Path => String::from_str("POW Path Error"),
            Error::InvalidCycle(n) => {
                let mut r = String::from_str("POW Invalid Cycle length: ");
                let d = u64_to_string(*n as u64);
                r.append(d.as_str());
                r
            },
            Error::NoCycle => String::from_str("POW No Cycle"),
            Error::NoSolution => String::from_str("POW No Solution"),
        }
    }
}

} // verus!
