//! Unified error type for the crate.

use vstd::prelude::*;
use vstd::string::StringExecFns;

use crate::free_category::{free_category_error_text, FreeCategoryError};
use crate::hdl::ir::{ir_error_text, IrError};
use crate::text::{decimal, framed_decimal, i32_to_decimal, join, signed_decimal, usize_to_decimal};
use crate::sample::element::{values, Sample};

verus! {

/// All errors produced by this crate.
#[derive(Debug)]
pub enum Error {
    /// Sample value or format error.
    Sample(String),
    /// FIR filter configuration error (e.g., empty coefficients).
    Fir(String),
    /// CIC filter configuration error (e.g., order of zero).
    Cic(String),
    /// Pipeline graph construction or traversal error.
    Graph(FreeCategoryError),
    /// HDL simulation error.
    Simulation(String),
    /// Verification mismatch between golden model and simulation.
    VerificationMismatch { block_index: usize, sample_index: usize, expected: i32, actual: i32 },
    /// Invalid decimation or interpolation factor.
    InvalidRateFactor { factor: usize },
    /// Pipeline descriptor has no blocks.
    EmptyPipeline,
    /// Hardware IR construction error.
    Hdl(IrError),
}

/// The reasons a golden model refuses its configuration.
#[derive(Debug, Clone, Copy, PartialEq, Eq, Structural)]
pub enum Fault {
    /// A FIR filter was given no coefficients.
    EmptyCoefficients,
    /// A CIC filter was given order zero.
    ZeroOrder,
    /// A rate factor of zero.
    InvalidRateFactor { factor: usize },
}

/// The message of the error for an empty FIR coefficient set.
pub open spec fn empty_coefficients_message() -> Seq<char> {
    "empty coefficient set"@
}

/// The message of the error for a CIC filter of order zero.
pub open spec fn zero_order_message() -> Seq<char> {
    "order must be at least 1"@
}

/// `e` is the error value that reports fault `f`.
pub open spec fn raises(e: Error, f: Fault) -> bool {
    match f {
        Fault::EmptyCoefficients => e matches Error::Fir(m) && m@ == empty_coefficients_message(),
        Fault::ZeroOrder => e matches Error::Cic(m) && m@ == zero_order_message(),
        Fault::InvalidRateFactor { factor } => e matches Error::InvalidRateFactor { factor: k } && k == factor,
    }
}

/// A result of the library and its specification agree: same value when
/// `Ok`, the reporting error when `Err`.
pub open spec fn result_matches<T>(r: Result<T, Error>, s: Result<T, Fault>) -> bool {
    match (r, s) {
        (Ok(a), Ok(b)) => a == b,
        (Err(e), Err(f)) => raises(e, f),
        _ => false,
    }
}

/// The sample values of a successful result; errors unchanged.
pub open spec fn values_result(r: Result<Vec<Sample>, Error>) -> Result<Seq<i32>, Error> {
    match r {
        Ok(v) => Ok(values(v@)),
        Err(e) => Err(e),
    }
}

/// The error for an empty FIR coefficient set.
pub fn empty_coefficients_error() -> (e: Error)
    ensures
        raises(e, Fault::EmptyCoefficients),
{
    let m = <String as vstd::string::StringExecFns>::from_str("empty coefficient set");
    Error::Fir(m)
}

/// The error for a CIC filter of order zero.
pub fn zero_order_error() -> (e: Error)
    ensures
        raises(e, Fault::ZeroOrder),
{
    let m = <String as vstd::string::StringExecFns>::from_str("order must be at least 1");
    Error::Cic(m)
}

/// The text form of an error.
pub open spec fn error_text(e: Error) -> Seq<char> {
    match e {
        Error::Sample(m) => "sample error: "@ + m@,
        Error::Fir(m) => "FIR error: "@ + m@,
        Error::Cic(m) => "CIC error: "@ + m@,
        Error::Graph(g) => "graph error: "@ + free_category_error_text(g),
        Error::Simulation(m) => "simulation error: "@ + m@,
        Error::VerificationMismatch { block_index, sample_index, expected, actual } => "verification mismatch at block "@
            + decimal(block_index as nat) + ", sample "@ + decimal(sample_index as nat) + ": expected "@
            + signed_decimal(expected as int) + ", got "@ + signed_decimal(actual as int),
        Error::InvalidRateFactor { factor } => "invalid rate factor: "@ + decimal(factor as nat),
        Error::EmptyPipeline => "pipeline has no blocks"@,
        Error::Hdl(h) => "HDL error: "@ + ir_error_text(h),
    }
}

impl Error {
    /// The text form of this error.
    pub fn to_string(&self) -> (s: String)
        ensures
            s@ == error_text(*self),
    {
        match self {
            Error::Sample(m) => join(String::from_str("sample error: "), m.as_str()),
            Error::Fir(m) => join(String::from_str("FIR error: "), m.as_str()),
            Error::Cic(m) => join(String::from_str("CIC error: "), m.as_str()),
            Error::Graph(g) => join(String::from_str("graph error: "), g.to_string().as_str()),
            Error::Simulation(m) => join(String::from_str("simulation error: "), m.as_str()),
            Error::VerificationMismatch { block_index, sample_index, expected, actual } => {
                let s = framed_decimal("verification mismatch at block ", *block_index, ", sample ");
                let s = join(s, usize_to_decimal(*sample_index).as_str());
                let s = join(s, ": expected ");
                let s = join(s, i32_to_decimal(*expected).as_str());
                let s = join(s, ", got ");
                join(s, i32_to_decimal(*actual).as_str())
            },
            Error::InvalidRateFactor { factor } => join(
                String::from_str("invalid rate factor: "),
                usize_to_decimal(*factor).as_str(),
            ),
            Error::EmptyPipeline => String::from_str("pipeline has no blocks"),
            Error::Hdl(h) => join(String::from_str("HDL error: "), h.to_string().as_str()),
        }
    }
}

} // verus!
