//! The error type of every fallible operation of the library.
use vstd::prelude::*;

verus! {

/// The external CSV indexer's error type, carried through unchanged.
#[verifier::external_type_specification]
#[verifier::external_body]
pub struct ExCIndexError(cindex::CIndexError);

/// A numeric input field, named in parse errors.
#[derive(Clone, Copy, Debug, PartialEq, Eq)]
pub enum Field {
    Count,
    Probability,
    Constant,
    Cost,
    Budget,
    Target,
}

/// Why a target- or budget-driven computation was refused before it started.
#[derive(Clone, Copy, Debug, PartialEq, Eq)]
pub enum Conditional {
    /// Neither a target probability nor a budget is set.
    NoCondition,
    /// A budget with zero cost per trial and no reference rows can never be spent.
    ZeroCostBudget,
    /// A target with zero probability and no reference rows can never be reached.
    ZeroProbabilityTarget,
    /// A target of 1.0 is only reached with a constant bonus of 1.0.
    UnreachableTarget,
}

#[derive(Debug)]
pub enum GcalcError {
    /// An argument outside its allowed range.
    InvalidArgument(Field),
    /// The reference rows ran out in strict mode; holds the 1-based trial.
    CsvError { trial: u64 },
    /// A reference row does not have one cell for each column.
    CsvShape { row: usize },
    /// A probability outside the normalizable range (negative, or above 100).
    InvalidProb,
    /// A keyword that names no variant.
    InvalidConversion,
    /// A configuration that cannot terminate or has no stopping condition.
    InvalidConditional(Conditional),
    /// A malformed number.
    ParseError(Field),
    /// A malformed cell of the reference row used on a 1-based trial.
    CsvParseError { field: Field, trial: u64 },
    /// The primary stop did not fire within the configured number of trials.
    TrialLimit { limit: u64 },
    /// The reference table could not be read or queried.
    CIndexError(cindex::CIndexError),
}

pub type GcalcResult<T> = Result<T, GcalcError>;

} // verus!
