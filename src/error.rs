use vstd::prelude::*;

use crate::decimal::Dec;

verus! {

/// Which iterative method gave up.
#[derive(Clone, Copy, Debug, PartialEq, Eq, Structural)]
pub enum SolverMethod {
    FixedPoint,
    NewtonRaphson,
}

/// Failures of the financial computations.
#[derive(Debug)]
pub enum FinanceError {
    /// A structural precondition failed before any iteration started.
    InvalidInput(String),
    /// The decimal arithmetic overflowed or divided by zero.
    CalculationError(String),
    DivisionByZero(String),
    NegativeValue(String),
    OutOfRange(String),
    MissingField(String),
    /// The slope of the Newton-Raphson tangent at `estimate` was below the guard.
    DerivativeTooSmall { estimate: Dec, derivative: Dec },
    /// The iteration bound was reached without meeting the tolerance.
    NotConverged { method: SolverMethod, iterations: usize, tolerance: Dec },
}

pub type Result<T> = core::result::Result<T, FinanceError>;

pub fn overflow_error() -> (e: FinanceError)
    ensures
        e is CalculationError,
{
    FinanceError::CalculationError("decimal arithmetic overflowed".to_owned())
}

pub fn invalid_input(msg: &str) -> (e: FinanceError)
    ensures
        e is InvalidInput,
{
    FinanceError::InvalidInput(msg.to_owned())
}

} // verus!
