use vstd::prelude::*;

verus! {

/// Why the reduction of a tree to an integer failed.
#[derive(Clone, Copy, Debug, PartialEq, Eq, Structural)]
pub enum EvalFault {
    /// A `/` met a divisor of zero.
    DivisionByZero,
    /// An intermediate result left the range of `i64`.
    Overflow,
}

/// The errors of a session: reading a line, parsing it, or evaluating it.
#[derive(Debug, Clone)]
pub enum RisprError {
    ReadLineError(String),
    ParseError(String),
    EvalError(EvalFault),
}

impl RisprError {
    /// The human-readable message of the error.
    pub fn message(&self) -> (r: String)
        ensures
            self matches RisprError::ReadLineError(m) ==> r@ == m@,
            self matches RisprError::ParseError(m) ==> r@ == m@,
            self == RisprError::EvalError(EvalFault::DivisionByZero) ==> r@
                == "division by zero"@,
            self == RisprError::EvalError(EvalFault::Overflow) ==> r@ == "integer overflow"@,
    {
        match self {
            RisprError::ReadLineError(m) => m.clone(),
            RisprError::ParseError(m) => m.clone(),
            RisprError::EvalError(EvalFault::DivisionByZero) => String::from_str("division by zero"),
            RisprError::EvalError(EvalFault::Overflow) => String::from_str("integer overflow"),
        }
    }
}

} // verus!
