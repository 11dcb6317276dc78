//! Errors produced while evaluating primitive operations.

use vstd::prelude::*;

verus! {

/// The error domain of the primitive-operation layer. Errors are
/// propagated verbatim to the executor that drives the evaluator.
#[derive(Clone, Debug, PartialEq, Eq)]
pub enum ExecError {
    /// An operand's runtime shape is unsupported by the primop; carries a
    /// short description of the offending operation for debugging.
    Type(String),
    /// An integer conversion or `pow_int` overflowed.
    Overflow,
    /// A length parameter that must be concrete was symbolic; carries the
    /// name of the primop that rejected it.
    SymbolicLength(String),
    /// A vector access past the end of the vector.
    OutOfBounds(String),
    /// An assertion the solver proved can fail; carries the user message.
    AssertionFailed(String),
    /// The explicit bad-memory-read primop was invoked.
    BadRead(String),
    /// The explicit bad-memory-write primop was invoked.
    BadWrite(String),
    /// `elf_entry` was invoked before the entry binding exists.
    NoElfEntry,
    /// A deliberately unimplemented primop (real-number operations).
    Unimplemented,
    /// The external solver returned no verdict for a satisfiability check.
    SolverUnknown,
}

} // verus!
