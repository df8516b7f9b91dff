//! The errors that the library reports.

use vstd::prelude::*;

verus! {

/// The way in which an operation fails the constraint registered for it.
///
/// Positions count from zero.
#[derive(Clone, Copy, Debug, PartialEq, Eq, Structural)]
pub enum Violation {
    /// No constraint is registered under the operation's name.
    Unregistered,
    /// The number of operands is not one that the constraint admits.
    /// `position` is that of the first operand that is missing or in excess.
    OperandCount { position: usize },
    /// The operand at `position` has a type that its place does not accept.
    OperandType { position: usize },
    /// The number of results is not one that the constraint admits.
    /// `position` is that of the first result that is missing or in excess.
    ResultCount { position: usize },
    /// The result at `position` has a type that its place does not accept.
    ResultType { position: usize },
}

/// An error of the library.
#[derive(Clone, Copy, Debug, PartialEq, Eq, Structural)]
pub enum Error {
    /// A dialect of this name is registered already.
    DuplicateDialect,
    /// No dialect, or no operation of the dialect, has the name asked for.
    NotFound,
    /// An operation or a block cannot be built as asked: an operand is out of
    /// scope, or the place named does not exist or is closed.
    MalformedOperation,
    /// The operation numbered `operation` fails its constraint.
    ConstraintViolation { operation: usize, reason: Violation },
    /// Rewriting stopped at its limit of iterations before a fixpoint.
    MaxIterationsExceeded,
}

} // verus!
