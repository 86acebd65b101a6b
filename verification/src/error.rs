//! The ways in which a program can be rejected.
use vstd::prelude::*;

verus! {

/// Why a program text was refused or a run was abandoned.
#[derive(Clone, Copy, Debug, PartialEq, Eq, Structural)]
pub enum Error {
    /// The text does not follow the grammar: a numeric literal that is no
    /// number, brackets that do not match, `end` without `to`.
    SyntaxError,
    /// An expression names a variable that the environment does not bind.
    UndefinedVariable,
    /// A call names a procedure that the program does not hold.
    UnknownProcedure,
    /// A call passes another number of arguments than the procedure declares.
    ArityMismatch,
    /// A postfix sequence that runs out of operands or does not leave
    /// exactly one value.
    MalformedExpression,
    /// `setturtle` names a turtle that is not in the roster.
    TurtleIndexOutOfRange,
    /// The host answered with another number of values than it was asked for.
    UnexpectedReply,
}

} // verus!
