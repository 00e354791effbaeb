//! The compile-time error taxonomy. Every error is detected while compiling;
//! no partial program is ever emitted once one arises.

use vstd::prelude::*;

verus! {

/// An error raised while compiling a program. All checks happen at compile
/// time: a malformed or unsafe program is rejected before any instruction of
/// it is emitted.
#[derive(Clone, Copy, Debug, PartialEq, Eq, Structural)]
pub enum CompileError {
    /// Two witness-stack parameters were declared under the same identifier.
    DuplicateIdentifier,
    /// An expression or condition referenced an identifier that is neither a
    /// declared witness parameter nor an in-scope binding.
    UndeclaredIdentifier,
    /// A literal lies outside the target's signed 32-bit-minus-one numeric
    /// range, or a data literal exceeds the target's element size limit.
    NumericOverflow,
    /// A variable resolved to a stack depth beyond the target's positional
    /// addressing limit.
    UnreachableVariable,
    /// The two arms of a conditional disagree on the number or types of the
    /// net values they leave on the stack.
    UnbalancedBranches,
    /// An absolute height or relative block count lies outside the range its
    /// canonical operand encoding admits.
    LocktimeOutOfRange,
    /// An operator was applied to a value whose declared type does not
    /// support it.
    TypeMismatch,
}

} // verus!
