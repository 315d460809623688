//! Errors raised while executing Woflang source.

use vstd::prelude::*;

verus! {

/// The ways a dispatch step can fail.
///
/// The first failure aborts the rest of the current line; the stack,
/// scopes and blocks keep whatever partial state they had at that point.
/// An unrecognized operation name is not an error: it falls through to
/// the auto-load and bare-symbol paths.
#[derive(Clone, Copy, Debug, PartialEq, Eq, Structural)]
pub enum WofError {
    /// A malformed numeric literal, or one whose value does not fit the
    /// numeric range of the interpreter.
    Parse,
    /// A pop or peek on a stack with too few items.
    StackUnderflow,
    /// A variable load or set on a name with no visible binding.
    UndefinedVariable,
    /// A value of the wrong variant for a requested coercion.
    TypeMismatch,
    /// A malformed special form, such as a variable keyword that is not
    /// followed by a variable name.
    Usage,
}

} // verus!
