use vstd::prelude::*;

verus! {

/// Why code generation stopped.
///
/// Every one of these aborts the compilation: none leaves a buffer that is
/// worth emitting.
#[derive(Clone, Copy, Debug, PartialEq, Eq, Structural)]
pub enum CodegenError {
    /// Every register of the requested class is locked.
    RegistersExhausted,
    /// A string literal holds an escape sequence with no decoding rule.
    UnsupportedEscape,
    /// A string literal ends in a lone backslash.
    TrailingBackslash,
    /// The operator has no instruction sequence for the operand type.
    UnsupportedOperation,
    /// The result type cannot be placed on the operand stack.
    UnsupportedType,
    /// The node kind has no compile-mode lowering.
    UnsupportedNode,
    /// `exit` was not called with exactly one argument.
    ExitArity,
    /// A constant counter has no next value.
    CounterOverflow,
    /// A call names neither an intrinsic nor a known function.
    UnknownFunction,
}

} // verus!
