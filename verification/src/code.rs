use vstd::prelude::*;

verus! {

/// Status of a fallible operation.
#[derive(Clone, Copy, Debug, PartialEq, Eq, Structural)]
pub enum hyper_code {
    /// All is well.
    HYPERE_OK,
    /// General error; details are in the error object.
    HYPERE_ERROR,
    /// A function argument was invalid.
    HYPERE_INVALID_ARG,
}

/// What a callback returns to be called again.
pub const HYPER_ITER_CONTINUE: i32 = 0;

/// What a callback returns to stop an iteration early.
pub const HYPER_ITER_BREAK: i32 = 1;

/// Whether a callback's return value asks for the next item: only
/// `HYPER_ITER_CONTINUE` does, every other value stops.
pub open spec fn continues(signal: i32) -> bool {
    signal == HYPER_ITER_CONTINUE
}

/// Decides whether an iteration goes on after a callback returned `signal`.
pub fn iter_continues(signal: i32) -> (r: bool)
    ensures
        r == continues(signal),
{
    signal == HYPER_ITER_CONTINUE
}

} // verus!
