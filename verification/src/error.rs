//! The fatal failures of the virtual machine.

use vstd::prelude::*;

verus! {

/// Why the virtual machine stopped. None of these is recovered from.
#[derive(Clone, Copy, Debug, PartialEq, Eq, Structural)]
pub enum VmError {
    /// A value was popped from an empty operand stack.
    StackUnderflow,
    /// A value did not carry the tag that the operation needs.
    TypeMismatch,
    /// A memory cell that does not exist was read, or one beyond the first
    /// free cell was written.
    MemoryHole,
    /// More entities were terminated than were left to start.
    StartUnderflow,
    /// A time operand was negative, not a number, or too large for the clock.
    InvalidTime,
    /// An event or a jump led where no resumption is possible.
    MalformedResumption,
}

} // verus!
