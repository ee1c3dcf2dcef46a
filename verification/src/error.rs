//! What stops a run.

use vstd::prelude::*;

verus! {

/// A fatal error of the machine. After any of them the machine is halted.
#[derive(Clone, Copy, Debug, PartialEq, Eq, Structural)]
pub enum MachineError {
    /// A step was asked of a machine that had already halted.
    NotRunning,
    /// An instruction needed a tape byte beyond the end of the tape.
    OutOfBounds,
    /// A loop instruction had to jump and the tape holds no matching bracket.
    NoMatchingBracket,
    /// A hexadecimal literal held this byte, which is no hexadecimal digit.
    InvalidHexDigit(u8),
    /// This byte is no instruction.
    UnknownInstruction(u8),
    /// The right operand of a division or a remainder was zero.
    DivisionByZero,
    /// The input source failed.
    InputFailed,
    /// The user aborted the run while the machine waited for input.
    UserExit,
}

} // verus!
