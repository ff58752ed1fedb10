use vstd::prelude::*;

verus! {

/// A fatal machine fault. Every failure stops the run and is handed to the driver.
#[derive(Clone, Copy, Debug, PartialEq, Eq, Structural)]
pub enum VmError {
    /// The byte at `addr` is not an opcode of the instruction set.
    UnknownOpcode { addr: u64, opcode: u8 },
    /// A memory access reaches past the end of memory; `addr` is the first
    /// address it touches at or past the end.
    OutOfBounds { addr: u64 },
    /// A `DIV` instruction found a zero divisor.
    DivisionByZero,
    /// An instruction names register `index`, which does not exist.
    InvalidRegister { index: usize },
}

} // verus!
