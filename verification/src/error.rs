use vstd::prelude::*;

verus! {

/// The fatal failure kinds of the virtual machine. None of them is
/// recoverable: the machine stops and the host surfaces the diagnostic.
#[derive(Clone, Copy, Debug, PartialEq, Eq, Structural)]
pub enum Chip8Error {
    /// A memory access over `[address, address + length)` reached past the
    /// end of memory.
    OutOfBounds { address: usize, length: usize },
    /// A fetched two-byte word matched no entry of the opcode table.
    InvalidInstruction { high_byte: u8, low_byte: u8 },
    /// `Ret` was executed with an empty call stack.
    StackUnderflow,
    /// `Call` was executed with the call stack already at its capacity.
    StackOverflow,
}

} // verus!
