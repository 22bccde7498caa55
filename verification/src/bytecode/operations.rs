//! The operand-carrying payload of each stack-machine instruction.

use vstd::prelude::*;

verus! {

/// Pushes a constant integer on the stack.
#[derive(Clone, Copy, Debug, PartialEq, Eq, Structural)]
pub struct PushI(pub i32);

/// Pops two integers from the stack, adds them together, pushes the result.
#[derive(Clone, Copy, Debug, PartialEq, Eq, Structural)]
pub struct AddI;

/// Stops the program, with the top of the stack as its result.
#[derive(Clone, Copy, Debug, PartialEq, Eq, Structural)]
pub struct FStop;

/// Copies the value at a given stack index and pushes it on top of the stack.
#[derive(Clone, Copy, Debug, PartialEq, Eq, Structural)]
pub struct PushCopy(pub u16);

/// Pushes the current instruction pointer on the stack, then jumps to the
/// given address.
#[derive(Clone, Copy, Debug, PartialEq, Eq, Structural)]
pub struct Call(pub u32);

/// Jumps to an address stored in the stack, then shrinks the stack by a
/// declared amount.
#[derive(Clone, Copy, Debug, PartialEq, Eq, Structural)]
pub struct Ret {
    /// How many values the stack loses.
    pub shrink_offset: u16,
    /// Where in the stack the return address is stored.
    pub ip_offset: u16,
}

/// Pushes a constant amount of zeros on the stack.
#[derive(Clone, Copy, Debug, PartialEq, Eq, Structural)]
pub struct ResV(pub u16);

/// Pops a value from the stack and stores it at a given stack index.
#[derive(Clone, Copy, Debug, PartialEq, Eq, Structural)]
pub struct PopCopy(pub u16);

} // verus!
