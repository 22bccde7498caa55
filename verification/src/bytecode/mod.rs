//! The instruction set of the stack machine that syntax trees are lowered to.

pub mod operations;

use vstd::prelude::*;
use vstd::std_specs::convert::FromSpecImpl;
use operations::{AddI, Call, FStop, PopCopy, PushCopy, PushI, ResV, Ret};

verus! {

/// One instruction of the stack machine.
#[derive(Clone, Debug, PartialEq, Eq, Structural)]
pub enum Instruction {
    /// Pushes a constant integer on the stack.
    ///
    /// ```none
    /// push(v)
    /// ```
    PushI(PushI),
    /// Pops two integers from the stack, adds them together, pushes the result.
    ///
    /// ```none
    /// a = s.pop()
    /// b = s.pop()
    /// push(a + b)
    /// ```
    AddI(AddI),
    /// Stops the program, with the top of the stack as return value.
    FStop(FStop),
    /// Copies a value at a given index, pushes it on top of the stack.
    ///
    /// ```none
    /// a = get(idx)
    /// push(a)
    /// ```
    PushCopy(PushCopy),
    /// Pushes the current instruction pointer on the stack, sets the
    /// instruction pointer to the specified address.
    ///
    /// ```none
    /// push(ip)
    /// ip = ptr
    /// ```
    Call(Call),
    /// Sets the instruction pointer to a value in the stack, shrinks the
    /// stack by a specific amount.
    ///
    /// ```none
    /// ip = get(pointer)
    /// shrink(len(stack) - return)
    /// ```
    Ret(Ret),
    /// Pushes a constant amount of zeros on the stack.
    ///
    /// ```none
    /// for _ in 0..n {
    ///     push(0)
    /// }
    /// ```
    ResV(ResV),
    /// Pops a value from the stack and copies it at a given stack index.
    ///
    /// ```none
    /// tmp = peek()
    /// set(index, tmp)
    /// pop()
    /// ```
    PopCopy(PopCopy),
}

impl Instruction {
    /// The instruction that pushes the constant `i`.
    pub fn push_i(i: i32) -> (r: Instruction)
        ensures
            r == Instruction::PushI(PushI(i)),
    {
        PushI(i).into()
    }

    /// The instruction that adds the two topmost values.
    pub fn add_i() -> (r: Instruction)
        ensures
            r == Instruction::AddI(AddI),
    {
        AddI.into()
    }

    /// The instruction that stops the machine.
    pub fn f_stop() -> (r: Instruction)
        ensures
            r == Instruction::FStop(FStop),
    {
        FStop.into()
    }

    /// The instruction that pushes a copy of the value at stack index `idx`.
    pub fn push_cpy(idx: u16) -> (r: Instruction)
        ensures
            r == Instruction::PushCopy(PushCopy(idx)),
    {
        PushCopy(idx).into()
    }

    /// The instruction that calls the code at address `ptr`.
    pub fn call(ptr: u32) -> (r: Instruction)
        ensures
            r == Instruction::Call(Call(ptr)),
    {
        Call(ptr).into()
    }

    /// The instruction that returns to the address stored at `ip_offset` and
    /// shrinks the stack by `shrink_offset`.
    pub fn ret(ip_offset: u16, shrink_offset: u16) -> (r: Instruction)
        ensures
            r == Instruction::Ret(Ret { shrink_offset, ip_offset }),
    {
        Ret { shrink_offset, ip_offset }.into()
    }

    /// The instruction that reserves `idx` zeroed values.
    pub fn res_v(idx: u16) -> (r: Instruction)
        ensures
            r == Instruction::ResV(ResV(idx)),
    {
        ResV(idx).into()
    }

    /// The instruction that pops a value and stores it at stack index `idx`.
    pub fn pop_cpy(idx: u16) -> (r: Instruction)
        ensures
            r == Instruction::PopCopy(PopCopy(idx)),
    {
        PopCopy(idx).into()
    }
}

impl From<PushI> for Instruction {
    fn from(op: PushI) -> (r: Instruction) {
        Instruction::PushI(op)
    }
}

impl FromSpecImpl<PushI> for Instruction {
    open spec fn obeys_from_spec() -> bool {
        true
    }

    open spec fn from_spec(op: PushI) -> Instruction {
        Instruction::PushI(op)
    }
}

impl From<AddI> for Instruction {
    fn from(op: AddI) -> (r: Instruction) {
        Instruction::AddI(op)
    }
}

impl FromSpecImpl<AddI> for Instruction {
    open spec fn obeys_from_spec() -> bool {
        true
    }

    open spec fn from_spec(op: AddI) -> Instruction {
        Instruction::AddI(op)
    }
}

impl From<FStop> for Instruction {
    fn from(op: FStop) -> (r: Instruction) {
        Instruction::FStop(op)
    }
}

impl FromSpecImpl<FStop> for Instruction {
    open spec fn obeys_from_spec() -> bool {
        true
    }

    open spec fn from_spec(op: FStop) -> Instruction {
        Instruction::FStop(op)
    }
}

impl From<PushCopy> for Instruction {
    fn from(op: PushCopy) -> (r: Instruction) {
        Instruction::PushCopy(op)
    }
}

impl FromSpecImpl<PushCopy> for Instruction {
    open spec fn obeys_from_spec() -> bool {
        true
    }

    open spec fn from_spec(op: PushCopy) -> Instruction {
        Instruction::PushCopy(op)
    }
}

impl From<Call> for Instruction {
    fn from(op: Call) -> (r: Instruction) {
        Instruction::Call(op)
    }
}

impl FromSpecImpl<Call> for Instruction {
    open spec fn obeys_from_spec() -> bool {
        true
    }

    open spec fn from_spec(op: Call) -> Instruction {
        Instruction::Call(op)
    }
}

impl From<Ret> for Instruction {
    fn from(op: Ret) -> (r: Instruction) {
        Instruction::Ret(op)
    }
}

impl FromSpecImpl<Ret> for Instruction {
    open spec fn obeys_from_spec() -> bool {
        true
    }

    open spec fn from_spec(op: Ret) -> Instruction {
        Instruction::Ret(op)
    }
}

impl From<ResV> for Instruction {
    fn from(op: ResV) -> (r: Instruction) {
        Instruction::ResV(op)
    }
}

impl FromSpecImpl<ResV> for Instruction {
    open spec fn obeys_from_spec() -> bool {
        true
    }

    open spec fn from_spec(op: ResV) -> Instruction {
        Instruction::ResV(op)
    }
}

impl From<PopCopy> for Instruction {
    fn from(op: PopCopy) -> (r: Instruction) {
        Instruction::PopCopy(op)
    }
}

impl FromSpecImpl<PopCopy> for Instruction {
    open spec fn obeys_from_spec() -> bool {
        true
    }

    open spec fn from_spec(op: PopCopy) -> Instruction {
        Instruction::PopCopy(op)
    }
}

} // verus!
