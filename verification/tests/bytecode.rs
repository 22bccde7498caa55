use dyl::bytecode::operations::{AddI, Call, FStop, PopCopy, PushCopy, PushI, ResV, Ret};
use dyl::bytecode::Instruction;

#[test]
fn push_i_wraps_its_constant() {
    assert_eq!(Instruction::push_i(-7), Instruction::PushI(PushI(-7)));
    assert_ne!(Instruction::push_i(1), Instruction::push_i(2));
}

#[test]
fn operand_free_instructions() {
    assert_eq!(Instruction::add_i(), Instruction::AddI(AddI));
    assert_eq!(Instruction::f_stop(), Instruction::FStop(FStop));
}

#[test]
fn stack_index_instructions() {
    assert_eq!(Instruction::push_cpy(3), Instruction::PushCopy(PushCopy(3)));
    assert_eq!(Instruction::pop_cpy(4), Instruction::PopCopy(PopCopy(4)));
    assert_eq!(Instruction::res_v(5), Instruction::ResV(ResV(5)));
    assert_ne!(Instruction::push_cpy(3), Instruction::pop_cpy(3));
}

#[test]
fn call_keeps_its_address() {
    assert_eq!(Instruction::call(0xdead_beef), Instruction::Call(Call(0xdead_beef)));
}

#[test]
fn ret_keeps_both_offsets_apart() {
    assert_eq!(
        Instruction::ret(1, 2),
        Instruction::Ret(Ret { shrink_offset: 2, ip_offset: 1 })
    );
    assert_ne!(Instruction::ret(1, 2), Instruction::ret(2, 1));
}

#[test]
fn instructions_come_from_their_operations() {
    assert_eq!(Instruction::from(PushI(9)), Instruction::push_i(9));
    assert_eq!(Instruction::from(AddI), Instruction::add_i());
    assert_eq!(Instruction::from(FStop), Instruction::f_stop());
    assert_eq!(Instruction::from(PushCopy(1)), Instruction::push_cpy(1));
    assert_eq!(Instruction::from(Call(2)), Instruction::call(2));
    assert_eq!(
        Instruction::from(Ret { shrink_offset: 4, ip_offset: 3 }),
        Instruction::ret(3, 4)
    );
    assert_eq!(Instruction::from(ResV(5)), Instruction::res_v(5));
    assert_eq!(Instruction::from(PopCopy(6)), Instruction::pop_cpy(6));
}
