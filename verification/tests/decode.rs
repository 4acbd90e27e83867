use chip8_emulator::cpu::{construct_byte, construct_short, read_instruction, Addr, Instruction, Vx};

#[test]
fn test_construct_byte() {
    assert_eq!(0x12, construct_byte(0x1, 0x2));
}

#[test]
fn test_read_instruction() {
    assert_eq!(
        Instruction::Load(Vx(2), 7),
        read_instruction(0x62, 0x7).unwrap()
    );
}

#[test]
fn test_construct_short() {
    assert_eq!(0xABCD, construct_short(0xAB, 0xCD));
}

#[test]
fn test_addr_new() {
    assert_eq!(Addr(0xABC), Addr::new(0xA, 0xB, 0xC));
}

#[test]
fn test_decode_table() {
    assert_eq!(Instruction::Cls, read_instruction(0x00, 0xE0).unwrap());
    assert_eq!(Instruction::Ret, read_instruction(0x00, 0xEE).unwrap());
    assert_eq!(Instruction::Sys(Addr(0x123)), read_instruction(0x01, 0x23).unwrap());
    assert_eq!(Instruction::Jmp(Addr(0x234)), read_instruction(0x12, 0x34).unwrap());
    assert_eq!(Instruction::Call(Addr(0x345)), read_instruction(0x23, 0x45).unwrap());
    assert_eq!(Instruction::SkipEq(Vx(4), 0x56), read_instruction(0x34, 0x56).unwrap());
    assert_eq!(Instruction::SkipNotEq(Vx(5), 0x67), read_instruction(0x45, 0x67).unwrap());
    assert_eq!(Instruction::SkipEqVx(Vx(6), Vx(7)), read_instruction(0x56, 0x70).unwrap());
    assert_eq!(Instruction::Add(Vx(1), 0x99), read_instruction(0x71, 0x99).unwrap());
    assert_eq!(Instruction::LoadVx(Vx(1), Vx(2)), read_instruction(0x81, 0x20).unwrap());
    assert_eq!(Instruction::Or(Vx(1), Vx(2)), read_instruction(0x81, 0x21).unwrap());
    assert_eq!(Instruction::And(Vx(1), Vx(2)), read_instruction(0x81, 0x22).unwrap());
    assert_eq!(Instruction::XOr(Vx(1), Vx(2)), read_instruction(0x81, 0x23).unwrap());
    assert_eq!(Instruction::AddVx(Vx(1), Vx(2)), read_instruction(0x81, 0x24).unwrap());
    assert_eq!(Instruction::SubVx(Vx(1), Vx(2)), read_instruction(0x81, 0x25).unwrap());
    assert_eq!(Instruction::ShiftRight(Vx(1)), read_instruction(0x81, 0x26).unwrap());
    assert_eq!(Instruction::SubN(Vx(1), Vx(2)), read_instruction(0x81, 0x27).unwrap());
    assert_eq!(Instruction::ShiftLeft(Vx(1)), read_instruction(0x81, 0x2E).unwrap());
    assert_eq!(Instruction::SkipNotEqVx(Vx(1), Vx(2)), read_instruction(0x91, 0x20).unwrap());
    assert_eq!(Instruction::LoadI(Addr(0x2F0)), read_instruction(0xA2, 0xF0).unwrap());
    assert_eq!(Instruction::JmpV0(Addr(0x300)), read_instruction(0xB3, 0x00).unwrap());
    assert_eq!(Instruction::Rand(Vx(2), 0x0F), read_instruction(0xC2, 0x0F).unwrap());
    assert_eq!(Instruction::Draw(Vx(1), Vx(2), 5), read_instruction(0xD1, 0x25).unwrap());
    assert_eq!(Instruction::SkipKeyPressed(Vx(3)), read_instruction(0xE3, 0x9E).unwrap());
    assert_eq!(Instruction::SkipKeyNotPressed(Vx(3)), read_instruction(0xE3, 0xA1).unwrap());
    assert_eq!(Instruction::LoadDelay(Vx(4)), read_instruction(0xF4, 0x07).unwrap());
    assert_eq!(Instruction::LoadKey(Vx(4)), read_instruction(0xF4, 0x0A).unwrap());
    assert_eq!(Instruction::SetDelay(Vx(4)), read_instruction(0xF4, 0x15).unwrap());
    assert_eq!(Instruction::SetSound(Vx(4)), read_instruction(0xF4, 0x18).unwrap());
    assert_eq!(Instruction::AddI(Vx(4)), read_instruction(0xF4, 0x1E).unwrap());
    assert_eq!(Instruction::LoadFont(Vx(4)), read_instruction(0xF4, 0x29).unwrap());
    assert_eq!(Instruction::LoadBcd(Vx(4)), read_instruction(0xF4, 0x33).unwrap());
    assert_eq!(Instruction::StoreRegisters(Vx(4)), read_instruction(0xF4, 0x55).unwrap());
    assert_eq!(Instruction::LoadRegisters(Vx(4)), read_instruction(0xF4, 0x65).unwrap());
}

#[test]
fn test_decode_unknown_patterns() {
    assert_eq!(None, read_instruction(0x51, 0x21));
    assert_eq!(None, read_instruction(0x81, 0x28));
    assert_eq!(None, read_instruction(0xE1, 0x00));
    assert_eq!(None, read_instruction(0xF1, 0x00));
    assert_eq!(None, read_instruction(0xFF, 0xFF));
}
