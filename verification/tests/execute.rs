use chip8_emulator::cpu::{Addr, Cpu, ExecOutcome, Instruction, Vx};
use chip8_emulator::error::Chip8Error;
use chip8_emulator::io::{Display, Keypad};
use chip8_emulator::memory::Memory;

struct Machine {
    cpu: Cpu,
    ram: Memory,
    display: Display,
    keypad: Keypad,
}

impl Machine {
    fn new() -> Machine {
        Machine {
            cpu: Cpu::new(false),
            ram: Memory::new(),
            display: Display::new(),
            keypad: Keypad::new(),
        }
    }

    fn exec(&mut self, instr: Instruction) -> Result<ExecOutcome, Chip8Error> {
        self.cpu.execute_instruction(instr, &mut self.ram, &mut self.display, &self.keypad)
    }

    fn exec_ok(&mut self, instr: Instruction) {
        assert_eq!(Ok(ExecOutcome::Continue), self.exec(instr));
    }
}

#[test]
fn test_add_immediate_wraps() {
    let mut m = Machine::new();
    m.exec_ok(Instruction::Load(Vx(1), 250));
    m.exec_ok(Instruction::Add(Vx(1), 10));
    assert_eq!(4, m.cpu.v(Vx(1)));
}

#[test]
fn test_add_vx_sets_carry() {
    let mut m = Machine::new();
    m.exec_ok(Instruction::Load(Vx(1), 200));
    m.exec_ok(Instruction::Load(Vx(2), 100));
    m.exec_ok(Instruction::AddVx(Vx(1), Vx(2)));
    assert_eq!(44, m.cpu.v(Vx(1)));
    assert_eq!(1, m.cpu.v(Vx(0xF)));
}

#[test]
fn test_add_vx_no_carry() {
    let mut m = Machine::new();
    m.exec_ok(Instruction::Load(Vx(1), 200));
    m.exec_ok(Instruction::Load(Vx(2), 55));
    m.exec_ok(Instruction::AddVx(Vx(1), Vx(2)));
    assert_eq!(255, m.cpu.v(Vx(1)));
    assert_eq!(0, m.cpu.v(Vx(0xF)));
}

#[test]
fn test_sub_vx_no_borrow() {
    let mut m = Machine::new();
    m.exec_ok(Instruction::Load(Vx(1), 10));
    m.exec_ok(Instruction::Load(Vx(2), 3));
    m.exec_ok(Instruction::SubVx(Vx(1), Vx(2)));
    assert_eq!(7, m.cpu.v(Vx(1)));
    assert_eq!(1, m.cpu.v(Vx(0xF)));
}

#[test]
fn test_sub_vx_borrow_wraps() {
    let mut m = Machine::new();
    m.exec_ok(Instruction::Load(Vx(1), 3));
    m.exec_ok(Instruction::Load(Vx(2), 10));
    m.exec_ok(Instruction::SubVx(Vx(1), Vx(2)));
    assert_eq!(249, m.cpu.v(Vx(1)));
    assert_eq!(0, m.cpu.v(Vx(0xF)));
}

#[test]
fn test_sub_n_reverse_subtract() {
    let mut m = Machine::new();
    m.exec_ok(Instruction::Load(Vx(1), 3));
    m.exec_ok(Instruction::Load(Vx(2), 10));
    m.exec_ok(Instruction::SubN(Vx(1), Vx(2)));
    assert_eq!(7, m.cpu.v(Vx(1)));
    assert_eq!(1, m.cpu.v(Vx(0xF)));
}

#[test]
fn test_shift_right_then_left_loses_low_bit() {
    let mut m = Machine::new();
    m.exec_ok(Instruction::Load(Vx(1), 0b1011_0101));
    m.exec_ok(Instruction::ShiftRight(Vx(1)));
    assert_eq!(0b0101_1010, m.cpu.v(Vx(1)));
    assert_eq!(1, m.cpu.v(Vx(0xF)));
    m.exec_ok(Instruction::ShiftLeft(Vx(1)));
    assert_eq!(0b1011_0100, m.cpu.v(Vx(1)));
    assert_eq!(0, m.cpu.v(Vx(0xF)));
}

#[test]
fn test_shift_left_sets_high_bit_flag() {
    let mut m = Machine::new();
    m.exec_ok(Instruction::Load(Vx(1), 0b1000_0001));
    m.exec_ok(Instruction::ShiftLeft(Vx(1)));
    assert_eq!(0b0000_0010, m.cpu.v(Vx(1)));
    assert_eq!(1, m.cpu.v(Vx(0xF)));
}

#[test]
fn test_bitwise_operations() {
    let mut m = Machine::new();
    m.exec_ok(Instruction::Load(Vx(1), 0b1100));
    m.exec_ok(Instruction::Load(Vx(2), 0b1010));
    m.exec_ok(Instruction::Or(Vx(1), Vx(2)));
    assert_eq!(0b1110, m.cpu.v(Vx(1)));
    m.exec_ok(Instruction::Load(Vx(1), 0b1100));
    m.exec_ok(Instruction::And(Vx(1), Vx(2)));
    assert_eq!(0b1000, m.cpu.v(Vx(1)));
    m.exec_ok(Instruction::Load(Vx(1), 0b1100));
    m.exec_ok(Instruction::XOr(Vx(1), Vx(2)));
    assert_eq!(0b0110, m.cpu.v(Vx(1)));
}

#[test]
fn test_skip_instructions_advance_pc() {
    let mut m = Machine::new();
    let base = m.cpu.pc();
    m.exec_ok(Instruction::Load(Vx(1), 9));
    m.exec_ok(Instruction::SkipEq(Vx(1), 9));
    assert_eq!(base + 2, m.cpu.pc());
    m.exec_ok(Instruction::SkipEq(Vx(1), 8));
    assert_eq!(base + 2, m.cpu.pc());
    m.exec_ok(Instruction::SkipNotEq(Vx(1), 8));
    assert_eq!(base + 4, m.cpu.pc());
    m.exec_ok(Instruction::Load(Vx(2), 9));
    m.exec_ok(Instruction::SkipEqVx(Vx(1), Vx(2)));
    assert_eq!(base + 6, m.cpu.pc());
    m.exec_ok(Instruction::SkipNotEqVx(Vx(1), Vx(2)));
    assert_eq!(base + 6, m.cpu.pc());
}

#[test]
fn test_jump_instructions() {
    let mut m = Machine::new();
    m.exec_ok(Instruction::Jmp(Addr(0x345)));
    assert_eq!(0x345, m.cpu.pc());
    m.exec_ok(Instruction::Load(Vx(0), 0x10));
    m.exec_ok(Instruction::JmpV0(Addr(0x300)));
    assert_eq!(0x310, m.cpu.pc());
}

#[test]
fn test_call_and_ret() {
    let mut m = Machine::new();
    let origin = m.cpu.pc();
    m.exec_ok(Instruction::Call(Addr(0x400)));
    assert_eq!(0x400, m.cpu.pc());
    m.exec_ok(Instruction::Ret);
    assert_eq!(origin, m.cpu.pc());
}

#[test]
fn test_ret_on_empty_stack_underflows() {
    let mut m = Machine::new();
    assert_eq!(Err(Chip8Error::StackUnderflow), m.exec(Instruction::Ret));
}

#[test]
fn test_call_beyond_capacity_overflows() {
    let mut m = Machine::new();
    for _ in 0..16 {
        m.exec_ok(Instruction::Call(Addr(0x400)));
    }
    assert_eq!(Err(Chip8Error::StackOverflow), m.exec(Instruction::Call(Addr(0x400))));
}

#[test]
fn test_load_bcd() {
    let mut m = Machine::new();
    m.exec_ok(Instruction::Load(Vx(0), 205));
    m.exec_ok(Instruction::LoadI(Addr(0x300)));
    m.exec_ok(Instruction::LoadBcd(Vx(0)));
    assert_eq!(vec![2, 0, 5], m.ram.read(0x300, 3).unwrap());
}

#[test]
fn test_load_bcd_out_of_bounds() {
    let mut m = Machine::new();
    m.exec_ok(Instruction::Load(Vx(0), 7));
    m.exec_ok(Instruction::LoadI(Addr(0xFFD)));
    assert_eq!(
        Err(Chip8Error::OutOfBounds { address: 0xFFD, length: 3 }),
        m.exec(Instruction::LoadBcd(Vx(0)))
    );
}

#[test]
fn test_store_then_load_registers() {
    let mut m = Machine::new();
    m.exec_ok(Instruction::Load(Vx(0), 1));
    m.exec_ok(Instruction::Load(Vx(1), 2));
    m.exec_ok(Instruction::Load(Vx(2), 3));
    m.exec_ok(Instruction::Load(Vx(3), 4));
    m.exec_ok(Instruction::Load(Vx(4), 99));
    m.exec_ok(Instruction::LoadI(Addr(0x400)));
    m.exec_ok(Instruction::StoreRegisters(Vx(3)));
    assert_eq!(vec![1, 2, 3, 4], m.ram.read(0x400, 4).unwrap());

    let mut other = Machine::new();
    other.ram = m.ram;
    other.exec_ok(Instruction::Load(Vx(0), 77));
    other.exec_ok(Instruction::Load(Vx(5), 55));
    other.exec_ok(Instruction::LoadI(Addr(0x400)));
    other.exec_ok(Instruction::LoadRegisters(Vx(3)));
    assert_eq!(1, other.cpu.v(Vx(0)));
    assert_eq!(2, other.cpu.v(Vx(1)));
    assert_eq!(3, other.cpu.v(Vx(2)));
    assert_eq!(4, other.cpu.v(Vx(3)));
    assert_eq!(0, other.cpu.v(Vx(4)));
    assert_eq!(55, other.cpu.v(Vx(5)));
}

#[test]
fn test_add_i_sets_overflow_flag() {
    let mut m = Machine::new();
    m.exec_ok(Instruction::Load(Vx(0), 0xFF));
    m.exec_ok(Instruction::LoadI(Addr(0xFFF)));
    m.exec_ok(Instruction::AddI(Vx(0)));
    assert_eq!(0x10FE, m.cpu.index_register());
    assert_eq!(1, m.cpu.v(Vx(0xF)));
    let mut n = Machine::new();
    n.exec_ok(Instruction::Load(Vx(0), 1));
    n.exec_ok(Instruction::LoadI(Addr(0x100)));
    n.exec_ok(Instruction::AddI(Vx(0)));
    assert_eq!(0x101, n.cpu.index_register());
    assert_eq!(0, n.cpu.v(Vx(0xF)));
}

#[test]
fn test_load_font_points_into_font_table() {
    let mut m = Machine::new();
    m.exec_ok(Instruction::Load(Vx(0), 0xA));
    m.exec_ok(Instruction::LoadFont(Vx(0)));
    assert_eq!(50, m.cpu.index_register());
    assert_eq!(
        vec![0xF0, 0x90, 0xF0, 0x90, 0x90],
        m.ram.read(50, 5).unwrap()
    );
}

#[test]
fn test_font_table_in_fresh_memory() {
    let ram = Memory::new();
    assert_eq!(vec![0xF0, 0x90, 0x90, 0x90, 0xF0], ram.read(0, 5).unwrap());
    assert_eq!(vec![0xF0, 0x80, 0xF0, 0x80, 0x80], ram.read(75, 5).unwrap());
    assert_eq!(vec![0, 0, 0, 0], ram.read(80, 4).unwrap());
}

#[test]
fn test_memory_rejects_out_of_bounds() {
    let mut ram = Memory::new();
    assert_eq!(
        Err(Chip8Error::OutOfBounds { address: 4090, length: 10 }),
        ram.read(4090, 10)
    );
    assert_eq!(
        Err(Chip8Error::OutOfBounds { address: 4094, length: 2 }),
        ram.write(4094, &[1, 2])
    );
    assert!(ram.write(4093, &[1, 2]).is_ok());
    assert_eq!(vec![1, 2], ram.read(4093, 2).unwrap());
}

#[test]
fn test_is_valid_address() {
    assert!(chip8_emulator::memory::is_valid_address(0));
    assert!(chip8_emulator::memory::is_valid_address(4094));
    assert!(!chip8_emulator::memory::is_valid_address(4095));
}

#[test]
fn test_rand_respects_mask() {
    let mut m = Machine::new();
    m.exec_ok(Instruction::Load(Vx(3), 123));
    m.exec_ok(Instruction::Rand(Vx(3), 0x00));
    assert_eq!(0, m.cpu.v(Vx(3)));
    for _ in 0..32 {
        m.exec_ok(Instruction::Rand(Vx(3), 0x0F));
        assert!(m.cpu.v(Vx(3)) < 16);
    }
}

#[test]
fn test_timers_set_and_read() {
    let mut m = Machine::new();
    m.exec_ok(Instruction::Load(Vx(1), 42));
    m.exec_ok(Instruction::SetDelay(Vx(1)));
    m.exec_ok(Instruction::SetSound(Vx(1)));
    assert_eq!(42, m.cpu.delay_timer());
    assert_eq!(42, m.cpu.sound_timer());
    m.exec_ok(Instruction::LoadDelay(Vx(2)));
    assert_eq!(42, m.cpu.v(Vx(2)));
}

#[test]
fn test_timer_tick_stops_at_zero() {
    let mut m = Machine::new();
    m.exec_ok(Instruction::Load(Vx(1), 1));
    m.exec_ok(Instruction::SetDelay(Vx(1)));
    assert_eq!(1, m.cpu.delay_timer());
    m.cpu.step_clocks();
    assert_eq!(0, m.cpu.delay_timer());
    m.cpu.step_clocks();
    assert_eq!(0, m.cpu.delay_timer());
    assert_eq!(0, m.cpu.sound_timer());
}

#[test]
fn test_skip_key_instructions() {
    let mut m = Machine::new();
    let base = m.cpu.pc();
    m.keypad.set_key(1, true);
    m.exec_ok(Instruction::SkipKeyPressed(Vx(1)));
    assert_eq!(base + 2, m.cpu.pc());
    m.exec_ok(Instruction::SkipKeyPressed(Vx(2)));
    assert_eq!(base + 2, m.cpu.pc());
    m.exec_ok(Instruction::SkipKeyNotPressed(Vx(2)));
    assert_eq!(base + 4, m.cpu.pc());
}

#[test]
fn test_load_key_suspends_and_resumes() {
    let mut m = Machine::new();
    assert_eq!(Ok(ExecOutcome::AwaitKey(Vx(4))), m.exec(Instruction::LoadKey(Vx(4))));
    m.cpu.complete_key_wait(Vx(4), 0xB);
    assert_eq!(0xB, m.cpu.v(Vx(4)));
}

#[test]
fn test_draw_sets_collision_flag() {
    let mut m = Machine::new();
    m.exec_ok(Instruction::Load(Vx(1), 0));
    m.exec_ok(Instruction::Load(Vx(2), 0));
    // The zero glyph sits at the bottom of memory; draw it twice.
    m.exec_ok(Instruction::LoadI(Addr(0)));
    m.exec_ok(Instruction::Draw(Vx(1), Vx(2), 5));
    assert_eq!(0, m.cpu.v(Vx(0xF)));
    let frame = m.display.snapshot();
    assert_eq!(0xF0, frame[0]);
    assert_eq!(0x90, frame[8]);
    m.exec_ok(Instruction::Draw(Vx(1), Vx(2), 5));
    assert_eq!(1, m.cpu.v(Vx(0xF)));
    let cleared = m.display.snapshot();
    for byte in cleared.iter() {
        assert_eq!(0, *byte);
    }
}

#[test]
fn test_draw_out_of_bounds() {
    let mut m = Machine::new();
    m.exec_ok(Instruction::LoadI(Addr(0xFFE)));
    assert_eq!(
        Err(Chip8Error::OutOfBounds { address: 0xFFE, length: 5 }),
        m.exec(Instruction::Draw(Vx(0), Vx(1), 5))
    );
}

#[test]
fn test_cls_clears_display() {
    let mut m = Machine::new();
    m.exec_ok(Instruction::LoadI(Addr(0)));
    m.exec_ok(Instruction::Draw(Vx(0), Vx(1), 5));
    m.exec_ok(Instruction::Cls);
    for byte in m.display.snapshot().iter() {
        assert_eq!(0, *byte);
    }
}

#[test]
fn test_sys_is_a_no_op() {
    let mut m = Machine::new();
    let base = m.cpu.pc();
    m.exec_ok(Instruction::Sys(Addr(0x123)));
    assert_eq!(base, m.cpu.pc());
}

#[test]
fn test_eti_mode_program_origin() {
    let cpu = Cpu::new(true);
    assert_eq!(0x600, cpu.pc());
    let cpu = Cpu::new(false);
    assert_eq!(0x200, cpu.pc());
}
