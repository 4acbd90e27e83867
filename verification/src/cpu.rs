use vstd::prelude::*;

use crate::error::Chip8Error;
use crate::io::{blank_display, spec_collides, spec_draw, Display, Keypad, Point};
use crate::memory::{write_range, Memory, MEMORY_SIZE};
use crate::sprite::{Sprite, SPRITE_SIZE};
use vstd::arithmetic::div_mod::lemma_mod_add_multiples_vanish;

verus! {

/// Address of the top of the call stack; the stack grows downward from here.
pub const STACK_TOP: usize = 0x200;

/// Address where loaded programs normally begin.
pub const PROGRAM_START: usize = 0x200;

/// Alternate program origin for ETI-660 compatibility mode.
pub const ETI_660_START: usize = 0x600;

/// Number of general-purpose registers.
pub const NUM_REGISTERS: usize = 0x10;

/// Greatest number of return addresses the call stack can hold.
pub const STACK_DEPTH: u8 = 16;

/// Index of a general-purpose register, `V0` through `VF`.
#[derive(Debug, Clone, Copy, PartialEq, Eq, Structural)]
pub struct Vx(pub u8);

/// A 12-bit memory address operand.
#[derive(Debug, Clone, Copy, PartialEq, Eq, PartialOrd, Ord, Structural)]
pub struct Addr(pub u16);

/// One decoded instruction, tagged by opcode family and carrying its
/// operands as typed fields.
#[derive(Debug, Clone, Copy, PartialEq, Eq, Structural)]
pub enum Instruction {
    Cls,
    Ret,
    Sys(Addr),
    Jmp(Addr),
    Call(Addr),
    SkipEq(Vx, u8),
    SkipNotEq(Vx, u8),
    SkipEqVx(Vx, Vx),
    Load(Vx, u8),
    Add(Vx, u8),
    LoadVx(Vx, Vx),
    Or(Vx, Vx),
    And(Vx, Vx),
    XOr(Vx, Vx),
    AddVx(Vx, Vx),
    SubVx(Vx, Vx),
    ShiftRight(Vx),
    SubN(Vx, Vx),
    ShiftLeft(Vx),
    SkipNotEqVx(Vx, Vx),
    LoadI(Addr),
    JmpV0(Addr),
    Rand(Vx, u8),
    Draw(Vx, Vx, u8),
    SkipKeyPressed(Vx),
    SkipKeyNotPressed(Vx),
    LoadDelay(Vx),
    LoadKey(Vx),
    SetDelay(Vx),
    SetSound(Vx),
    AddI(Vx),
    LoadFont(Vx),
    LoadBcd(Vx),
    StoreRegisters(Vx),
    LoadRegisters(Vx),
}

impl Instruction {
    /// The operand ranges the decoder guarantees: register indices are
    /// nibbles, addresses are 12 bits, a sprite height is a nibble.
    pub open spec fn wf(self) -> bool {
        match self {
            Instruction::Cls => true,
            Instruction::Ret => true,
            Instruction::Sys(a) => a.0 <= 0xFFF,
            Instruction::Jmp(a) => a.0 <= 0xFFF,
            Instruction::Call(a) => a.0 <= 0xFFF,
            Instruction::SkipEq(x, _) => x.0 < 16,
            Instruction::SkipNotEq(x, _) => x.0 < 16,
            Instruction::SkipEqVx(x, y) => x.0 < 16 && y.0 < 16,
            Instruction::Load(x, _) => x.0 < 16,
            Instruction::Add(x, _) => x.0 < 16,
            Instruction::LoadVx(x, y) => x.0 < 16 && y.0 < 16,
            Instruction::Or(x, y) => x.0 < 16 && y.0 < 16,
            Instruction::And(x, y) => x.0 < 16 && y.0 < 16,
            Instruction::XOr(x, y) => x.0 < 16 && y.0 < 16,
            Instruction::AddVx(x, y) => x.0 < 16 && y.0 < 16,
            Instruction::SubVx(x, y) => x.0 < 16 && y.0 < 16,
            Instruction::ShiftRight(x) => x.0 < 16,
            Instruction::SubN(x, y) => x.0 < 16 && y.0 < 16,
            Instruction::ShiftLeft(x) => x.0 < 16,
            Instruction::SkipNotEqVx(x, y) => x.0 < 16 && y.0 < 16,
            Instruction::LoadI(a) => a.0 <= 0xFFF,
            Instruction::JmpV0(a) => a.0 <= 0xFFF,
            Instruction::Rand(x, _) => x.0 < 16,
            Instruction::Draw(x, y, n) => x.0 < 16 && y.0 < 16 && n <= 15,
            Instruction::SkipKeyPressed(x) => x.0 < 16,
            Instruction::SkipKeyNotPressed(x) => x.0 < 16,
            Instruction::LoadDelay(x) => x.0 < 16,
            Instruction::LoadKey(x) => x.0 < 16,
            Instruction::SetDelay(x) => x.0 < 16,
            Instruction::SetSound(x) => x.0 < 16,
            Instruction::AddI(x) => x.0 < 16,
            Instruction::LoadFont(x) => x.0 < 16,
            Instruction::LoadBcd(x) => x.0 < 16,
            Instruction::StoreRegisters(x) => x.0 < 16,
            Instruction::LoadRegisters(x) => x.0 < 16,
        }
    }
}

impl Addr {
    /// Builds a 12-bit address from three nibbles, most significant first.
    pub fn new(nibble1: u8, nibble2: u8, nibble3: u8) -> (r: Addr)
        requires
            nibble1 < 16,
            nibble2 < 16,
            nibble3 < 16,
        ensures
            r.0 == nibble1 * 256 + nibble2 * 16 + nibble3,
            r.0 <= 0xFFF,
    {
        let r: u16 = ((nibble1 as u16) << 8) | ((nibble2 as u16) << 4) | (nibble3 as u16);
        proof {
            assert(nibble1 < 16 && nibble2 < 16 && nibble3 < 16
                ==> (((nibble1 as u16) << 8) | ((nibble2 as u16) << 4) | (nibble3 as u16))
                    == (nibble1 as u16) * 256 + (nibble2 as u16) * 16 + (nibble3 as u16)) by (bit_vector);
        }
        Addr(r)
    }
}

/// Packs two 4-bit nibbles into one byte: the first nibble becomes the high
/// half, the second the low half.
pub fn construct_byte(high_nibble: u8, low_nibble: u8) -> (r: u8)
    ensures
        r == (high_nibble & 0x0F) * 16 + (low_nibble & 0x0F),
        high_nibble < 16 && low_nibble < 16 ==> r == high_nibble * 16 + low_nibble,
{
    let r: u8 = ((high_nibble & 0x0F) << 4) | (low_nibble & 0x0F);
    proof {
        assert(((high_nibble & 0x0F) << 4) | (low_nibble & 0x0F)
            == (high_nibble & 0x0F) * 16 + (low_nibble & 0x0F)) by (bit_vector);
        assert(high_nibble < 16 ==> high_nibble & 0x0F == high_nibble) by (bit_vector);
        assert(low_nibble < 16 ==> low_nibble & 0x0F == low_nibble) by (bit_vector);
    }
    r
}

/// Packs two bytes into one 16-bit word, big-endian.
pub fn construct_short(high_byte: u8, low_byte: u8) -> (r: u16)
    ensures
        r == high_byte * 256 + low_byte,
{
    let r: u16 = ((high_byte as u16) << 8) | (low_byte as u16);
    proof {
        assert(((high_byte as u16) << 8) | (low_byte as u16)
            == (high_byte as u16) * 256 + (low_byte as u16)) by (bit_vector);
    }
    r
}

/// The byte operand packed in the two low nibbles of an instruction word.
pub open spec fn nibble_byte(n3: u8, n4: u8) -> u8 {
    (n3 * 16 + n4) as u8
}

/// The 12-bit address operand packed in the three low nibbles of an
/// instruction word.
pub open spec fn nibble_addr(n2: u8, n3: u8, n4: u8) -> u16 {
    (n2 * 256 + n3 * 16 + n4) as u16
}

/// The opcode table: which instruction a nibble tuple decodes to. `None`
/// marks the patterns that match no instruction.
pub open spec fn spec_decode_nibbles(n1: u8, n2: u8, n3: u8, n4: u8) -> Option<Instruction> {
    if n1 == 0x0 && n2 == 0x0 && n3 == 0xE && n4 == 0x0 {
        Some(Instruction::Cls)
    } else if n1 == 0x0 && n2 == 0x0 && n3 == 0xE && n4 == 0xE {
        Some(Instruction::Ret)
    } else if n1 == 0x0 {
        Some(Instruction::Sys(Addr(nibble_addr(n2, n3, n4))))
    } else if n1 == 0x1 {
        Some(Instruction::Jmp(Addr(nibble_addr(n2, n3, n4))))
    } else if n1 == 0x2 {
        Some(Instruction::Call(Addr(nibble_addr(n2, n3, n4))))
    } else if n1 == 0x3 {
        Some(Instruction::SkipEq(Vx(n2), nibble_byte(n3, n4)))
    } else if n1 == 0x4 {
        Some(Instruction::SkipNotEq(Vx(n2), nibble_byte(n3, n4)))
    } else if n1 == 0x5 && n4 == 0x0 {
        Some(Instruction::SkipEqVx(Vx(n2), Vx(n3)))
    } else if n1 == 0x6 {
        Some(Instruction::Load(Vx(n2), nibble_byte(n3, n4)))
    } else if n1 == 0x7 {
        Some(Instruction::Add(Vx(n2), nibble_byte(n3, n4)))
    } else if n1 == 0x8 && n4 == 0x0 {
        Some(Instruction::LoadVx(Vx(n2), Vx(n3)))
    } else if n1 == 0x8 && n4 == 0x1 {
        Some(Instruction::Or(Vx(n2), Vx(n3)))
    } else if n1 == 0x8 && n4 == 0x2 {
        Some(Instruction::And(Vx(n2), Vx(n3)))
    } else if n1 == 0x8 && n4 == 0x3 {
        Some(Instruction::XOr(Vx(n2), Vx(n3)))
    } else if n1 == 0x8 && n4 == 0x4 {
        Some(Instruction::AddVx(Vx(n2), Vx(n3)))
    } else if n1 == 0x8 && n4 == 0x5 {
        Some(Instruction::SubVx(Vx(n2), Vx(n3)))
    } else if n1 == 0x8 && n4 == 0x6 {
        Some(Instruction::ShiftRight(Vx(n2)))
    } else if n1 == 0x8 && n4 == 0x7 {
        Some(Instruction::SubN(Vx(n2), Vx(n3)))
    } else if n1 == 0x8 && n4 == 0xE {
        Some(Instruction::ShiftLeft(Vx(n2)))
    } else if n1 == 0x9 && n4 == 0x0 {
        Some(Instruction::SkipNotEqVx(Vx(n2), Vx(n3)))
    } else if n1 == 0xA {
        Some(Instruction::LoadI(Addr(nibble_addr(n2, n3, n4))))
    } else if n1 == 0xB {
        Some(Instruction::JmpV0(Addr(nibble_addr(n2, n3, n4))))
    } else if n1 == 0xC {
        Some(Instruction::Rand(Vx(n2), nibble_byte(n3, n4)))
    } else if n1 == 0xD {
        Some(Instruction::Draw(Vx(n2), Vx(n3), n4))
    } else if n1 == 0xE && n3 == 0x9 && n4 == 0xE {
        Some(Instruction::SkipKeyPressed(Vx(n2)))
    } else if n1 == 0xE && n3 == 0xA && n4 == 0x1 {
        Some(Instruction::SkipKeyNotPressed(Vx(n2)))
    } else if n1 == 0xF && n3 == 0x0 && n4 == 0x7 {
        Some(Instruction::LoadDelay(Vx(n2)))
    } else if n1 == 0xF && n3 == 0x0 && n4 == 0xA {
        Some(Instruction::LoadKey(Vx(n2)))
    } else if n1 == 0xF && n3 == 0x1 && n4 == 0x5 {
        Some(Instruction::SetDelay(Vx(n2)))
    } else if n1 == 0xF && n3 == 0x1 && n4 == 0x8 {
        Some(Instruction::SetSound(Vx(n2)))
    } else if n1 == 0xF && n3 == 0x1 && n4 == 0xE {
        Some(Instruction::AddI(Vx(n2)))
    } else if n1 == 0xF && n3 == 0x2 && n4 == 0x9 {
        Some(Instruction::LoadFont(Vx(n2)))
    } else if n1 == 0xF && n3 == 0x3 && n4 == 0x3 {
        Some(Instruction::LoadBcd(Vx(n2)))
    } else if n1 == 0xF && n3 == 0x5 && n4 == 0x5 {
        Some(Instruction::StoreRegisters(Vx(n2)))
    } else if n1 == 0xF && n3 == 0x6 && n4 == 0x5 {
        Some(Instruction::LoadRegisters(Vx(n2)))
    } else {
        None
    }
}

/// What a big-endian instruction word decodes to.
pub open spec fn spec_decode(high_byte: u8, low_byte: u8) -> Option<Instruction> {
    spec_decode_nibbles((high_byte >> 4) & 0x0F, high_byte & 0x0F, (low_byte >> 4) & 0x0F, low_byte & 0x0F)
}

/// Splits a big-endian instruction word into nibbles and matches it against
/// the opcode table; `None` is a decode failure.
pub fn read_instruction(high_byte: u8, low_byte: u8) -> (r: Option<Instruction>)
    ensures
        r == spec_decode(high_byte, low_byte),
        r is Some ==> r->Some_0.wf(),
{
    let n1 = (high_byte >> 4) & 0x0F;
    let n2 = high_byte & 0x0F;
    let n3 = (low_byte >> 4) & 0x0F;
    let n4 = low_byte & 0x0F;
    proof {
        assert((high_byte >> 4) & 0x0F < 16 && high_byte & 0x0F < 16
            && (low_byte >> 4) & 0x0F < 16 && low_byte & 0x0F < 16) by (bit_vector);
    }
    let r = if n1 == 0x0 && n2 == 0x0 && n3 == 0xE && n4 == 0x0 {
        Some(Instruction::Cls)
    } else if n1 == 0x0 && n2 == 0x0 && n3 == 0xE && n4 == 0xE {
        Some(Instruction::Ret)
    } else if n1 == 0x0 {
        Some(Instruction::Sys(Addr::new(n2, n3, n4)))
    } else if n1 == 0x1 {
        Some(Instruction::Jmp(Addr::new(n2, n3, n4)))
    } else if n1 == 0x2 {
        Some(Instruction::Call(Addr::new(n2, n3, n4)))
    } else if n1 == 0x3 {
        Some(Instruction::SkipEq(Vx(n2), construct_byte(n3, n4)))
    } else if n1 == 0x4 {
        Some(Instruction::SkipNotEq(Vx(n2), construct_byte(n3, n4)))
    } else if n1 == 0x5 && n4 == 0x0 {
        Some(Instruction::SkipEqVx(Vx(n2), Vx(n3)))
    } else if n1 == 0x6 {
        Some(Instruction::Load(Vx(n2), construct_byte(n3, n4)))
    } else if n1 == 0x7 {
        Some(Instruction::Add(Vx(n2), construct_byte(n3, n4)))
    } else if n1 == 0x8 && n4 == 0x0 {
        Some(Instruction::LoadVx(Vx(n2), Vx(n3)))
    } else if n1 == 0x8 && n4 == 0x1 {
        Some(Instruction::Or(Vx(n2), Vx(n3)))
    } else if n1 == 0x8 && n4 == 0x2 {
        Some(Instruction::And(Vx(n2), Vx(n3)))
    } else if n1 == 0x8 && n4 == 0x3 {
        Some(Instruction::XOr(Vx(n2), Vx(n3)))
    } else if n1 == 0x8 && n4 == 0x4 {
        Some(Instruction::AddVx(Vx(n2), Vx(n3)))
    } else if n1 == 0x8 && n4 == 0x5 {
        Some(Instruction::SubVx(Vx(n2), Vx(n3)))
    } else if n1 == 0x8 && n4 == 0x6 {
        Some(Instruction::ShiftRight(Vx(n2)))
    } else if n1 == 0x8 && n4 == 0x7 {
        Some(Instruction::SubN(Vx(n2), Vx(n3)))
    } else if n1 == 0x8 && n4 == 0xE {
        Some(Instruction::ShiftLeft(Vx(n2)))
    } else if n1 == 0x9 && n4 == 0x0 {
        Some(Instruction::SkipNotEqVx(Vx(n2), Vx(n3)))
    } else if n1 == 0xA {
        Some(Instruction::LoadI(Addr::new(n2, n3, n4)))
    } else if n1 == 0xB {
        Some(Instruction::JmpV0(Addr::new(n2, n3, n4)))
    } else if n1 == 0xC {
        Some(Instruction::Rand(Vx(n2), construct_byte(n3, n4)))
    } else if n1 == 0xD {
        Some(Instruction::Draw(Vx(n2), Vx(n3), n4))
    } else if n1 == 0xE && n3 == 0x9 && n4 == 0xE {
        Some(Instruction::SkipKeyPressed(Vx(n2)))
    } else if n1 == 0xE && n3 == 0xA && n4 == 0x1 {
        Some(Instruction::SkipKeyNotPressed(Vx(n2)))
    } else if n1 == 0xF && n3 == 0x0 && n4 == 0x7 {
        Some(Instruction::LoadDelay(Vx(n2)))
    } else if n1 == 0xF && n3 == 0x0 && n4 == 0xA {
        Some(Instruction::LoadKey(Vx(n2)))
    } else if n1 == 0xF && n3 == 0x1 && n4 == 0x5 {
        Some(Instruction::SetDelay(Vx(n2)))
    } else if n1 == 0xF && n3 == 0x1 && n4 == 0x8 {
        Some(Instruction::SetSound(Vx(n2)))
    } else if n1 == 0xF && n3 == 0x1 && n4 == 0xE {
        Some(Instruction::AddI(Vx(n2)))
    } else if n1 == 0xF && n3 == 0x2 && n4 == 0x9 {
        Some(Instruction::LoadFont(Vx(n2)))
    } else if n1 == 0xF && n3 == 0x3 && n4 == 0x3 {
        Some(Instruction::LoadBcd(Vx(n2)))
    } else if n1 == 0xF && n3 == 0x5 && n4 == 0x5 {
        Some(Instruction::StoreRegisters(Vx(n2)))
    } else if n1 == 0xF && n3 == 0x6 && n4 == 0x5 {
        Some(Instruction::LoadRegisters(Vx(n2)))
    } else {
        None
    };
    r
}

/// The mathematical state of the register file: general registers, index
/// register, the two timers, program counter, and stack pointer.
#[verifier::ext_equal]
pub ghost struct CpuModel {
    pub vx: Seq<u8>,
    pub i: u16,
    pub delay: u8,
    pub sound: u8,
    pub pc: u16,
    pub sp: u8,
}

/// The full mathematical state of the virtual machine.
#[verifier::ext_equal]
pub ghost struct MachineModel {
    pub cpu: CpuModel,
    pub mem: Seq<u8>,
    pub disp: Seq<u8>,
}

pub open spec fn machine_of(cpu: CpuModel, mem: Seq<u8>, disp: Seq<u8>) -> MachineModel {
    MachineModel { cpu, mem, disp }
}

/// `c` with register `j` set to `v`.
pub open spec fn with_vx(c: CpuModel, j: int, v: u8) -> CpuModel {
    CpuModel { vx: c.vx.update(j, v), ..c }
}

/// `c` with the program counter set to `pc`.
pub open spec fn with_pc(c: CpuModel, pc: u16) -> CpuModel {
    CpuModel { pc, ..c }
}

/// `c` with the index register set to `i`.
pub open spec fn with_i(c: CpuModel, i: u16) -> CpuModel {
    CpuModel { i, ..c }
}

/// `c` after a conditional skip: the program counter advances by one more
/// instruction exactly when the condition held.
pub open spec fn skip_if(c: CpuModel, cond: bool) -> CpuModel {
    if cond {
        CpuModel { pc: (c.pc + 2) as u16, ..c }
    } else {
        c
    }
}

/// The memory address of the stack slot that holds the return address
/// pushed at depth `sp`.
pub open spec fn stack_slot(sp: u8) -> int {
    STACK_TOP - 2 * (sp as int)
}

/// The register file, program counter, call stack pointer, and timers.
pub struct Cpu {
    vx: Vec<u8>,
    i: u16,
    delay: u8,
    sound: u8,
    pc: u16,
    sp: u8,
}

impl View for Cpu {
    type V = CpuModel;

    closed spec fn view(&self) -> CpuModel {
        CpuModel {
            vx: self.vx@,
            i: self.i,
            delay: self.delay,
            sound: self.sound,
            pc: self.pc,
            sp: self.sp,
        }
    }
}

impl Cpu {
    pub open spec fn wf(&self) -> bool {
        self@.vx.len() == NUM_REGISTERS && self@.sp <= STACK_DEPTH
    }

    /// A fresh register file: everything zero except the program counter,
    /// which starts at the configured program origin.
    pub fn new(eti_mode: bool) -> (cpu: Cpu)
        ensures
            cpu.wf(),
            forall|j: int| 0 <= j < NUM_REGISTERS ==> cpu@.vx[j] == 0u8,
            cpu@.i == 0,
            cpu@.delay == 0,
            cpu@.sound == 0,
            cpu@.sp == 0,
            cpu@.pc == (if eti_mode { ETI_660_START as u16 } else { PROGRAM_START as u16 }),
    {
        let mut vx: Vec<u8> = Vec::new();
        while vx.len() < NUM_REGISTERS
            invariant
                vx@.len() <= NUM_REGISTERS,
                forall|j: int| 0 <= j < vx@.len() ==> vx@[j] == 0u8,
            decreases NUM_REGISTERS - vx@.len(),
        {
            vx.push(0);
        }
        Cpu {
            vx,
            i: 0,
            delay: 0,
            sound: 0,
            pc: if eti_mode { ETI_660_START as u16 } else { PROGRAM_START as u16 },
            sp: 0,
        }
    }

    /// One 60Hz timer tick: each timer counts down by one and stops at zero.
    pub fn step_clocks(&mut self)
        requires
            old(self).wf(),
        ensures
            final(self).wf(),
            final(self)@.delay == (if old(self)@.delay > 0 { (old(self)@.delay - 1) as u8 } else { 0u8 }),
            final(self)@.sound == (if old(self)@.sound > 0 { (old(self)@.sound - 1) as u8 } else { 0u8 }),
            final(self)@.vx == old(self)@.vx,
            final(self)@.i == old(self)@.i,
            final(self)@.pc == old(self)@.pc,
            final(self)@.sp == old(self)@.sp,
    {
        if self.delay > 0 {
            self.delay = self.delay - 1;
        }
        if self.sound > 0 {
            self.sound = self.sound - 1;
        }
    }

    /// Stores the key a resolved key-wait reported into the register the
    /// `LoadKey` instruction named.
    pub fn complete_key_wait(&mut self, x: Vx, key: u8)
        requires
            old(self).wf(),
            x.0 < 16,
            key < 16,
        ensures
            final(self).wf(),
            final(self)@ == with_vx(old(self)@, x.0 as int, key),
    {
        self.vx.set(x.0 as usize, key);
    }

    /// The value of general register `x`.
    pub fn v(&self, x: Vx) -> (r: u8)
        requires
            self.wf(),
            x.0 < 16,
        ensures
            r == self@.vx[x.0 as int],
    {
        self.vx[x.0 as usize]
    }

    /// The program counter.
    pub fn pc(&self) -> (r: u16)
        ensures
            r == self@.pc,
    {
        self.pc
    }

    /// The index register `I`.
    pub fn index_register(&self) -> (r: u16)
        ensures
            r == self@.i,
    {
        self.i
    }

    /// The delay timer.
    pub fn delay_timer(&self) -> (r: u8)
        ensures
            r == self@.delay,
    {
        self.delay
    }

    /// The sound timer.
    pub fn sound_timer(&self) -> (r: u8)
        ensures
            r == self@.sound,
    {
        self.sound
    }

    /// Executes one decoded instruction against the register file, memory,
    /// display, and the key state the host last reported. The meaning of
    /// every instruction is `exec_rel`.
    #[verifier::spinoff_prover]
    #[verifier::rlimit(100)]
    pub fn execute_instruction(
        &mut self,
        instr: Instruction,
        ram: &mut Memory,
        display: &mut Display,
        keypad: &Keypad,
    ) -> (r: Result<ExecOutcome, Chip8Error>)
        requires
            old(self).wf(),
            old(ram).wf(),
            old(display).wf(),
            keypad.wf(),
            instr.wf(),
            old(self)@.pc + 2 <= 0xFFFF,
        ensures
            final(self).wf(),
            final(ram).wf(),
            final(display).wf(),
            exec_rel(
                machine_of(old(self)@, old(ram)@, old(display)@),
                machine_of(final(self)@, final(ram)@, final(display)@),
                instr, keypad@, r),
    {
        match instr {
            Instruction::Cls => {
                display.clear_screen();
                return Ok(ExecOutcome::Continue);
            }
            Instruction::Ret => {
                match self.stack_pop(ram) {
                    Ok(a) => {
                        self.pc = a;
                        return Ok(ExecOutcome::Continue);
                    }
                    Err(e) => return Err(e),
                }
            }
            Instruction::Sys(_) => return Ok(ExecOutcome::Continue),
            Instruction::Jmp(addr) => {
                self.pc = addr.0;
                return Ok(ExecOutcome::Continue);
            }
            Instruction::Call(addr) => {
                let pc = self.pc;
                match self.stack_push(ram, pc) {
                    Ok(()) => {
                        self.pc = addr.0;
                        return Ok(ExecOutcome::Continue);
                    }
                    Err(e) => return Err(e),
                }
            }
            Instruction::SkipEq(x, b) => {
                if self.vx[x.0 as usize] == b {
                    self.pc = self.pc + 2;
                }
                return Ok(ExecOutcome::Continue);
            }
            Instruction::SkipNotEq(x, b) => {
                if self.vx[x.0 as usize] != b {
                    self.pc = self.pc + 2;
                }
                return Ok(ExecOutcome::Continue);
            }
            Instruction::SkipEqVx(x, y) => {
                if self.vx[x.0 as usize] == self.vx[y.0 as usize] {
                    self.pc = self.pc + 2;
                }
                return Ok(ExecOutcome::Continue);
            }
            Instruction::Load(x, b) => {
                self.vx.set(x.0 as usize, b);
                return Ok(ExecOutcome::Continue);
            }
            Instruction::Add(x, b) => {
                let a = self.vx[x.0 as usize];
                let sum = a as u16 + b as u16;
                self.vx.set(x.0 as usize, (sum % 256) as u8);
                return Ok(ExecOutcome::Continue);
            }
            Instruction::LoadVx(x, y) => {
                let v = self.vx[y.0 as usize];
                self.vx.set(x.0 as usize, v);
                return Ok(ExecOutcome::Continue);
            }
            Instruction::Or(x, y) => {
                let v = self.vx[x.0 as usize] | self.vx[y.0 as usize];
                self.vx.set(x.0 as usize, v);
                return Ok(ExecOutcome::Continue);
            }
            Instruction::And(x, y) => {
                let v = self.vx[x.0 as usize] & self.vx[y.0 as usize];
                self.vx.set(x.0 as usize, v);
                return Ok(ExecOutcome::Continue);
            }
            Instruction::XOr(x, y) => {
                let v = self.vx[x.0 as usize] ^ self.vx[y.0 as usize];
                self.vx.set(x.0 as usize, v);
                return Ok(ExecOutcome::Continue);
            }
            Instruction::AddVx(x, y) => {
                let a = self.vx[x.0 as usize];
                let b = self.vx[y.0 as usize];
                let sum = a as u16 + b as u16;
                self.vx.set(x.0 as usize, (sum % 256) as u8);
                self.vx.set(0xF, if sum > 0xFF { 1 } else { 0 });
                return Ok(ExecOutcome::Continue);
            }
            Instruction::SubVx(x, y) => {
                let a = self.vx[x.0 as usize];
                let b = self.vx[y.0 as usize];
                self.vx.set(0xF, if a > b { 1 } else { 0 });
                let a2 = self.vx[x.0 as usize];
                let b2 = self.vx[y.0 as usize];
                let diff = (a2 as u16 + 256 - b2 as u16) % 256;
                proof {
                    lemma_mod_add_multiples_vanish(a2 - b2, 256);
                }
                self.vx.set(x.0 as usize, diff as u8);
                return Ok(ExecOutcome::Continue);
            }
            Instruction::ShiftRight(x) => {
                let v = self.vx[x.0 as usize];
                self.vx.set(0xF, v % 2);
                let v2 = self.vx[x.0 as usize];
                self.vx.set(x.0 as usize, v2 / 2);
                return Ok(ExecOutcome::Continue);
            }
            Instruction::SubN(x, y) => {
                let a = self.vx[x.0 as usize];
                let b = self.vx[y.0 as usize];
                self.vx.set(0xF, if b > a { 1 } else { 0 });
                let a2 = self.vx[x.0 as usize];
                let b2 = self.vx[y.0 as usize];
                let diff = (b2 as u16 + 256 - a2 as u16) % 256;
                proof {
                    lemma_mod_add_multiples_vanish(b2 - a2, 256);
                }
                self.vx.set(x.0 as usize, diff as u8);
                return Ok(ExecOutcome::Continue);
            }
            Instruction::ShiftLeft(x) => {
                let v = self.vx[x.0 as usize];
                self.vx.set(0xF, v / 128);
                let v2 = self.vx[x.0 as usize];
                let doubled = (v2 as u16 * 2) % 256;
                self.vx.set(x.0 as usize, doubled as u8);
                return Ok(ExecOutcome::Continue);
            }
            Instruction::SkipNotEqVx(x, y) => {
                if self.vx[x.0 as usize] != self.vx[y.0 as usize] {
                    self.pc = self.pc + 2;
                }
                return Ok(ExecOutcome::Continue);
            }
            Instruction::LoadI(addr) => {
                self.i = addr.0 & 0x0FFF;
                proof {
                    let a = addr.0;
                    assert(a <= 0xFFF ==> (a & 0x0FFF) == a) by (bit_vector);
                }
                return Ok(ExecOutcome::Continue);
            }
            Instruction::JmpV0(addr) => {
                self.pc = self.vx[0] as u16 + addr.0;
                return Ok(ExecOutcome::Continue);
            }
            Instruction::Rand(x, mask) => {
                let b = random_byte();
                self.vx.set(x.0 as usize, b & mask);
                proof {
                    assert(self@ == with_vx(old(self)@, x.0 as int, (b & mask)));
                }
                return Ok(ExecOutcome::Continue);
            }
            Instruction::Draw(x, y, n) => {
                let px = self.vx[x.0 as usize];
                let py = self.vx[y.0 as usize];
                let address = self.i as usize;
                match ram.read(address, n as usize) {
                    Ok(rows) => {
                        let collision = display.draw_sprite(Point(px, py), Sprite { rows });
                        self.vx.set(0xF, if collision { 1 } else { 0 });
                        return Ok(ExecOutcome::Continue);
                    }
                    Err(e) => return Err(e),
                }
            }
            Instruction::SkipKeyPressed(x) => {
                if keypad.key_down(x.0) {
                    self.pc = self.pc + 2;
                }
                return Ok(ExecOutcome::Continue);
            }
            Instruction::SkipKeyNotPressed(x) => {
                if !keypad.key_down(x.0) {
                    self.pc = self.pc + 2;
                }
                return Ok(ExecOutcome::Continue);
            }
            Instruction::LoadDelay(x) => {
                let d = self.delay;
                self.vx.set(x.0 as usize, d);
                return Ok(ExecOutcome::Continue);
            }
            Instruction::LoadKey(x) => return Ok(ExecOutcome::AwaitKey(x)),
            Instruction::SetDelay(x) => {
                self.delay = self.vx[x.0 as usize];
                return Ok(ExecOutcome::Continue);
            }
            Instruction::SetSound(x) => {
                self.sound = self.vx[x.0 as usize];
                return Ok(ExecOutcome::Continue);
            }
            Instruction::AddI(x) => {
                let v = self.vx[x.0 as usize];
                self.vx.set(0xF, if self.i as u32 + v as u32 > 0xFFF { 1 } else { 0 });
                let v2 = self.vx[x.0 as usize];
                let sum = (self.i as u32 + v2 as u32) % 0x10000;
                self.i = sum as u16;
                return Ok(ExecOutcome::Continue);
            }
            Instruction::LoadFont(x) => {
                let v = self.vx[x.0 as usize];
                proof {
                    assert(SPRITE_SIZE == 5);
                    assert(SPRITE_SIZE * v <= 5 * 255);
                }
                self.i = (SPRITE_SIZE as u16) * (v as u16);
                return Ok(ExecOutcome::Continue);
            }
            Instruction::LoadBcd(x) => {
                let num = self.vx[x.0 as usize];
                let mut bcd: Vec<u8> = Vec::new();
                bcd.push(num / 100);
                bcd.push((num % 100) / 10);
                bcd.push(num % 10);
                proof {
                    assert(bcd@ =~= seq![(num / 100) as u8, ((num % 100) / 10) as u8, (num % 10) as u8]);
                }
                match ram.write(self.i as usize, bcd.as_slice()) {
                    Ok(()) => return Ok(ExecOutcome::Continue),
                    Err(e) => return Err(e),
                }
            }
            Instruction::StoreRegisters(x) => {
                let cnt = x.0 as usize + 1;
                let mut buf: Vec<u8> = Vec::new();
                proof {
                    assert(buf@ =~= self@.vx.take(0));
                }
                let mut j: usize = 0;
                while j < cnt
                    invariant
                        j <= cnt,
                        cnt == x.0 + 1,
                        x.0 < 16,
                        self.wf(),
                        buf@ == self@.vx.take(j as int),
                    decreases cnt - j,
                {
                    buf.push(self.vx[j]);
                    proof {
                        assert(self@.vx.take(j + 1) =~= self@.vx.take(j as int).push(self@.vx[j as int]));
                    }
                    j += 1;
                }
                match ram.write(self.i as usize, buf.as_slice()) {
                    Ok(()) => return Ok(ExecOutcome::Continue),
                    Err(e) => return Err(e),
                }
            }
            Instruction::LoadRegisters(x) => {
                let cnt = x.0 as usize + 1;
                let address = self.i as usize;
                match ram.read(address, cnt) {
                    Ok(buf) => {
                        let mut j: usize = 0;
                        while j < cnt
                            invariant
                                j <= cnt,
                                cnt == x.0 + 1,
                                x.0 < 16,
                                buf@.len() == cnt,
                                self@.vx.len() == 16,
                                self@.sp == old(self)@.sp,
                                self@.i == old(self)@.i,
                                self@.delay == old(self)@.delay,
                                self@.sound == old(self)@.sound,
                                self@.pc == old(self)@.pc,
                                old(self).wf(),
                                forall|t: int| 0 <= t < j ==> self@.vx[t] == buf@[t],
                                forall|t: int| j <= t < 16 ==> self@.vx[t] == old(self)@.vx[t],
                            decreases cnt - j,
                        {
                            let v = buf[j];
                            self.vx.set(j, v);
                            j += 1;
                        }
                        proof {
                            let c = old(self)@;
                            let loaded = Seq::new(16, |t: int| if t < cnt { old(ram)@[c.i + t] } else { c.vx[t] });
                            assert(buf@ == old(ram)@.subrange(c.i as int, c.i + cnt));
                            assert forall|t: int| 0 <= t < 16 implies self@.vx[t] == loaded[t] by {
                                if t < cnt {
                                    assert(buf@[t] == old(ram)@.subrange(c.i as int, c.i + cnt)[t]);
                                    assert(buf@[t] == old(ram)@[c.i + t]);
                                }
                            }
                            assert(self@.vx =~= loaded);
                            assert(self@ == (CpuModel { vx: loaded, ..c }));
                        }
                        return Ok(ExecOutcome::Continue);
                    }
                    Err(e) => return Err(e),
                }
            }
        }
    }

    /// Pops the return address at the current stack depth; underflows on an
    /// empty stack.
    fn stack_pop(&mut self, ram: &Memory) -> (r: Result<u16, Chip8Error>)
        requires
            old(self).wf(),
            ram.wf(),
        ensures
            final(self).wf(),
            old(self)@.sp == 0 ==> {
                &&& r == Err::<u16, Chip8Error>(Chip8Error::StackUnderflow)
                &&& final(self)@ == old(self)@
            },
            old(self)@.sp > 0 ==> {
                &&& r == Ok::<u16, Chip8Error>(
                    (ram@[stack_slot(old(self)@.sp)] * 256 + ram@[stack_slot(old(self)@.sp) + 1]) as u16)
                &&& final(self)@ == (CpuModel { sp: (old(self)@.sp - 1) as u8, ..old(self)@ })
            },
    {
        if self.sp == 0 {
            return Err(Chip8Error::StackUnderflow);
        }
        let address = STACK_TOP - 2 * (self.sp as usize);
        match ram.read(address, 2) {
            Ok(bytes) => {
                self.sp = self.sp - 1;
                Ok(construct_short(bytes[0], bytes[1]))
            }
            Err(e) => {
                proof {
                    assert(address + 2 <= MEMORY_SIZE);
                }
                Err(e)
            }
        }
    }

    /// Pushes a return address at the next stack depth; overflows when the
    /// stack is at capacity.
    fn stack_push(&mut self, ram: &mut Memory, addr: u16) -> (r: Result<(), Chip8Error>)
        requires
            old(self).wf(),
            old(ram).wf(),
        ensures
            final(self).wf(),
            final(ram).wf(),
            old(self)@.sp == STACK_DEPTH ==> {
                &&& r == Err::<(), Chip8Error>(Chip8Error::StackOverflow)
                &&& final(self)@ == old(self)@
                &&& final(ram)@ == old(ram)@
            },
            old(self)@.sp < STACK_DEPTH ==> {
                &&& r == Ok::<(), Chip8Error>(())
                &&& final(self)@ == (CpuModel { sp: (old(self)@.sp + 1) as u8, ..old(self)@ })
                &&& final(ram)@ == write_range(old(ram)@, stack_slot((old(self)@.sp + 1) as u8),
                        seq![(addr / 256) as u8, (addr % 256) as u8])
            },
    {
        if self.sp == STACK_DEPTH {
            return Err(Chip8Error::StackOverflow);
        }
        self.sp = self.sp + 1;
        let address = STACK_TOP - 2 * (self.sp as usize);
        let mut bytes: Vec<u8> = Vec::new();
        bytes.push(((addr >> 8) & 0xFF) as u8);
        bytes.push((addr & 0xFF) as u8);
        proof {
            assert(((addr >> 8) & 0xFF) as u8 == (addr / 256) as u8) by (bit_vector);
            assert((addr & 0xFF) as u8 == (addr % 256) as u8) by (bit_vector);
            assert(bytes@ =~= seq![(addr / 256) as u8, (addr % 256) as u8]);
        }
        match ram.write(address, bytes.as_slice()) {
            Ok(()) => Ok(()),
            Err(e) => {
                proof {
                    assert(address + 2 <= MEMORY_SIZE);
                }
                Err(e)
            }
        }
    }
}

/// What one instruction cycle may hand back besides an error: either the
/// machine goes on, or a `LoadKey` suspended it and the host must report a
/// key press before execution resumes.
#[derive(Debug, Clone, Copy, PartialEq, Eq, Structural)]
pub enum ExecOutcome {
    Continue,
    AwaitKey(Vx),
}

pub open spec fn ok_continue(r: Result<ExecOutcome, Chip8Error>) -> bool {
    r == Ok::<ExecOutcome, Chip8Error>(ExecOutcome::Continue)
}

/// The execute semantics of every instruction: how the machine state after
/// one executed instruction relates to the state before it, given the key
/// state the host last reported. Every failure leaves the machine
/// unchanged. The key-skip instructions test the key named by the operand
/// nibble, and the flag-writing instructions write `VF` in the order the
/// hardware does, so `VF` as an operand sees the flag where the flag is
/// written first.
pub open spec fn exec_rel(
    pre: MachineModel,
    post: MachineModel,
    instr: Instruction,
    keys: Seq<bool>,
    r: Result<ExecOutcome, Chip8Error>,
) -> bool {
    let c = pre.cpu;
    let vx = c.vx;
    match instr {
        Instruction::Cls => ok_continue(r) && post == machine_of(c, pre.mem, blank_display()),
        Instruction::Ret => if c.sp == 0 {
            &&& r == Err::<ExecOutcome, Chip8Error>(Chip8Error::StackUnderflow)
            &&& post == pre
        } else {
            let slot = stack_slot(c.sp);
            &&& ok_continue(r)
            &&& post == machine_of(
                (CpuModel {
                    pc: (pre.mem[slot] * 256 + pre.mem[slot + 1]) as u16,
                    sp: (c.sp - 1) as u8,
                    ..c
                }),
                pre.mem,
                pre.disp,
            )
        },
        Instruction::Sys(_) => ok_continue(r) && post == pre,
        Instruction::Jmp(a) => ok_continue(r) && post == machine_of(with_pc(c, a.0), pre.mem, pre.disp),
        Instruction::Call(a) => if c.sp == STACK_DEPTH {
            &&& r == Err::<ExecOutcome, Chip8Error>(Chip8Error::StackOverflow)
            &&& post == pre
        } else {
            &&& ok_continue(r)
            &&& post == machine_of(
                (CpuModel { pc: a.0, sp: (c.sp + 1) as u8, ..c }),
                write_range(pre.mem, stack_slot((c.sp + 1) as u8),
                    seq![(c.pc / 256) as u8, (c.pc % 256) as u8]),
                pre.disp,
            )
        },
        Instruction::SkipEq(x, b) => ok_continue(r)
            && post == machine_of(skip_if(c, vx[x.0 as int] == b), pre.mem, pre.disp),
        Instruction::SkipNotEq(x, b) => ok_continue(r)
            && post == machine_of(skip_if(c, vx[x.0 as int] != b), pre.mem, pre.disp),
        Instruction::SkipEqVx(x, y) => ok_continue(r)
            && post == machine_of(skip_if(c, vx[x.0 as int] == vx[y.0 as int]), pre.mem, pre.disp),
        Instruction::Load(x, b) => ok_continue(r)
            && post == machine_of(with_vx(c, x.0 as int, b), pre.mem, pre.disp),
        Instruction::Add(x, b) => ok_continue(r)
            && post == machine_of(with_vx(c, x.0 as int, ((vx[x.0 as int] + b) % 256) as u8), pre.mem, pre.disp),
        Instruction::LoadVx(x, y) => ok_continue(r)
            && post == machine_of(with_vx(c, x.0 as int, vx[y.0 as int]), pre.mem, pre.disp),
        Instruction::Or(x, y) => ok_continue(r)
            && post == machine_of(with_vx(c, x.0 as int, vx[x.0 as int] | vx[y.0 as int]), pre.mem, pre.disp),
        Instruction::And(x, y) => ok_continue(r)
            && post == machine_of(with_vx(c, x.0 as int, vx[x.0 as int] & vx[y.0 as int]), pre.mem, pre.disp),
        Instruction::XOr(x, y) => ok_continue(r)
            && post == machine_of(with_vx(c, x.0 as int, vx[x.0 as int] ^ vx[y.0 as int]), pre.mem, pre.disp),
        Instruction::AddVx(x, y) => {
            let sum = vx[x.0 as int] + vx[y.0 as int];
            let summed = vx.update(x.0 as int, (sum % 256) as u8);
            let flagged = summed.update(15, if sum > 255 { 1u8 } else { 0u8 });
            ok_continue(r) && post == machine_of((CpuModel { vx: flagged, ..c }), pre.mem, pre.disp)
        },
        Instruction::SubVx(x, y) => {
            let flagged = vx.update(15, if vx[x.0 as int] > vx[y.0 as int] { 1u8 } else { 0u8 });
            let result = ((flagged[x.0 as int] - flagged[y.0 as int]) % 256) as u8;
            ok_continue(r)
                && post == machine_of((CpuModel { vx: flagged.update(x.0 as int, result), ..c }), pre.mem, pre.disp)
        },
        Instruction::ShiftRight(x) => {
            let flagged = vx.update(15, (vx[x.0 as int] % 2) as u8);
            let result = (flagged[x.0 as int] / 2) as u8;
            ok_continue(r)
                && post == machine_of((CpuModel { vx: flagged.update(x.0 as int, result), ..c }), pre.mem, pre.disp)
        },
        Instruction::SubN(x, y) => {
            let flagged = vx.update(15, if vx[y.0 as int] > vx[x.0 as int] { 1u8 } else { 0u8 });
            let result = ((flagged[y.0 as int] - flagged[x.0 as int]) % 256) as u8;
            ok_continue(r)
                && post == machine_of((CpuModel { vx: flagged.update(x.0 as int, result), ..c }), pre.mem, pre.disp)
        },
        Instruction::ShiftLeft(x) => {
            let flagged = vx.update(15, (vx[x.0 as int] / 128) as u8);
            let result = ((flagged[x.0 as int] * 2) % 256) as u8;
            ok_continue(r)
                && post == machine_of((CpuModel { vx: flagged.update(x.0 as int, result), ..c }), pre.mem, pre.disp)
        },
        Instruction::SkipNotEqVx(x, y) => ok_continue(r)
            && post == machine_of(skip_if(c, vx[x.0 as int] != vx[y.0 as int]), pre.mem, pre.disp),
        Instruction::LoadI(a) => ok_continue(r) && post == machine_of(with_i(c, a.0), pre.mem, pre.disp),
        Instruction::JmpV0(a) => ok_continue(r)
            && post == machine_of(with_pc(c, (vx[0] + a.0) as u16), pre.mem, pre.disp),
        Instruction::Rand(x, mask) => {
            &&& ok_continue(r)
            &&& post.mem == pre.mem
            &&& post.disp == pre.disp
            &&& exists|b: u8| post.cpu == with_vx(c, x.0 as int, b & mask)
        },
        Instruction::Draw(x, y, n) => if c.i + n <= MEMORY_SIZE {
            let rows = pre.mem.subrange(c.i as int, c.i + n);
            let px = vx[x.0 as int];
            let py = vx[y.0 as int];
            let hit = spec_collides(pre.disp, px, py, rows);
            &&& ok_continue(r)
            &&& post == machine_of(
                with_vx(c, 15, if hit { 1u8 } else { 0u8 }),
                pre.mem,
                spec_draw(pre.disp, px, py, rows),
            )
        } else {
            &&& r == Err::<ExecOutcome, Chip8Error>(
                (Chip8Error::OutOfBounds { address: c.i as usize, length: n as usize }))
            &&& post == pre
        },
        Instruction::SkipKeyPressed(x) => ok_continue(r)
            && post == machine_of(skip_if(c, keys[x.0 as int]), pre.mem, pre.disp),
        Instruction::SkipKeyNotPressed(x) => ok_continue(r)
            && post == machine_of(skip_if(c, !keys[x.0 as int]), pre.mem, pre.disp),
        Instruction::LoadDelay(x) => ok_continue(r)
            && post == machine_of(with_vx(c, x.0 as int, c.delay), pre.mem, pre.disp),
        Instruction::LoadKey(x) => {
            &&& r == Ok::<ExecOutcome, Chip8Error>(ExecOutcome::AwaitKey(x))
            &&& post == pre
        },
        Instruction::SetDelay(x) => ok_continue(r)
            && post == machine_of((CpuModel { delay: vx[x.0 as int], ..c }), pre.mem, pre.disp),
        Instruction::SetSound(x) => ok_continue(r)
            && post == machine_of((CpuModel { sound: vx[x.0 as int], ..c }), pre.mem, pre.disp),
        Instruction::AddI(x) => {
            let flag: u8 = if c.i + vx[x.0 as int] > 0xFFF { 1u8 } else { 0u8 };
            let flagged = vx.update(15, flag);
            let index = ((c.i + flagged[x.0 as int]) % 0x10000) as u16;
            ok_continue(r)
                && post == machine_of((CpuModel { vx: flagged, i: index, ..c }), pre.mem, pre.disp)
        },
        Instruction::LoadFont(x) => ok_continue(r)
            && post == machine_of(with_i(c, (SPRITE_SIZE * vx[x.0 as int]) as u16), pre.mem, pre.disp),
        Instruction::LoadBcd(x) => {
            let v = vx[x.0 as int];
            if c.i + 3 <= MEMORY_SIZE {
                &&& ok_continue(r)
                &&& post == machine_of(c,
                    write_range(pre.mem, c.i as int,
                        seq![(v / 100) as u8, ((v % 100) / 10) as u8, (v % 10) as u8]),
                    pre.disp)
            } else {
                &&& r == Err::<ExecOutcome, Chip8Error>(
                    (Chip8Error::OutOfBounds { address: c.i as usize, length: 3 }))
                &&& post == pre
            }
        },
        Instruction::StoreRegisters(x) => {
            let cnt = x.0 + 1;
            if c.i + cnt <= MEMORY_SIZE {
                &&& ok_continue(r)
                &&& post == machine_of(c, write_range(pre.mem, c.i as int, vx.take(cnt as int)), pre.disp)
            } else {
                &&& r == Err::<ExecOutcome, Chip8Error>(
                    (Chip8Error::OutOfBounds { address: c.i as usize, length: cnt as usize }))
                &&& post == pre
            }
        },
        Instruction::LoadRegisters(x) => {
            let cnt = x.0 + 1;
            if c.i + cnt <= MEMORY_SIZE {
                let loaded = Seq::new(16, |j: int| if j < cnt { pre.mem[c.i + j] } else { vx[j] });
                &&& ok_continue(r)
                &&& post == machine_of((CpuModel { vx: loaded, ..c }), pre.mem, pre.disp)
            } else {
                &&& r == Err::<ExecOutcome, Chip8Error>(
                    (Chip8Error::OutOfBounds { address: c.i as usize, length: cnt as usize }))
                &&& post == pre
            }
        },
    }
}

/// Relies on rand::random: a byte drawn from the host's generator; nothing
/// is assumed of its value.
#[verifier::external_body]
fn random_byte() -> u8 {
    rand::random::<u8>()
}

/// For every pair of registers and every starting register file, `AddVx`
/// sets `VF` to 1 exactly when the 8-bit sum overflows, and stores the
/// wrapped sum. The stored-sum clause needs `x` to be a register other
/// than `VF` itself, which the carry flag overwrites.
pub proof fn lemma_add_carry(
    pre: MachineModel,
    post: MachineModel,
    x: Vx,
    y: Vx,
    keys: Seq<bool>,
    r: Result<ExecOutcome, Chip8Error>,
)
    requires
        pre.cpu.vx.len() == 16,
        x.0 < 16,
        y.0 < 16,
        exec_rel(pre, post, Instruction::AddVx(x, y), keys, r),
    ensures
        ok_continue(r),
        post.cpu.vx[15] == (if pre.cpu.vx[x.0 as int] + pre.cpu.vx[y.0 as int] > 255 { 1u8 } else { 0u8 }),
        x.0 != 15 ==> post.cpu.vx[x.0 as int] == (pre.cpu.vx[x.0 as int] + pre.cpu.vx[y.0 as int]) % 256,
{
}

/// For every pair of registers other than `VF` and every starting register
/// file, `SubVx` sets `VF` to 1 exactly when no borrow occurs (the
/// minuend is strictly greater), and stores the wrapped difference. With
/// `VF` itself as an operand the flag write feeds the subtraction instead.
pub proof fn lemma_sub_borrow(
    pre: MachineModel,
    post: MachineModel,
    x: Vx,
    y: Vx,
    keys: Seq<bool>,
    r: Result<ExecOutcome, Chip8Error>,
)
    requires
        pre.cpu.vx.len() == 16,
        x.0 < 16,
        y.0 < 16,
        x.0 != 15,
        y.0 != 15,
        exec_rel(pre, post, Instruction::SubVx(x, y), keys, r),
    ensures
        ok_continue(r),
        post.cpu.vx[15] == (if pre.cpu.vx[x.0 as int] > pre.cpu.vx[y.0 as int] { 1u8 } else { 0u8 }),
        post.cpu.vx[x.0 as int] == (pre.cpu.vx[x.0 as int] - pre.cpu.vx[y.0 as int]) % 256,
{
}

/// `ShiftRight` then `ShiftLeft` on the same register (one other than
/// `VF`) is not a round trip: the stored value comes back with its lowest
/// bit cleared, and each shift leaves exactly the bit it discarded in
/// `VF` — the low bit first, then the zero that `ShiftLeft` pushes out of
/// the already-halved value.
pub proof fn lemma_shift_round_trip(
    s0: MachineModel,
    s1: MachineModel,
    s2: MachineModel,
    x: Vx,
    keys1: Seq<bool>,
    keys2: Seq<bool>,
    r1: Result<ExecOutcome, Chip8Error>,
    r2: Result<ExecOutcome, Chip8Error>,
)
    requires
        s0.cpu.vx.len() == 16,
        x.0 < 16,
        x.0 != 15,
        exec_rel(s0, s1, Instruction::ShiftRight(x), keys1, r1),
        exec_rel(s1, s2, Instruction::ShiftLeft(x), keys2, r2),
    ensures
        s1.cpu.vx[15] == s0.cpu.vx[x.0 as int] % 2,
        s1.cpu.vx[x.0 as int] == s0.cpu.vx[x.0 as int] / 2,
        s2.cpu.vx[15] == s1.cpu.vx[x.0 as int] / 128,
        s2.cpu.vx[15] == 0,
        s2.cpu.vx[x.0 as int] == s0.cpu.vx[x.0 as int] - (s0.cpu.vx[x.0 as int] % 2),
{
    let v = s0.cpu.vx[x.0 as int];
    assert(s1.cpu.vx[x.0 as int] == v / 2);
    assert((v / 2) * 2 % 256 == v - (v % 2));
}

/// `StoreRegisters(x)` in one machine, then `LoadRegisters(x)` in a
/// machine that holds the stored memory at the same index register,
/// copies `V0..=Vx` across exactly and leaves the higher registers of the
/// loading machine untouched.
pub proof fn lemma_store_load_registers(
    pre_a: MachineModel,
    post_a: MachineModel,
    pre_b: MachineModel,
    post_b: MachineModel,
    x: Vx,
    keys_a: Seq<bool>,
    keys_b: Seq<bool>,
)
    requires
        pre_a.cpu.vx.len() == 16,
        pre_b.cpu.vx.len() == 16,
        pre_a.mem.len() == MEMORY_SIZE,
        x.0 < 16,
        exec_rel(pre_a, post_a, Instruction::StoreRegisters(x), keys_a,
            Ok::<ExecOutcome, Chip8Error>(ExecOutcome::Continue)),
        pre_b.mem == post_a.mem,
        pre_b.cpu.i == pre_a.cpu.i,
        exec_rel(pre_b, post_b, Instruction::LoadRegisters(x), keys_b,
            Ok::<ExecOutcome, Chip8Error>(ExecOutcome::Continue)),
    ensures
        forall|j: int| 0 <= j <= x.0 ==> post_b.cpu.vx[j] == pre_a.cpu.vx[j],
        forall|j: int| x.0 < j < 16 ==> post_b.cpu.vx[j] == pre_b.cpu.vx[j],
{
    let cnt = x.0 + 1;
    let i = pre_a.cpu.i as int;
    assert(post_a.mem == write_range(pre_a.mem, i, pre_a.cpu.vx.take(cnt as int)));
    assert forall|j: int| 0 <= j <= x.0 implies post_b.cpu.vx[j] == pre_a.cpu.vx[j] by {
        assert(post_b.cpu.vx[j] == pre_b.mem[i + j]);
        assert(pre_b.mem[i + j] == pre_a.cpu.vx.take(cnt as int)[j]);
    }
}

/// How one fetch-and-decode at the program counter relates the register
/// file before and after, and what it returns. A failure leaves the
/// program counter on the offending word, so the diagnostic can name it.
pub open spec fn fetch_rel(
    pre: CpuModel,
    mem: Seq<u8>,
    post: CpuModel,
    r: Result<Instruction, Chip8Error>,
) -> bool {
    let pc = pre.pc as int;
    if pc + 2 <= MEMORY_SIZE {
        match spec_decode(mem[pc], mem[pc + 1]) {
            Some(instr) => {
                &&& r == Ok::<Instruction, Chip8Error>(instr)
                &&& post == with_pc(pre, (pc + 2) as u16)
            },
            None => {
                &&& r == Err::<Instruction, Chip8Error>(
                    (Chip8Error::InvalidInstruction { high_byte: mem[pc], low_byte: mem[pc + 1] }))
                &&& post == pre
            },
        }
    } else {
        &&& r == Err::<Instruction, Chip8Error>(
            (Chip8Error::OutOfBounds { address: pre.pc as usize, length: 2 }))
        &&& post == pre
    }
}

/// Fetches the two-byte word at the program counter, advances the program
/// counter past it, and decodes it against the opcode table.
pub fn load_next_instruction(cpu: &mut Cpu, ram: &Memory) -> (r: Result<Instruction, Chip8Error>)
    requires
        old(cpu).wf(),
        ram.wf(),
    ensures
        final(cpu).wf(),
        fetch_rel(old(cpu)@, ram@, final(cpu)@, r),
        r is Ok ==> r->Ok_0.wf() && final(cpu)@.pc == old(cpu)@.pc + 2,
{
    let pc = cpu.pc as usize;
    match ram.read(pc, 2) {
        Ok(word) => {
            match read_instruction(word[0], word[1]) {
                Some(instr) => {
                    cpu.pc = cpu.pc + 2;
                    Ok(instr)
                }
                None => Err(Chip8Error::InvalidInstruction { high_byte: word[0], low_byte: word[1] }),
            }
        }
        Err(e) => return Err(e),
    }
}

} // verus!
