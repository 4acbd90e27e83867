use vstd::prelude::*;

use crate::error::Chip8Error;
use crate::sprite;

verus! {

/// Capacity of the addressable memory in bytes.
pub const MEMORY_SIZE: usize = 0xFFF;

/// Number of bytes the built-in font table occupies at the bottom of memory.
pub const FONT_TABLE_SIZE: usize = 80;

/// The result of overwriting `mem` from `address` on with the bytes of
/// `data`, leaving every byte outside that range as it was.
pub open spec fn write_range(mem: Seq<u8>, address: int, data: Seq<u8>) -> Seq<u8> {
    Seq::new(mem.len(), |j: int| if address <= j < address + data.len() { data[j - address] } else { mem[j] })
}

/// The addressable memory: a fixed-size byte array, zero-filled at start
/// except for the font table copied into its lowest bytes.
pub struct Memory {
    bytes: Vec<u8>,
    pub size: usize,
}

impl View for Memory {
    type V = Seq<u8>;

    closed spec fn view(&self) -> Seq<u8> {
        self.bytes@
    }
}

impl Memory {
    pub open spec fn wf(&self) -> bool {
        self@.len() == MEMORY_SIZE
    }

    /// A fresh memory: font glyphs in the lowest bytes, zero everywhere else.
    pub fn new() -> (m: Memory)
        ensures
            m.wf(),
            forall|i: int| 0 <= i < FONT_TABLE_SIZE ==> m@[i] == sprite::font_data()[i],
            forall|i: int| FONT_TABLE_SIZE <= i < MEMORY_SIZE ==> m@[i] == 0u8,
    {
        let mut bytes = sprite::font_table();
        while bytes.len() < MEMORY_SIZE
            invariant
                sprite::font_data().len() <= bytes@.len() <= MEMORY_SIZE,
                forall|i: int| 0 <= i < sprite::font_data().len() ==> bytes@[i] == sprite::font_data()[i],
                forall|i: int| sprite::font_data().len() <= i < bytes@.len() ==> bytes@[i] == 0u8,
            decreases MEMORY_SIZE - bytes@.len(),
        {
            bytes.push(0);
        }
        Memory { bytes, size: MEMORY_SIZE }
    }

    /// Copies `to_write` into memory starting at `address`; fails without
    /// changing anything when the range reaches past the end of memory.
    pub fn write(&mut self, address: usize, to_write: &[u8]) -> (r: Result<(), Chip8Error>)
        requires
            old(self).wf(),
        ensures
            final(self).wf(),
            address + to_write@.len() <= MEMORY_SIZE ==> {
                &&& r is Ok
                &&& final(self)@ == write_range(old(self)@, address as int, to_write@)
            },
            address + to_write@.len() > MEMORY_SIZE ==> {
                &&& r == Err::<(), Chip8Error>((Chip8Error::OutOfBounds { address, length: to_write@.len() as usize }))
                &&& final(self)@ == old(self)@
            },
    {
        let length = to_write.len();
        if address > MEMORY_SIZE || length > MEMORY_SIZE - address {
            return Err(Chip8Error::OutOfBounds { address, length });
        }
        let mut index: usize = 0;
        while index < length
            invariant
                index <= length,
                address + length <= MEMORY_SIZE,
                length == to_write@.len(),
                self@.len() == MEMORY_SIZE,
                forall|j: int| 0 <= j < index ==> self@[address + j] == to_write@[j],
                forall|j: int| 0 <= j < MEMORY_SIZE && !(address <= j < address + index) ==> self@[j] == old(self)@[j],
            decreases length - index,
        {
            self.bytes.set(address + index, to_write[index]);
            index += 1;
        }
        proof {
            assert(self@ =~= write_range(old(self)@, address as int, to_write@));
        }
        Ok(())
    }

    /// Reads `length` bytes starting at `address`; fails when the range
    /// reaches past the end of memory.
    pub fn read(&self, address: usize, length: usize) -> (r: Result<Vec<u8>, Chip8Error>)
        requires
            self.wf(),
        ensures
            address + length <= MEMORY_SIZE ==> {
                &&& r is Ok
                &&& r->Ok_0@ == self@.subrange(address as int, address + length)
            },
            address + length > MEMORY_SIZE ==> r == Err::<Vec<u8>, Chip8Error>((Chip8Error::OutOfBounds { address, length })),
    {
        if address > MEMORY_SIZE || length > MEMORY_SIZE - address {
            return Err(Chip8Error::OutOfBounds { address, length });
        }
        let mut buffer: Vec<u8> = Vec::new();
        let mut index: usize = 0;
        while index < length
            invariant
                index <= length,
                address + length <= MEMORY_SIZE,
                self.wf(),
                buffer@.len() == index,
                forall|j: int| 0 <= j < index ==> buffer@[j] == self@[address + j],
            decreases length - index,
        {
            buffer.push(self.bytes[address + index]);
            index += 1;
        }
        proof {
            assert(buffer@ =~= self@.subrange(address as int, address + length));
        }
        Ok(buffer)
    }
}

/// Whether a single address lies within memory.
pub fn is_valid_address(address: usize) -> (r: bool)
    ensures
        r == (address < MEMORY_SIZE),
{
    address < MEMORY_SIZE
}

} // verus!
