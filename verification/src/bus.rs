//! The memory bus: byte-addressed access to the single 4096-byte backing
//! region. Addresses 0x000..=0xFFF are mapped; any other address is an
//! unmapped access, reported as an error rather than performed.

use vstd::prelude::*;

verus! {

/// The size of the backing memory region in bytes.
pub const MEM_SIZE: usize = 4096;

/// The address at which a program image is loaded.
pub const LOAD_ADDR: usize = 0x200;

/// The two fatal conditions an interpreter run can end in: a load or store
/// whose address falls outside the mapped range, and an instruction word
/// that matches no decode case.
#[derive(Clone, Copy, PartialEq, Eq, Structural, Debug)]
pub enum Chip8Error {
    UnmappedAddress,
    InvalidInstruction,
}

/// A half-open-free, inclusive address range `start..=end`.
pub struct Range(pub u16, pub u16);

impl Range {
    /// Returns the offset of `addr` inside the range, or `None` when `addr`
    /// falls outside it.
    pub fn contains(self, addr: u16) -> (r: Option<u16>)
        requires
            self.0 <= self.1,
            self.1 < u16::MAX,
        ensures
            self.0 <= addr && addr <= self.1 ==> r == Some((addr - self.0) as u16),
            !(self.0 <= addr && addr <= self.1) ==> r is None,
    {
        let Range(start, end) = self;

        if addr >= start && addr < start + (end - start + 1) {
            Some(addr - start)
        } else {
            None
        }
    }
}

/// The memory bus. It owns the backing memory with the loaded program image.
pub struct Bus {
    pub rom: [u8; MEM_SIZE],
}

impl View for Bus {
    type V = Seq<u8>;

    open spec fn view(&self) -> Seq<u8> {
        self.rom@
    }
}

impl Bus {
    /// Builds a bus whose memory holds `program` starting at the load
    /// address 0x200 and zero everywhere else.
    pub fn new(program: &Vec<u8>) -> (bus: Bus)
        requires
            program@.len() <= MEM_SIZE - LOAD_ADDR,
        ensures
            bus@.len() == MEM_SIZE,
            forall|a: int| 0 <= a < MEM_SIZE ==> bus@[a] == (if LOAD_ADDR <= a < LOAD_ADDR + program@.len() {
                program@[a - LOAD_ADDR]
            } else {
                0u8
            }),
    {
        let mut rom: [u8; MEM_SIZE] = [0; MEM_SIZE];

        let mut idx: usize = 0;
        while idx < program.len()
            invariant
                idx <= program@.len(),
                program@.len() <= MEM_SIZE - LOAD_ADDR,
                rom@.len() == MEM_SIZE,
                forall|a: int| 0 <= a < MEM_SIZE ==> rom@[a] == (if LOAD_ADDR <= a < LOAD_ADDR + idx {
                    program@[a - LOAD_ADDR]
                } else {
                    0u8
                }),
            decreases program@.len() - idx,
        {
            rom[LOAD_ADDR + idx] = program[idx];
            idx = idx + 1;
        }

        Bus { rom }
    }

    /// Reads the byte at `addr`; an address beyond the mapped range is an
    /// unmapped access.
    pub fn load(&self, addr: u16) -> (r: Result<u8, Chip8Error>)
        ensures
            addr < MEM_SIZE ==> r == Ok::<u8, Chip8Error>(self@[addr as int]),
            addr >= MEM_SIZE ==> r == Err::<u8, Chip8Error>(Chip8Error::UnmappedAddress),
    {
        if let Some(offset) = (Range(0x000, 0xFFF)).contains(addr) {
            Ok(self.rom[offset as usize])
        } else {
            Err(Chip8Error::UnmappedAddress)
        }
    }

    /// Writes `value` at `addr`; an address beyond the mapped range is an
    /// unmapped access and leaves memory unchanged.
    pub fn store(&mut self, addr: u16, value: u8) -> (r: Result<(), Chip8Error>)
        ensures
            addr < MEM_SIZE ==> r is Ok && final(self)@ == old(self)@.update(addr as int, value),
            addr >= MEM_SIZE ==> r == Err::<(), Chip8Error>(Chip8Error::UnmappedAddress)
                && final(self)@ == old(self)@,
    {
        if let Some(offset) = (Range(0x000, 0xFFF)).contains(addr) {
            self.rom[offset as usize] = value;
            Ok(())
        } else {
            Err(Chip8Error::UnmappedAddress)
        }
    }
}

} // verus!
