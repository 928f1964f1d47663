//! A flat model of the 6502 address space: 16 KiB of RAM at the bottom,
//! 32 KiB of ROM at the top, and a log of every access.
use vstd::prelude::*;

verus! {

/// Size of the RAM at `0x0000`.
pub const RAM_SIZE: usize = 0x4000;

/// Size of the ROM at `0x8000`.
pub const ROM_SIZE: usize = 0x8000;

/// Lowest address of the ROM.
pub const ROM_START: u16 = 0x8000;

/// What an unmapped address reads as.
pub const OPEN_BUS: u8 = 0xFF;

/// Whether an access read or wrote memory.
#[derive(Debug, Copy, Clone, PartialEq, Eq, Structural)]
pub enum AccessKind {
    Read,
    Write,
}

/// One logged memory access.
#[derive(Debug, Copy, Clone, PartialEq, Eq, Structural)]
pub struct AccessLog {
    pub kind: AccessKind,
    pub address: u16,
    pub byte: u8,
}

/// Whether `address` falls in the RAM.
pub open spec fn in_ram(address: u16) -> bool {
    address < RAM_SIZE
}

/// Whether `address` falls in the ROM.
pub open spec fn in_rom(address: u16) -> bool {
    address >= ROM_START
}

/// The byte that memory holding `ram` and `rom` gives at `address`.
pub open spec fn read_value(ram: Seq<u8>, rom: Seq<u8>, address: u16) -> u8 {
    if in_ram(address) {
        ram[address as int]
    } else if in_rom(address) {
        rom[address - ROM_START]
    } else {
        OPEN_BUS
    }
}

/// The RAM after writing `byte` at `address`: only RAM addresses take writes.
pub open spec fn written_ram(ram: Seq<u8>, address: u16, byte: u8) -> Seq<u8> {
    if in_ram(address) {
        ram.update(address as int, byte)
    } else {
        ram
    }
}

/// RAM, ROM and the access log.
pub struct AddressSpace {
    ram: [u8; 0x4000],
    rom: [u8; 0x8000],
    log: Vec<AccessLog>,
}

impl AddressSpace {
    /// The RAM contents.
    pub closed spec fn ram(&self) -> Seq<u8> {
        self.ram@
    }

    /// The ROM contents.
    pub closed spec fn rom(&self) -> Seq<u8> {
        self.rom@
    }

    /// Every access so far, oldest first.
    pub closed spec fn accesses(&self) -> Seq<AccessLog> {
        self.log@
    }

    /// Memory with the given ROM, zeroed RAM and an empty log.
    pub fn new(rom: [u8; 0x8000]) -> (s: Self)
        ensures
            s.rom() == rom@,
            s.ram() == Seq::new(RAM_SIZE as nat, |i: int| 0u8),
            s.accesses() == Seq::<AccessLog>::empty(),
    {
        let s = Self { ram: [0u8; 0x4000], rom, log: Vec::new() };
        assert(s.ram() =~= Seq::new(RAM_SIZE as nat, |i: int| 0u8));
        s
    }

    /// The same, on the heap.
    pub fn new_boxed(rom: [u8; 0x8000]) -> (s: Box<Self>)
        ensures
            s.rom() == rom@,
            s.ram() == Seq::new(RAM_SIZE as nat, |i: int| 0u8),
            s.accesses() == Seq::<AccessLog>::empty(),
    {
        Box::new(Self::new(rom))
    }

    /// The access log, oldest first.
    pub fn log(&self) -> (l: &Vec<AccessLog>)
        ensures
            l@ == self.accesses(),
    {
        &self.log
    }

    /// Reads `address` and logs the read.
    pub fn read_byte(&mut self, address: u16) -> (byte: u8)
        ensures
            byte == read_value(old(self).ram(), old(self).rom(), address),
            final(self).ram() == old(self).ram(),
            final(self).rom() == old(self).rom(),
            final(self).accesses() == old(self).accesses().push(
                AccessLog { kind: AccessKind::Read, address, byte },
            ),
    {
        let byte = if address < 0x4000 {
            self.ram[address as usize]
        } else if address >= ROM_START {
            self.rom[(address - ROM_START) as usize]
        } else {
            OPEN_BUS
        };
        self.log.push(AccessLog { kind: AccessKind::Read, address, byte });
        byte
    }

    /// Writes `byte` at `address` if it is a RAM address, and logs the write;
    /// any other address is left alone and nothing is logged.
    pub fn write_byte(&mut self, address: u16, byte: u8)
        ensures
            final(self).ram() == written_ram(old(self).ram(), address, byte),
            final(self).rom() == old(self).rom(),
            final(self).accesses() == if in_ram(address) {
                old(self).accesses().push(AccessLog { kind: AccessKind::Write, address, byte })
            } else {
                old(self).accesses()
            },
    {
        if address >= 0x4000 {
            return;
        }
        self.log.push(AccessLog { kind: AccessKind::Write, address, byte });
        self.ram[address as usize] = byte;
    }
}

/// The RAM and the ROM of an address space have their full sizes.
pub proof fn lemma_memory_sizes(s: &AddressSpace)
    ensures
        s.ram().len() == RAM_SIZE,
        s.rom().len() == ROM_SIZE,
{
}

/// A read of a RAM address returns the byte last written there, and a
/// write at one address leaves every other address reading as before.
pub proof fn lemma_read_after_write(ram: Seq<u8>, rom: Seq<u8>, a: u16, b: u8, other: u16)
    requires
        ram.len() == RAM_SIZE,
        rom.len() == ROM_SIZE,
    ensures
        in_ram(a) ==> read_value(written_ram(ram, a, b), rom, a) == b,
        other != a ==> read_value(written_ram(ram, a, b), rom, other) == read_value(ram, rom, other),
{
}

/// The ROM and the unmapped gap are read-only: a write there changes nothing.
pub proof fn lemma_rom_is_read_only(ram: Seq<u8>, rom: Seq<u8>, a: u16, b: u8, other: u16)
    requires
        !in_ram(a),
    ensures
        written_ram(ram, a, b) == ram,
        read_value(written_ram(ram, a, b), rom, other) == read_value(ram, rom, other),
{
}

} // verus!
