//! Devices for the component bus: a ROM at `0x8000`, a RAM at `0x0000`,
//! and the register file of the 6522 VIA at `0x6000`.
use vstd::prelude::*;
use crate::emu::{Component, InterruptPending};

verus! {

/// 32 KiB of ROM answering at `0x8000..=0xFFFF`.
pub struct Rom {
    rom: [u8; 0x8000],
}

impl Rom {
    /// The ROM contents.
    pub closed spec fn contents(&self) -> Seq<u8> {
        self.rom@
    }

    pub fn new(rom: [u8; 0x8000]) -> (r: Self)
        ensures
            r.contents() == rom@,
    {
        Rom { rom }
    }
}

impl Component for Rom {
    open spec fn obeys_component_spec(&self) -> bool {
        true
    }

    open spec fn state(&self) -> Seq<u8> {
        self.contents()
    }

    open spec fn spec_read(&self, address: u16) -> Option<u8> {
        if address >= 0x8000 { Some(self.contents()[address - 0x8000]) } else { None }
    }

    open spec fn state_after_read(&self, address: u16) -> Seq<u8> {
        self.contents()
    }

    open spec fn spec_claims_write(&self, address: u16) -> bool {
        false
    }

    open spec fn state_after_write(&self, address: u16, byte: u8) -> Seq<u8> {
        self.contents()
    }

    open spec fn read_after_write(&self, address: u16, byte: u8, at: u16) -> Option<u8> {
        self.spec_read(at)
    }

    open spec fn spec_tick(&self, cycles: usize) -> Option<InterruptPending> {
        None
    }

    open spec fn state_after_tick(&self, cycles: usize) -> Seq<u8> {
        self.contents()
    }

    fn read_byte(&mut self, address: u16) -> (r: Option<u8>)
        ensures
            r == if address >= 0x8000 { Some(old(self).contents()[address - 0x8000]) } else { None::<u8> },
            final(self).contents() == old(self).contents(),
    {
        if address >= 0x8000 {
            Some(self.rom[(address - 0x8000) as usize])
        } else {
            None
        }
    }

    fn write_byte(&mut self, _address: u16, _byte: u8) -> (r: Option<()>)
        ensures
            r is None,
            final(self).contents() == old(self).contents(),
    {
        None
    }

    /// A ROM raises no interrupt.
    fn tick(&mut self, _cycles: usize) -> (r: Option<InterruptPending>)
        ensures
            r is None,
            final(self).contents() == old(self).contents(),
    {
        None
    }
}

/// 16 KiB of RAM answering at `0x0000..=0x3FFF`.
pub struct Ram {
    ram: [u8; 0x4000],
}

impl Ram {
    /// The RAM contents.
    pub closed spec fn contents(&self) -> Seq<u8> {
        self.ram@
    }

    pub fn new(ram: [u8; 0x4000]) -> (r: Self)
        ensures
            r.contents() == ram@,
    {
        Ram { ram }
    }
}

impl Component for Ram {
    open spec fn obeys_component_spec(&self) -> bool {
        true
    }

    open spec fn state(&self) -> Seq<u8> {
        self.contents()
    }

    open spec fn spec_read(&self, address: u16) -> Option<u8> {
        if address < 0x4000 { Some(self.contents()[address as int]) } else { None }
    }

    open spec fn state_after_read(&self, address: u16) -> Seq<u8> {
        self.contents()
    }

    open spec fn spec_claims_write(&self, address: u16) -> bool {
        address < 0x4000
    }

    open spec fn state_after_write(&self, address: u16, byte: u8) -> Seq<u8> {
        if address < 0x4000 { self.contents().update(address as int, byte) } else { self.contents() }
    }

    open spec fn read_after_write(&self, address: u16, byte: u8, at: u16) -> Option<u8> {
        if at == address && address < 0x4000 { Some(byte) } else { self.spec_read(at) }
    }

    open spec fn spec_tick(&self, cycles: usize) -> Option<InterruptPending> {
        None
    }

    open spec fn state_after_tick(&self, cycles: usize) -> Seq<u8> {
        self.contents()
    }

    fn read_byte(&mut self, address: u16) -> (r: Option<u8>)
        ensures
            r == if address < 0x4000 { Some(old(self).contents()[address as int]) } else { None::<u8> },
            final(self).contents() == old(self).contents(),
    {
        if address < 0x4000 {
            Some(self.ram[address as usize])
        } else {
            None
        }
    }

    fn write_byte(&mut self, address: u16, byte: u8) -> (r: Option<()>)
        ensures
            r == if address < 0x4000 { Some(()) } else { None::<()> },
            final(self).contents() == if address < 0x4000 {
                old(self).contents().update(address as int, byte)
            } else {
                old(self).contents()
            },
    {
        if address < 0x4000 {
            self.ram[address as usize] = byte;
            Some(())
        } else {
            None
        }
    }

    /// A RAM raises no interrupt.
    fn tick(&mut self, _cycles: usize) -> (r: Option<InterruptPending>)
        ensures
            r is None,
            final(self).contents() == old(self).contents(),
    {
        None
    }
}

/// Interrupt flag bit of timer 1.
pub const T1_FLAG_BIT: u8 = 6;

/// Auxiliary control bit that makes timer 1 reload from its latches.
pub const T1_CONTINUOUS: u8 = 0x40;

/// The register file of the 6522 VIA.
#[derive(Debug, Copy, Clone)]
pub struct VIA {
    pub rb: u8,
    pub ra: u8,
    pub ddrb: u8,
    pub ddra: u8,
    pub t1c_l: u8,
    pub t1c_h: u8,
    pub t1l_l: u8,
    pub t1l_h: u8,
    pub t2c_l: u8,
    pub t2c_h: u8,
    pub sr: u8,
    pub acr: u8,
    pub pcr: u8,
    pub ifr: u8,
    pub ier: u8,
    pub ra_no_handshake: u8,
}

/// Whether `address` is one of the sixteen VIA registers.
pub open spec fn is_via_register(address: u16) -> bool {
    0x6000 <= address <= 0x600F
}

/// The interrupt flags with the timer 1 flag cleared.
pub open spec fn t1_flag_cleared(ifr: u8) -> u8 {
    ifr & 0xBF
}

/// The sixteen registers, in address order.
pub open spec fn via_registers(v: VIA) -> Seq<u8> {
    seq![
        v.rb, v.ra, v.ddrb, v.ddra, v.t1c_l, v.t1c_h, v.t1l_l, v.t1l_h,
        v.t2c_l, v.t2c_h, v.sr, v.acr, v.pcr, v.ifr, v.ier, v.ra_no_handshake,
    ]
}

/// What reading a VIA register returns.
pub open spec fn via_read(v: VIA, address: u16) -> Option<u8> {
    if address == 0x6000 { Some(v.rb) }
    else if address == 0x6001 { Some(v.ra) }
    else if address == 0x6002 { Some(v.ddrb) }
    else if address == 0x6003 { Some(v.ddra) }
    else if address == 0x6004 { Some(v.t1c_l) }
    else if address == 0x6005 { Some(v.t1c_h) }
    else if address == 0x6006 { Some(v.t1l_l) }
    else if address == 0x6007 { Some(v.t1l_h) }
    else if address == 0x6008 { Some(v.t2c_l) }
    else if address == 0x6009 { Some(v.t2c_h) }
    else if address == 0x600A { Some(v.sr) }
    else if address == 0x600B { Some(v.acr) }
    else if address == 0x600C { Some(v.pcr) }
    else if address == 0x600D { Some(v.ifr) }
    else if address == 0x600E { Some(v.ier) }
    else if address == 0x600F { Some(v.ra_no_handshake) }
    else { None }
}

/// The registers after a read: reading the timer 1 low counter clears the
/// timer 1 interrupt flag; every other read leaves them as they were.
pub open spec fn via_after_read(v: VIA, address: u16) -> VIA {
    if address == 0x6004 {
        VIA { ifr: t1_flag_cleared(v.ifr), ..v }
    } else {
        v
    }
}

/// The registers after writing `b` at `address`.
pub open spec fn via_after_write(v: VIA, address: u16, b: u8) -> VIA {
    if address == 0x6000 { VIA { rb: b, ..v } }
    else if address == 0x6001 { VIA { ra: b, ..v } }
    else if address == 0x6002 { VIA { ddrb: b, ..v } }
    else if address == 0x6003 { VIA { ddra: b, ..v } }
    else if address == 0x6004 { VIA { t1l_l: b, ..v } }
    else if address == 0x6005 {
        // writing the high latch loads the counter and clears the flag
        VIA { t1l_h: b, t1c_l: v.t1l_l, t1c_h: b, ifr: t1_flag_cleared(v.ifr), ..v }
    }
    else if address == 0x6006 { VIA { t1l_l: b, ..v } }
    else if address == 0x6007 { VIA { t1l_h: b, ifr: t1_flag_cleared(v.ifr), ..v } }
    else if address == 0x6008 { VIA { t2c_l: b, ..v } }
    else if address == 0x6009 { VIA { t2c_h: b, ..v } }
    else if address == 0x600A { VIA { sr: b, ..v } }
    else if address == 0x600B { VIA { acr: b, ..v } }
    else if address == 0x600C { VIA { pcr: b, ..v } }
    else if address == 0x600D { VIA { ifr: b, ..v } }
    else if address == 0x600E { VIA { ier: b, ..v } }
    else if address == 0x600F { VIA { ra_no_handshake: b, ..v } }
    else { v }
}

/// Each of the sixteen registers reads as its place in the register file:
/// address `0x6000 + i` reads register `i`, and no other address is a register.
pub proof fn lemma_via_read_registers(v: VIA, address: u16)
    ensures
        0x6000 <= address <= 0x600F ==> via_read(v, address) == Some(via_registers(v)[address - 0x6000]),
        !(0x6000 <= address <= 0x600F) ==> via_read(v, address) is None,
{
}

/// A register reads back what was written to it, except the timer 1 low
/// register (`0x6004`), whose write goes to the latch while its read gives
/// the counter.
pub proof fn lemma_via_write_read_back(v: VIA, address: u16, b: u8)
    requires
        0x6000 <= address <= 0x600F,
        address != 0x6004,
    ensures
        via_read(via_after_write(v, address, b), address) == Some(b),
{
}

/// A write leaves every other register as it was, apart from the timer 1
/// registers (`0x6004..=0x6007`, which share the latches and counter) and
/// the interrupt flags (`0x600D`), which a timer write also touches.
pub proof fn lemma_via_write_keeps_others(v: VIA, address: u16, other: u16, b: u8)
    requires
        address != other,
        !(0x6004 <= other <= 0x6007),
        other != 0x600D,
    ensures
        via_read(via_after_write(v, address, b), other) == via_read(v, other),
{
}

/// Reading the timer 1 low counter (`0x6004`) clears the timer 1 flag (bit
/// 6 of the interrupt flags); every other read leaves the registers alone.
pub proof fn lemma_via_read_effects(v: VIA, address: u16)
    ensures
        address == 0x6004 ==> via_after_read(v, address) == (VIA { ifr: v.ifr & 0xBF, ..v }),
        address != 0x6004 ==> via_after_read(v, address) == v,
{
}

impl Default for VIA {
    fn default() -> (v: Self)
        ensures
            v == (VIA {
                rb: 0, ra: 0, ddrb: 0, ddra: 0, t1c_l: 0, t1c_h: 0, t1l_l: 0, t1l_h: 0,
                t2c_l: 0, t2c_h: 0, sr: 0, acr: 0, pcr: 0, ifr: 0, ier: 0, ra_no_handshake: 0,
            }),
    {
        VIA {
            rb: 0, ra: 0, ddrb: 0, ddra: 0, t1c_l: 0, t1c_h: 0, t1l_l: 0, t1l_h: 0,
            t2c_l: 0, t2c_h: 0, sr: 0, acr: 0, pcr: 0, ifr: 0, ier: 0, ra_no_handshake: 0,
        }
    }
}

impl VIA {
    /// Raises interrupt flag `bit`.
    pub fn set_ifr(&mut self, bit: u8)
        requires
            bit < 8,
        ensures
            *final(self) == (VIA { ifr: (old(self).ifr | (1u8 << bit)) as u8, ..*old(self) }),
    {
        self.ifr = self.ifr | (1u8 << bit);
    }

    /// Clears interrupt flag `bit`.
    pub fn reset_ifr(&mut self, bit: u8)
        requires
            bit < 8,
        ensures
            *final(self) == (VIA { ifr: (old(self).ifr & !(1u8 << bit)) as u8, ..*old(self) }),
    {
        self.ifr = self.ifr & !(1u8 << bit);
    }

    /// Timer 1 reached zero: raises its flag, reloads the counter from the
    /// latches in continuous mode, and requests an IRQ (the flag just raised
    /// makes the request unconditional).
    pub fn t1_zero(&mut self) -> (r: Option<InterruptPending>)
        ensures
            *final(self) == (VIA {
                ifr: (old(self).ifr | 0x40) as u8,
                t1c_l: if old(self).acr & T1_CONTINUOUS > 0 { old(self).t1l_l } else { old(self).t1c_l },
                t1c_h: if old(self).acr & T1_CONTINUOUS > 0 { old(self).t1l_h } else { old(self).t1c_h },
                ..*old(self)
            }),
            r == Some(InterruptPending::IRQ),
    {
        let g = self.ifr;
        self.set_ifr(T1_FLAG_BIT);
        assert(1u8 << 6u8 == 0x40) by (bit_vector);
        assert((g | 0x40u8) > 0) by (bit_vector);
        if self.acr & T1_CONTINUOUS > 0 {
            self.t1c_l = self.t1l_l;
            self.t1c_h = self.t1l_h;
        }
        let e = self.ier;
        let f = self.ifr;
        assert(f > 0 ==> (e | f) > 0) by (bit_vector);
        if (self.ier | self.ifr) > 0 {
            Some(InterruptPending::IRQ)
        } else {
            None
        }
    }
}

impl Component for VIA {
    open spec fn obeys_component_spec(&self) -> bool {
        true
    }

    open spec fn state(&self) -> Seq<u8> {
        via_registers(*self)
    }

    open spec fn spec_read(&self, address: u16) -> Option<u8> {
        via_read(*self, address)
    }

    open spec fn state_after_read(&self, address: u16) -> Seq<u8> {
        via_registers(via_after_read(*self, address))
    }

    open spec fn spec_claims_write(&self, address: u16) -> bool {
        is_via_register(address)
    }

    open spec fn state_after_write(&self, address: u16, byte: u8) -> Seq<u8> {
        via_registers(via_after_write(*self, address, byte))
    }

    open spec fn read_after_write(&self, address: u16, byte: u8, at: u16) -> Option<u8> {
        via_read(via_after_write(*self, address, byte), at)
    }

    open spec fn spec_tick(&self, cycles: usize) -> Option<InterruptPending> {
        None
    }

    open spec fn state_after_tick(&self, cycles: usize) -> Seq<u8> {
        via_registers(*self)
    }

    fn read_byte(&mut self, address: u16) -> (r: Option<u8>)
        ensures
            r == via_read(*old(self), address),
            *final(self) == via_after_read(*old(self), address),
    {
        let f = self.ifr;
        assert(f & !(1u8 << 6u8) == f & 0xBF) by (bit_vector);
        let r = if address == 0x6000 { Some(self.rb) }
        else if address == 0x6001 { Some(self.ra) }
        else if address == 0x6002 { Some(self.ddrb) }
        else if address == 0x6003 { Some(self.ddra) }
        else if address == 0x6004 {
            self.reset_ifr(T1_FLAG_BIT);
            Some(self.t1c_l)
        }
        else if address == 0x6005 { Some(self.t1c_h) }
        else if address == 0x6006 { Some(self.t1l_l) }
        else if address == 0x6007 { Some(self.t1l_h) }
        else if address == 0x6008 { Some(self.t2c_l) }
        else if address == 0x6009 { Some(self.t2c_h) }
        else if address == 0x600A { Some(self.sr) }
        else if address == 0x600B { Some(self.acr) }
        else if address == 0x600C { Some(self.pcr) }
        else if address == 0x600D { Some(self.ifr) }
        else if address == 0x600E { Some(self.ier) }
        else if address == 0x600F { Some(self.ra_no_handshake) }
        else { None };
        r
    }

    fn write_byte(&mut self, address: u16, byte: u8) -> (r: Option<()>)
        ensures
            r == if is_via_register(address) { Some(()) } else { None::<()> },
            *final(self) == via_after_write(*old(self), address, byte),
    {
        let f = self.ifr;
        assert(f & !(1u8 << 6u8) == f & 0xBF) by (bit_vector);
        if address == 0x6000 { self.rb = byte; Some(()) }
        else if address == 0x6001 { self.ra = byte; Some(()) }
        else if address == 0x6002 { self.ddrb = byte; Some(()) }
        else if address == 0x6003 { self.ddra = byte; Some(()) }
        else if address == 0x6004 { self.t1l_l = byte; Some(()) }
        else if address == 0x6005 {
            self.t1l_h = byte;
            self.t1c_l = self.t1l_l;
            self.t1c_h = self.t1l_h;
            self.reset_ifr(T1_FLAG_BIT);
            Some(())
        }
        else if address == 0x6006 { self.t1l_l = byte; Some(()) }
        else if address == 0x6007 {
            self.reset_ifr(T1_FLAG_BIT);
            self.t1l_h = byte;
            Some(())
        }
        else if address == 0x6008 { self.t2c_l = byte; Some(()) }
        else if address == 0x6009 { self.t2c_h = byte; Some(()) }
        else if address == 0x600A { self.sr = byte; Some(()) }
        else if address == 0x600B { self.acr = byte; Some(()) }
        else if address == 0x600C { self.pcr = byte; Some(()) }
        else if address == 0x600D { self.ifr = byte; Some(()) }
        else if address == 0x600E { self.ier = byte; Some(()) }
        else if address == 0x600F { self.ra_no_handshake = byte; Some(()) }
        else { None }
    }

    /// The timer is not advanced by ticks; no interrupt is raised.
    fn tick(&mut self, _cycles: usize) -> (r: Option<InterruptPending>)
        ensures
            r is None,
            *final(self) == *old(self),
    {
        None
    }
}

} // verus!
