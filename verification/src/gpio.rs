//! GPIO pin levels, and the nibble encoding of the parallel boot protocol:
//! a byte travels as two nibbles, high nibble first, each on four data pins
//! with bit `i` on pin `i`.
use vstd::prelude::*;

verus! {

/// Errors of the GPIO layer.
#[derive(Debug)]
pub enum GpioError {
    /// A value with bits above the low four cannot be sent as a nibble.
    InvalidNibble { value: u8 },
    /// The pin is already handed out.
    PinAlreadyInUseError { pin: u32 },
    /// A failure reported by the GPIO device.
    Device { message: String },
}

/// The level of a pin.
#[derive(Debug, Copy, Clone, PartialEq, Eq, Structural)]
pub enum PinValue {
    High,
    Low,
}

impl PinValue {
    /// 1 for high, 0 for low.
    pub open spec fn spec_as_u8(self) -> u8 {
        if self == PinValue::High { 1 } else { 0 }
    }

    /// Any nonzero value is high; 0 is low.
    pub open spec fn spec_from_u8(u: u8) -> PinValue {
        if u == 0 { PinValue::Low } else { PinValue::High }
    }

    /// 1 for high, 0 for low.
    pub fn as_u8(&self) -> (r: u8)
        ensures
            r == self.spec_as_u8(),
    {
        if *self == PinValue::High {
            1
        } else {
            0
        }
    }

    /// Any nonzero value is high; 0 is low.
    pub fn from_u8(u: u8) -> (r: PinValue)
        ensures
            r == PinValue::spec_from_u8(u),
    {
        if u == 0 {
            PinValue::Low
        } else {
            PinValue::High
        }
    }
}

/// A pin the host drives.
pub trait WritableGpioPin {
    fn write_pin(&self, value: PinValue) -> Result<(), GpioError>;
}

/// A pin the host samples.
pub trait ReadableGpioPin {
    fn read_pin(&self) -> Result<PinValue, GpioError>;
}

/// Whether a poll of the incoming handshake line ends the wait: only a
/// successful read of a low level does; a high level or a failed read
/// means polling goes on.
pub fn handshake_seen(poll: &Result<PinValue, GpioError>) -> (r: bool)
    ensures
        r == (poll matches Ok(PinValue::Low)),
{
    match poll {
        Ok(PinValue::Low) => true,
        _ => false,
    }
}

/// Four bits, sent on four data pins.
pub struct Nibble(u8);

/// Bit `i` of `v` as a pin level.
pub open spec fn bit_level(v: u8, i: u8) -> PinValue {
    PinValue::spec_from_u8(v & (1u8 << i))
}

impl Nibble {
    /// The value of the nibble, below 16.
    pub closed spec fn value(&self) -> u8 {
        self.0
    }

    #[verifier::type_invariant]
    closed spec fn below_sixteen(&self) -> bool {
        self.0 < 16
    }

    /// Accepts `value` if only its low four bits are set.
    pub fn try_from(value: u8) -> (r: Result<Nibble, GpioError>)
        ensures
            match r {
                Ok(n) => value < 16 && n.value() == value,
                Err(e) => value >= 16 && e == (GpioError::InvalidNibble { value }),
            },
    {
        assert(value & 0xF0 == 0 <==> value < 16) by (bit_vector);
        if value & 0xF0 != 0 {
            Err(GpioError::InvalidNibble { value })
        } else {
            Ok(Nibble(value))
        }
    }

    /// The value of the nibble.
    pub fn get(&self) -> (v: u8)
        ensures
            v == self.value(),
            v < 16,
    {
        proof {
            use_type_invariant(self);
        }
        self.0
    }

    /// The nibble read off four pins, pin `i` giving bit `i`.
    pub fn from_pins(value: &[PinValue; 4]) -> (n: Nibble)
        ensures
            n.value() == value[0].spec_as_u8() + 2 * value[1].spec_as_u8() + 4 * value[2].spec_as_u8()
                + 8 * value[3].spec_as_u8(),
    {
        let b0 = value[0].as_u8();
        let b1 = value[1].as_u8();
        let b2 = value[2].as_u8();
        let b3 = value[3].as_u8();
        assert(b0 <= 1 && b1 <= 1 && b2 <= 1 && b3 <= 1 ==> (b0 | (b1 << 1u8) | (b2 << 2u8) | (b3 << 3u8))
            == b0 + 2 * b1 + 4 * b2 + 8 * b3) by (bit_vector);
        Nibble(b0 | (b1 << 1) | (b2 << 2) | (b3 << 3))
    }

    /// The levels of the four pins that carry the nibble, pin `i` carrying bit `i`.
    pub fn to_pins(&self) -> (p: [PinValue; 4])
        ensures
            p@ == seq![
                bit_level(self.value(), 0),
                bit_level(self.value(), 1),
                bit_level(self.value(), 2),
                bit_level(self.value(), 3),
            ],
    {
        let p = [
            PinValue::from_u8(self.0 & (1 << 0)),
            PinValue::from_u8(self.0 & (1 << 1)),
            PinValue::from_u8(self.0 & (1 << 2)),
            PinValue::from_u8(self.0 & (1 << 3)),
        ];
        assert(p@ =~= seq![
            bit_level(self.value(), 0),
            bit_level(self.value(), 1),
            bit_level(self.value(), 2),
            bit_level(self.value(), 3),
        ]);
        p
    }
}

/// The byte made of a high and a low nibble.
pub fn combine_nibbles(high: &Nibble, low: &Nibble) -> (b: u8)
    ensures
        b == 16 * high.value() + low.value(),
{
    let h = high.get();
    let l = low.get();
    assert(h < 16 && l < 16 ==> (h << 4u8) | l == 16 * h + l) by (bit_vector);
    (h << 4) | l
}

/// A byte split into its high and low nibble.
pub fn split_byte(byte: u8) -> (r: (Nibble, Nibble))
    ensures
        r.0.value() == byte / 16,
        r.1.value() == byte % 16,
{
    assert(byte >> 4u8 == byte / 16 && byte & 0xF == byte % 16) by (bit_vector);
    let high = Nibble(byte >> 4);
    let low = Nibble(byte & 0xF);
    (high, low)
}

/// The GPIO lines of a chip that are already handed out; a line is handed
/// out at most once.
pub struct PinRegistry {
    in_use_pins: Vec<u32>,
}

impl PinRegistry {
    /// The lines handed out so far.
    pub closed spec fn in_use(&self) -> Set<u32> {
        self.in_use_pins@.to_set()
    }

    /// No line handed out yet.
    pub fn new() -> (r: Self)
        ensures
            r.in_use() == Set::<u32>::empty(),
    {
        let r = PinRegistry { in_use_pins: Vec::with_capacity(8) };
        assert(r.in_use() =~= Set::<u32>::empty());
        r
    }

    /// Whether `pin` is already handed out.
    pub fn contains(&self, pin: u32) -> (r: bool)
        ensures
            r == self.in_use().contains(pin),
    {
        let n = self.in_use_pins.len();
        for i in 0..n
            invariant
                n == self.in_use_pins@.len(),
                forall|j: int| 0 <= j < i ==> self.in_use_pins@[j] != pin,
        {
            if self.in_use_pins[i] == pin {
                assert(self.in_use_pins@.contains(pin));
                return true;
            }
        }
        assert(!self.in_use_pins@.contains(pin));
        false
    }

    /// Refuses a line that is already handed out.
    pub fn check_free(&self, pin: u32) -> (r: Result<(), GpioError>)
        ensures
            match r {
                Ok(()) => !self.in_use().contains(pin),
                Err(e) => self.in_use().contains(pin) && e == (GpioError::PinAlreadyInUseError { pin }),
            },
    {
        if self.contains(pin) {
            Err(GpioError::PinAlreadyInUseError { pin })
        } else {
            Ok(())
        }
    }

    /// Records that `pin` has been handed out.
    pub fn mark_in_use(&mut self, pin: u32)
        ensures
            final(self).in_use() == old(self).in_use().insert(pin),
    {
        self.in_use_pins.push(pin);
        assert(final(self).in_use() =~= old(self).in_use().insert(pin)) by {
            broadcast use vstd::seq_lib::group_seq_properties;
        }
    }
}

/// A high pin counts as 1 and a low pin as 0; any nonzero value is high.
pub proof fn lemma_pin_levels(u: u8)
    ensures
        PinValue::High.spec_as_u8() == 1,
        PinValue::Low.spec_as_u8() == 0,
        PinValue::spec_from_u8(u) == (if u == 0 { PinValue::Low } else { PinValue::High }),
{
}

/// Carrying a nibble on pins and reading it back gives the same nibble.
pub proof fn lemma_nibble_pins_roundtrip(v: u8)
    requires
        v < 16,
    ensures
        bit_level(v, 0).spec_as_u8() + 2 * bit_level(v, 1).spec_as_u8() + 4 * bit_level(v, 2).spec_as_u8()
            + 8 * bit_level(v, 3).spec_as_u8() == v,
{
    assert(v < 16 ==> v == ((if v & 1u8 == 0 { 0u8 } else { 1u8 }) + 2 * (if v & 2u8 == 0 { 0u8 } else { 1u8 })
        + 4 * (if v & 4u8 == 0 { 0u8 } else { 1u8 }) + 8 * (if v & 8u8 == 0 { 0u8 } else { 1u8 }))) by (bit_vector);
    assert(1u8 << 0u8 == 1u8 && 1u8 << 1u8 == 2u8 && 1u8 << 2u8 == 4u8 && 1u8 << 3u8 == 8u8) by (bit_vector);
}

/// Splitting a byte into nibbles and joining them again gives the byte.
pub proof fn lemma_split_combine(byte: u8)
    ensures
        16 * (byte / 16) + byte % 16 == byte,
{
}

} // verus!
