//! The eight data lines of the parallel port as single pins: a byte is
//! put on them bit `i` on line `i`, and read back the same way.
use vstd::prelude::*;
use crate::io::IoError;

verus! {

/// Marks a pin configured as an input.
pub struct Input;

/// Marks a pin configured as an output.
pub struct Output;

/// A pin the host samples.
pub trait InputPin {
    /// Whether the line is high.
    fn is_high(&self) -> Result<bool, IoError>;

    /// Whether the line is low: the opposite of `is_high`.
    fn is_low(&self) -> (r: Result<bool, IoError>) {
        match self.is_high() {
            Ok(b) => Ok(!b),
            Err(e) => Err(e),
        }
    }
}

/// A pin the host drives.
pub trait OutputPin {
    fn set_high(&mut self) -> Result<(), IoError>;

    fn set_low(&mut self) -> Result<(), IoError>;
}

/// Whether bit `i` of `b` is set.
pub open spec fn bit_set(b: u8, i: u8) -> bool {
    (b >> i) & 1 == 1
}

/// The value `1 << i` when `on`, else 0.
pub open spec fn weight(on: bool, w: u8) -> u8 {
    if on { w } else { 0 }
}

/// The byte whose bit `i` is set exactly when line `i` is high.
pub open spec fn byte_of_levels(l: Seq<bool>) -> u8 {
    (weight(l[0], 1) + weight(l[1], 2) + weight(l[2], 4) + weight(l[3], 8) + weight(l[4], 16)
        + weight(l[5], 32) + weight(l[6], 64) + weight(l[7], 128)) as u8
}

/// The byte on the eight data lines, line `i` giving bit `i`.
pub fn byte_from_levels(levels: &[bool; 8]) -> (out: u8)
    ensures
        out == byte_of_levels(levels@),
{
    let (l0, l1, l2, l3, l4, l5, l6, l7) = (
        levels[0], levels[1], levels[2], levels[3], levels[4], levels[5], levels[6], levels[7],
    );
    let out: u8 = (if l0 { 0b00000001u8 } else { 0 }) | (if l1 { 0b00000010u8 } else { 0 })
        | (if l2 { 0b00000100u8 } else { 0 }) | (if l3 { 0b00001000u8 } else { 0 })
        | (if l4 { 0b00010000u8 } else { 0 }) | (if l5 { 0b00100000u8 } else { 0 })
        | (if l6 { 0b01000000u8 } else { 0 }) | (if l7 { 0b10000000u8 } else { 0 });
    assert(
        out == (weight(l0, 1) + weight(l1, 2) + weight(l2, 4) + weight(l3, 8)
            + weight(l4, 16) + weight(l5, 32) + weight(l6, 64) + weight(l7, 128)) as u8
    ) by (bit_vector)
        requires
            out == (if l0 { 0b00000001u8 } else { 0 }) | (if l1 { 0b00000010u8 } else { 0 })
                | (if l2 { 0b00000100u8 } else { 0 }) | (if l3 { 0b00001000u8 } else { 0 })
                | (if l4 { 0b00010000u8 } else { 0 }) | (if l5 { 0b00100000u8 } else { 0 })
                | (if l6 { 0b01000000u8 } else { 0 }) | (if l7 { 0b10000000u8 } else { 0 }),
    ;
    out
}

/// The levels to drive onto the eight data lines for `byte`: line `i`
/// high exactly when bit `i` is set.
pub fn levels_of_byte(byte: u8) -> (levels: [bool; 8])
    ensures
        forall|i: int| 0 <= i < 8 ==> #[trigger] levels@[i] == bit_set(byte, i as u8),
{
    let levels = [
        byte & 0b00000001 != 0,
        byte & 0b00000010 != 0,
        byte & 0b00000100 != 0,
        byte & 0b00001000 != 0,
        byte & 0b00010000 != 0,
        byte & 0b00100000 != 0,
        byte & 0b01000000 != 0,
        byte & 0b10000000 != 0,
    ];
    assert(
        (byte & 1 != 0) == bit_set(byte, 0) && (byte & 2 != 0) == bit_set(byte, 1)
        && (byte & 4 != 0) == bit_set(byte, 2) && (byte & 8 != 0) == bit_set(byte, 3)
        && (byte & 16 != 0) == bit_set(byte, 4) && (byte & 32 != 0) == bit_set(byte, 5)
        && (byte & 64 != 0) == bit_set(byte, 6) && (byte & 128 != 0) == bit_set(byte, 7)
    ) by (bit_vector);
    assert forall|i: int| 0 <= i < 8 implies #[trigger] levels@[i] == bit_set(byte, i as u8) by {
        if i == 0 {} else if i == 1 {} else if i == 2 {} else if i == 3 {}
        else if i == 4 {} else if i == 5 {} else if i == 6 {} else {}
    }
    levels
}

/// Driving a byte onto the lines and reading the lines back gives the byte.
pub proof fn lemma_levels_roundtrip(byte: u8)
    ensures
        byte_of_levels(Seq::new(8, |i: int| bit_set(byte, i as u8))) == byte,
{
    let l = Seq::new(8, |i: int| bit_set(byte, i as u8));
    assert(
        byte == (weight(bit_set(byte, 0), 1) + weight(bit_set(byte, 1), 2) + weight(bit_set(byte, 2), 4)
            + weight(bit_set(byte, 3), 8) + weight(bit_set(byte, 4), 16) + weight(bit_set(byte, 5), 32)
            + weight(bit_set(byte, 6), 64) + weight(bit_set(byte, 7), 128)) as u8
    ) by (bit_vector);
    assert(l[0] == bit_set(byte, 0) && l[1] == bit_set(byte, 1) && l[2] == bit_set(byte, 2)
        && l[3] == bit_set(byte, 3) && l[4] == bit_set(byte, 4) && l[5] == bit_set(byte, 5)
        && l[6] == bit_set(byte, 6) && l[7] == bit_set(byte, 7));
}

/// Reading eight lines and driving the byte read back onto them restores
/// every line.
pub proof fn lemma_byte_roundtrip(l: Seq<bool>)
    requires
        l.len() == 8,
    ensures
        forall|i: int| 0 <= i < 8 ==> #[trigger] bit_set(byte_of_levels(l), i as u8) == l[i],
{
    let (l0, l1, l2, l3, l4, l5, l6, l7) = (l[0], l[1], l[2], l[3], l[4], l[5], l[6], l[7]);
    let b = byte_of_levels(l);
    assert(b == (weight(l0, 1) + weight(l1, 2) + weight(l2, 4) + weight(l3, 8) + weight(l4, 16)
        + weight(l5, 32) + weight(l6, 64) + weight(l7, 128)) as u8);
    assert(
        b == (weight(l0, 1) + weight(l1, 2) + weight(l2, 4) + weight(l3, 8) + weight(l4, 16)
            + weight(l5, 32) + weight(l6, 64) + weight(l7, 128)) as u8 ==> (bit_set(b, 0) == l0
            && bit_set(b, 1) == l1 && bit_set(b, 2) == l2 && bit_set(b, 3) == l3 && bit_set(b, 4) == l4
            && bit_set(b, 5) == l5 && bit_set(b, 6) == l6 && bit_set(b, 7) == l7)
    ) by (bit_vector);
    assert forall|i: int| 0 <= i < 8 implies #[trigger] bit_set(b, i as u8) == l[i] by {
        if i == 0 {} else if i == 1 {} else if i == 2 {} else if i == 3 {}
        else if i == 4 {} else if i == 5 {} else if i == 6 {} else {}
    }
}

} // verus!
