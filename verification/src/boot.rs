//! The boot loader's view of the link: a byte-wise protocol, and what it
//! sends for each line typed at the console.
use vstd::prelude::*;
use crate::gpio::GpioError;

verus! {

/// Marker byte sent before every console line.
pub const LINE_MARKER: u8 = 0xFF;

/// A byte-wise link to the 6502.
pub trait Protocol {
    fn send(&self, byte: u8) -> Result<(), GpioError>;
    fn receive(&self) -> Result<u8, GpioError>;
}

/// The bytes sent for one console line: the marker, then the line's bytes.
pub fn line_bytes(line: &[u8]) -> (out: Vec<u8>)
    ensures
        out@ == seq![LINE_MARKER] + line@,
{
    let mut out: Vec<u8> = Vec::new();
    out.push(LINE_MARKER);
    let n = line.len();
    for i in 0..n
        invariant
            n == line@.len(),
            out@ == seq![LINE_MARKER] + line@.take(i as int),
    {
        out.push(line[i]);
        assert(line@.take(i + 1) =~= line@.take(i as int).push(line@[i as int]));
    }
    assert(line@.take(n as int) =~= line@);
    out
}

} // verus!
