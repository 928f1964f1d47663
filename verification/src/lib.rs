//! Host side of the 6502 boot link: wire framing, the byte-level command
//! protocol, the parallel nibble protocol, and models of the 6502 address
//! space and its peripherals.
pub mod frame;
pub mod payload;
pub mod io;
pub mod address_space;
pub mod emu;
pub mod devices;
pub mod gpio;
pub mod parallel;
pub mod rpi_pins;
pub mod boot;
