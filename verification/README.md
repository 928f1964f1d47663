# boot_6502

Host-side library for booting and talking to a 6502 computer, verified with Verus.

- `src/frame.rs`: escaped `(`…`)` framing with a check byte for the UART link, with the
  serialize/deserialize round trip proved.
- `src/payload.rs`: typed messages (echo request/reply) inside frames.
- `src/io.rs`: the command protocol over the parallel port: request layout,
  acknowledgement check, and the driver over user-supplied pin traits, which
  hands back the calls it made so that its result is stated against them.
- `src/gpio.rs`, `src/rpi_pins.rs`: pin levels, the nibble encoding of the
  parallel boot protocol, and the bit layout of the eight data lines.
- `src/parallel.rs`: sending and receiving bytes nibble by nibble over the
  data pins and the handshake pair, with the pin calls of each run stated.
- `src/address_space.rs`, `src/emu.rs`, `src/devices.rs`: models of the 6502
  address space, a bus of pluggable components, and the ROM, RAM and VIA
  devices.
- `app/`: the program around the library (serial port, GPIO character device,
  console, external assembler).
