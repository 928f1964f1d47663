use boot_6502::address_space::{AccessKind, AccessLog, AddressSpace};

fn rom_image() -> [u8; 0x8000] {
    let mut rom = [0x55; 0x8000];
    rom[0x7FFC] = 0x00;
    rom[0x7FFD] = 0x80;
    rom[0x0000] = 0xA9;
    rom[0x0001] = 0xEE;
    rom
}

#[test]
fn reads_hit_ram_rom_and_open_bus() {
    let mut space = AddressSpace::new(rom_image());
    assert_eq!(space.read_byte(0x0001), 0x00);
    assert_eq!(space.read_byte(0x8001), 0xEE);
    assert_eq!(space.read_byte(0xFFFD), 0x80);
    assert_eq!(space.read_byte(0x6000), 0xFF);
    assert_eq!(space.log().len(), 4);
    assert_eq!(space.log()[3], AccessLog { kind: AccessKind::Read, address: 0x6000, byte: 0xFF });
}

#[test]
fn read_after_write() {
    let mut space = AddressSpace::new_boxed(rom_image());
    space.write_byte(0x0001, 0xEE);
    let b = space.read_byte(0x0001);
    assert_eq!(b, 0xEE);
    assert_eq!(
        space.log().last().unwrap(),
        &AccessLog { kind: AccessKind::Read, address: 0x0001, byte: 0xEE }
    );
    assert_eq!(space.log()[0], AccessLog { kind: AccessKind::Write, address: 0x0001, byte: 0xEE });
}

#[test]
fn rom_and_gap_ignore_writes() {
    let mut space = AddressSpace::new(rom_image());
    space.write_byte(0x8000, 0x12);
    space.write_byte(0x5000, 0x12);
    assert!(space.log().is_empty());
    assert_eq!(space.read_byte(0x8000), 0xA9);
    assert_eq!(space.read_byte(0x5000), 0xFF);
    space.write_byte(0x3FFF, 0x34);
    assert_eq!(space.read_byte(0x3FFF), 0x34);
}
