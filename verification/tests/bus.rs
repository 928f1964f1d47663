use boot_6502::devices::{Ram, Rom, VIA};
use boot_6502::emu::{highest_interrupt, AccessKind, AccessLog, Component, Components, InterruptPending};

struct Ticker(Option<InterruptPending>);

impl Component for Ticker {
    fn read_byte(&mut self, _address: u16) -> Option<u8> {
        None
    }
    fn write_byte(&mut self, _address: u16, _byte: u8) -> Option<()> {
        None
    }

    fn tick(&mut self, _cycles: usize) -> Option<InterruptPending> {
        self.0
    }
}

fn machine() -> Components {
    let mut rom = [0x55u8; 0x8000];
    rom[0x0000] = 0xA9;
    let parts: Vec<Box<dyn Component>> = vec![
        Box::new(Rom::new(rom)),
        Box::new(Ram::new([0x55; 0x4000])),
        Box::new(VIA::default()),
    ];
    Components::new(parts)
}

#[test]
fn first_claim_wins_and_is_logged() {
    let mut c = machine();
    assert_eq!(c.read_byte(0x8000), 0xA9);
    assert_eq!(c.read_byte(0x0010), 0x55);
    assert_eq!(c.read_byte(0x5000), 0xFF);
    c.write_byte(0x0010, 0xEE);
    assert_eq!(c.read_byte(0x0010), 0xEE);
    assert_eq!(
        c.log().to_vec(),
        vec![
            AccessLog { kind: AccessKind::Read, address: 0x8000, byte: 0xA9 },
            AccessLog { kind: AccessKind::Read, address: 0x0010, byte: 0x55 },
            AccessLog { kind: AccessKind::Read, address: 0x5000, byte: 0xFF },
            AccessLog { kind: AccessKind::Write, address: 0x0010, byte: 0xEE },
            AccessLog { kind: AccessKind::Read, address: 0x0010, byte: 0xEE },
        ]
    );
}

#[test]
fn unclaimed_writes_are_not_logged() {
    let mut c = machine();
    c.write_byte(0x8000, 1);
    c.write_byte(0x5000, 1);
    assert!(c.log().is_empty());
    c.write_byte(0x600B, 0x40);
    assert_eq!(c.read_byte(0x600B), 0x40);
}

#[test]
fn nmi_wins_over_irq() {
    assert_eq!(highest_interrupt(&vec![]), None);
    assert_eq!(highest_interrupt(&vec![InterruptPending::IRQ]), Some(InterruptPending::IRQ));
    assert_eq!(
        highest_interrupt(&vec![InterruptPending::IRQ, InterruptPending::NMI, InterruptPending::IRQ]),
        Some(InterruptPending::NMI)
    );
    let parts: Vec<Box<dyn Component>> = vec![
        Box::new(Ticker(Some(InterruptPending::IRQ))),
        Box::new(Ticker(None)),
        Box::new(Ticker(Some(InterruptPending::NMI))),
    ];
    let mut c = Components::new(parts);
    assert_eq!(c.tick(3), Some(InterruptPending::NMI));
    assert_eq!(machine().tick(3), None);
}

#[test]
fn empty_bus_reads_open() {
    let mut c = Components::new(vec![]);
    assert_eq!(c.read_byte(0x1234), 0xFF);
    c.write_byte(0x1234, 3);
    assert_eq!(c.log().len(), 1);
    assert_eq!(c.tick(1), None);
}

#[test]
fn via_registers() {
    let mut v = VIA::default();
    assert_eq!(v.write_byte(0x6004, 0x34), Some(()));
    assert_eq!(v.write_byte(0x6005, 0x12), Some(()));
    assert_eq!(v.read_byte(0x6005), Some(0x12));
    assert_eq!(v.read_byte(0x6006), Some(0x34));
    assert_eq!(v.t1_zero(), Some(InterruptPending::IRQ));
    assert_eq!(v.read_byte(0x600D), Some(0x40));
    // reading the low counter clears the timer flag
    assert_eq!(v.read_byte(0x6004), Some(0x34));
    assert_eq!(v.read_byte(0x600D), Some(0x00));
    assert_eq!(v.read_byte(0x6010), None);
    assert_eq!(v.write_byte(0x5FFF, 1), None);
    v.set_ifr(1);
    assert_eq!(v.ifr, 0x02);
    v.reset_ifr(1);
    assert_eq!(v.ifr, 0x00);
}

#[test]
fn t1_zero_reloads_in_continuous_mode() {
    let mut v = VIA::default();
    v.t1l_l = 0x11;
    v.t1l_h = 0x22;
    v.t1_zero();
    assert_eq!((v.t1c_l, v.t1c_h), (0, 0));
    v.acr = 0x40;
    v.t1_zero();
    assert_eq!((v.t1c_l, v.t1c_h), (0x11, 0x22));
}

#[test]
fn t1_zero_leaves_other_registers() {
    let mut v = VIA::default();
    v.rb = 7;
    v.sr = 9;
    v.t1_zero();
    assert_eq!((v.rb, v.sr, v.ifr), (7, 9, 0x40));
}

#[test]
fn tick_ignores_device_order() {
    let forward: Vec<Box<dyn Component>> = vec![
        Box::new(Ticker(Some(InterruptPending::NMI))),
        Box::new(Ticker(Some(InterruptPending::IRQ))),
        Box::new(Ticker(None)),
    ];
    let backward: Vec<Box<dyn Component>> = vec![
        Box::new(Ticker(None)),
        Box::new(Ticker(Some(InterruptPending::IRQ))),
        Box::new(Ticker(Some(InterruptPending::NMI))),
    ];
    assert_eq!(Components::new(forward).tick(5), Components::new(backward).tick(5));
    let only_irq: Vec<Box<dyn Component>> = vec![Box::new(Ticker(None)), Box::new(Ticker(Some(InterruptPending::IRQ)))];
    assert_eq!(Components::new(only_irq).tick(1), Some(InterruptPending::IRQ));
}

#[test]
fn later_devices_are_not_asked() {
    // a second RAM behind the first never sees the write
    let parts: Vec<Box<dyn Component>> = vec![
        Box::new(Ram::new([0x00; 0x4000])),
        Box::new(Ram::new([0x77; 0x4000])),
    ];
    let mut c = Components::new(parts);
    c.write_byte(0x0001, 0x42);
    assert_eq!(c.read_byte(0x0001), 0x42);
    assert_eq!(c.read_byte(0x0002), 0x00);
}
