use boot_6502::gpio::{combine_nibbles, split_byte, GpioError, Nibble, PinRegistry, PinValue};

#[test]
fn test_success() {}

#[test]
fn nibble_rejects_high_bits() {
    match Nibble::try_from(0x10) {
        Err(GpioError::InvalidNibble { value }) => assert_eq!(value, 0x10),
        _ => panic!("0x10 is not a nibble"),
    }
    assert_eq!(Nibble::try_from(0x0F).unwrap().get(), 0x0F);
}

#[test]
fn nibble_pins_roundtrip() {
    let n = Nibble::try_from(0b1010).unwrap();
    let pins = n.to_pins();
    assert_eq!(pins, [PinValue::Low, PinValue::High, PinValue::Low, PinValue::High]);
    assert_eq!(Nibble::from_pins(&pins).get(), 0b1010);
}

#[test]
fn byte_split_combine() {
    let (h, l) = split_byte(0xA7);
    assert_eq!(h.get(), 0x0A);
    assert_eq!(l.get(), 0x07);
    assert_eq!(combine_nibbles(&h, &l), 0xA7);
}

#[test]
fn pin_value_conversions() {
    assert_eq!(PinValue::High.as_u8(), 1);
    assert_eq!(PinValue::Low.as_u8(), 0);
    assert!(PinValue::from_u8(0) == PinValue::Low);
    assert!(PinValue::from_u8(8) == PinValue::High);
}

#[test]
fn registry_refuses_second_claim() {
    let mut r = PinRegistry::new();
    assert!(r.check_free(17).is_ok());
    r.mark_in_use(17);
    match r.check_free(17) {
        Err(GpioError::PinAlreadyInUseError { pin }) => assert_eq!(pin, 17),
        _ => panic!("pin 17 was handed out twice"),
    }
    assert!(r.check_free(18).is_ok());
}

use boot_6502::gpio::{ReadableGpioPin, WritableGpioPin};
use PinValue::{High, Low};
use boot_6502::parallel::{read_byte, read_nibble_data, write_byte, write_nibble_data, WaitForLow};
use std::cell::RefCell;

/// A pin that records what is driven onto it and answers reads from a queue.
struct TestPin {
    id: usize,
    log: std::rc::Rc<RefCell<Vec<String>>>,
    levels: RefCell<Vec<PinValue>>,
    broken: bool,
}

impl TestPin {
    fn new(id: usize, log: &std::rc::Rc<RefCell<Vec<String>>>, levels: Vec<PinValue>) -> TestPin {
        TestPin { id, log: log.clone(), levels: RefCell::new(levels), broken: false }
    }
}

impl WritableGpioPin for TestPin {
    fn write_pin(&self, value: PinValue) -> Result<(), GpioError> {
        if self.broken {
            return Err(GpioError::Device { message: format!("pin {} broken", self.id) });
        }
        let level = if value == PinValue::High { "H" } else { "L" };
        self.log.borrow_mut().push(format!("w{}{}", self.id, level));
        Ok(())
    }
}

impl ReadableGpioPin for TestPin {
    fn read_pin(&self) -> Result<PinValue, GpioError> {
        self.log.borrow_mut().push(format!("r{}", self.id));
        Ok(self.levels.borrow_mut().remove(0))
    }
}

struct Waiter(std::rc::Rc<RefCell<Vec<String>>>);

impl WaitForLow for Waiter {
    fn wait_for_low(&self) {
        self.0.borrow_mut().push("wait".to_string());
    }
}

fn data_pins(log: &std::rc::Rc<RefCell<Vec<String>>>, levels: [Vec<PinValue>; 4]) -> [TestPin; 4] {
    let [a, b, c, d] = levels;
    [TestPin::new(0, log, a), TestPin::new(1, log, b), TestPin::new(2, log, c), TestPin::new(3, log, d)]
}

#[test]
fn nibble_data_is_bit_i_on_pin_i() {

    let log = std::rc::Rc::new(RefCell::new(Vec::new()));
    let pins = data_pins(&log, [vec![High], vec![Low], vec![High], vec![High]]);
    assert_eq!(read_nibble_data(&pins).0.unwrap().get(), 0b1101);
    write_nibble_data(&Nibble::try_from(0b0110).unwrap(), &pins).0.unwrap();
    assert_eq!(*log.borrow(), vec!["r0", "r1", "r2", "r3", "w0L", "w1H", "w2H", "w3L"]);
}

#[test]
fn byte_goes_high_nibble_first() {
    let log = std::rc::Rc::new(RefCell::new(Vec::new()));
    let pins = data_pins(&log, [vec![], vec![], vec![], vec![]]);
    let outgoing = TestPin::new(9, &log, vec![]);
    write_byte(&outgoing, &Waiter(log.clone()), &pins, 0xA5).0.unwrap();
    let expected = vec![
        "w0L", "w1H", "w2L", "w3H", "w9L", "wait", "w9H", // 0xA
        "w0H", "w1L", "w2H", "w3L", "w9L", "wait", "w9H", // 0x5
    ];
    assert_eq!(*log.borrow(), expected);
}

#[test]
fn byte_is_read_high_nibble_first() {

    let log = std::rc::Rc::new(RefCell::new(Vec::new()));
    // 0x3C: high nibble 0b0011, low nibble 0b1100
    let pins = data_pins(&log, [vec![High, Low], vec![High, Low], vec![Low, High], vec![Low, High]]);
    let outgoing = TestPin::new(9, &log, vec![]);
    assert_eq!(read_byte(&outgoing, &Waiter(log.clone()), &pins).0.unwrap(), 0x3C);
    assert_eq!(&log.borrow()[..7], &["w9H", "wait", "r0", "r1", "r2", "r3", "w9L"]);
}

#[test]
fn failed_pin_stops_the_byte() {
    let log = std::rc::Rc::new(RefCell::new(Vec::new()));
    let mut pins = data_pins(&log, [vec![], vec![], vec![], vec![]]);
    pins[2].broken = true;
    let outgoing = TestPin::new(9, &log, vec![]);
    match write_byte(&outgoing, &Waiter(log.clone()), &pins, 0xFF).0 {
        Err(GpioError::Device { message }) => assert_eq!(message, "pin 2 broken"),
        _ => panic!("a broken data pin must fail the send"),
    }
    assert_eq!(*log.borrow(), vec!["w0H", "w1H"]);
}
