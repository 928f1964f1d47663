use boot_6502::io::{
    AdjustedLength, Command, DelayMs, IoError, LengthLimitedSlice, MutableLengthLimitedSlice, Pins,
    ReadByte, SendByte, WithHandshake,
};
use std::cell::RefCell;
use std::collections::VecDeque;
use std::rc::Rc;

#[test]
fn length_limits() {
    assert!(matches!(AdjustedLength::new(0), Err(IoError::TooLong { length: 0 })));
    assert!(matches!(AdjustedLength::new(257), Err(IoError::TooLong { length: 257 })));
    assert!(AdjustedLength::new(1).is_ok());
    assert!(AdjustedLength::new(256).is_ok());
    let empty: [u8; 0] = [];
    assert!(matches!(LengthLimitedSlice::new(&empty), Err(IoError::TooLong { length: 0 })));
    let mut big = [0u8; 300];
    assert!(matches!(MutableLengthLimitedSlice::new(&mut big), Err(IoError::TooLong { length: 300 })));
}

#[test]
fn request_encoding() {
    let data = [0xAA, 0xBB];
    let write = Command::WriteData { address: 0x1234, data: LengthLimitedSlice::new(&data).unwrap() };
    assert_eq!(write.request_bytes(), vec![0x01, 0x34, 0x12, 0x02, 0xAA, 0xBB]);
    assert_eq!(write.address(), Some(0x1234));

    let text = "S... ".as_bytes();
    let display = Command::DisplayString { data: LengthLimitedSlice::new(text).unwrap() };
    assert_eq!(display.request_bytes(), vec![0x00, 0x05, b'S', b'.', b'.', b'.', b' ']);
    assert_eq!(display.address(), None);

    let jsr = Command::JSR { address: 0x0301 };
    assert_eq!(jsr.request_bytes(), vec![0x03, 0x01, 0x03]);

    let mut buf = [0u8; 256];
    let read = Command::ReadData { address: 0x0300, out_buffer: MutableLengthLimitedSlice::new(&mut buf).unwrap() };
    // a length of 256 is sent as 0
    assert_eq!(read.request_bytes(), vec![0x02, 0x00, 0x03, 0x00]);
}

#[test]
fn acknowledgement_check() {
    let jsr = Command::JSR { address: 0x0301 };
    assert!(jsr.check_ack(0x01).is_ok());
    assert!(matches!(jsr.check_ack(0x02), Err(IoError::ReceivedUnexpectedbyte { expected: 0x01, found: 0x02 })));
    let mut buf = [0u8; 1];
    let read = Command::ReadData { address: 0, out_buffer: MutableLengthLimitedSlice::new(&mut buf).unwrap() };
    assert!(read.check_ack(0x02).is_ok());
    assert!(matches!(read.check_ack(0x01), Err(IoError::ReceivedUnexpectedbyte { expected: 0x02, found: 0x01 })));
}

/// A simulated bus: everything sent is recorded, reads are served from a queue.
#[derive(Default)]
struct Bus {
    sent: Vec<u8>,
    replies: VecDeque<u8>,
    turns: Vec<&'static str>,
}

struct Out(Rc<RefCell<Bus>>);
struct In(Rc<RefCell<Bus>>);
struct Hs;
struct NoDelay(Rc<RefCell<Bus>>);

impl SendByte for Out {
    type IntoRead = In;
    fn send(&mut self, byte: u8) -> Result<(), IoError> {
        self.0.borrow_mut().sent.push(byte);
        Ok(())
    }
    fn into_read(self) -> Result<In, IoError> {
        self.0.borrow_mut().turns.push("read");
        Ok(In(self.0))
    }
}

impl ReadByte for In {
    type IntoSend = Out;
    fn read(&self) -> Result<u8, IoError> {
        self.0.borrow_mut().replies.pop_front().ok_or(IoError::Other("no reply".to_string()))
    }
    fn into_send(self) -> Result<Out, IoError> {
        self.0.borrow_mut().turns.push("send");
        Ok(Out(self.0))
    }
}

impl WithHandshake for Hs {
    fn with_write_handshake<S: SendByte>(&mut self, sender: &mut S, byte: u8) -> Result<(), IoError> {
        sender.send(byte)
    }
    fn with_read_handshake<F: FnOnce() -> Result<u8, IoError>>(&mut self, f: F) -> Result<u8, IoError> {
        f()
    }
}

impl DelayMs for NoDelay {
    fn delay_ms(&mut self, ms: u64) {
        assert_eq!(ms, 2);
        self.0.borrow_mut().turns.push("delay");
    }
}

#[test]
fn execute_read_command() {
    let bus = Rc::new(RefCell::new(Bus::default()));
    bus.borrow_mut().replies.extend([0x02, 0xDE, 0xAD]);
    let pins = Pins::new(Hs, Out(bus.clone()), NoDelay(bus.clone()));
    let mut buf = [0u8; 2];
    {
        let mut read = Command::ReadData { address: 0x0300, out_buffer: MutableLengthLimitedSlice::new(&mut buf).unwrap() };
        assert!(pins.execute(&mut read).0.is_ok());
    }
    assert_eq!(buf, [0xDE, 0xAD]);
    assert_eq!(bus.borrow().sent, vec![0x02, 0x00, 0x03, 0x02]);
    assert_eq!(bus.borrow().turns, vec!["read", "delay", "send"]);
}

#[test]
fn execute_rejects_wrong_ack() {
    let bus = Rc::new(RefCell::new(Bus::default()));
    bus.borrow_mut().replies.extend([0x07]);
    let pins = Pins::new(Hs, Out(bus.clone()), NoDelay(bus.clone()));
    let mut jsr = Command::JSR { address: 0x0301 };
    match pins.execute(&mut jsr).0 {
        Err(IoError::ReceivedUnexpectedbyte { expected, found }) => {
            assert_eq!(expected, 0x01);
            assert_eq!(found, 0x07);
        }
        _ => panic!("a wrong acknowledgement must be refused"),
    }
    assert_eq!(bus.borrow().sent, vec![0x03, 0x01, 0x03]);
}

#[test]
fn execute_write_command() {
    let bus = Rc::new(RefCell::new(Bus::default()));
    bus.borrow_mut().replies.extend([0x01]);
    let pins = Pins::new(Hs, Out(bus.clone()), NoDelay(bus.clone()));
    let data = [1u8, 2, 3];
    let mut write = Command::WriteData { address: 0x0200, data: LengthLimitedSlice::new(&data).unwrap() };
    assert!(pins.execute(&mut write).0.is_ok());
    assert_eq!(bus.borrow().sent, vec![0x01, 0x00, 0x02, 0x03, 1, 2, 3]);
}

/// A sender whose lines fail after a number of bytes.
struct Flaky {
    bus: Rc<RefCell<Bus>>,
    left: usize,
}

impl SendByte for Flaky {
    type IntoRead = FlakyIn;
    fn send(&mut self, byte: u8) -> Result<(), IoError> {
        if self.left == 0 {
            return Err(IoError::Other("line stuck".to_string()));
        }
        self.left -= 1;
        self.bus.borrow_mut().sent.push(byte);
        Ok(())
    }
    fn into_read(self) -> Result<FlakyIn, IoError> {
        self.bus.borrow_mut().turns.push("read");
        Ok(FlakyIn(self.bus, self.left))
    }
}

struct FlakyIn(Rc<RefCell<Bus>>, usize);

impl ReadByte for FlakyIn {
    type IntoSend = Flaky;
    fn read(&self) -> Result<u8, IoError> {
        self.0.borrow_mut().replies.pop_front().ok_or(IoError::Other("no reply".to_string()))
    }
    fn into_send(self) -> Result<Flaky, IoError> {
        self.0.borrow_mut().turns.push("send");
        Ok(Flaky { bus: self.0, left: self.1 })
    }
}

#[test]
fn execute_stops_at_failed_send() {
    let bus = Rc::new(RefCell::new(Bus::default()));
    bus.borrow_mut().replies.extend([0x01]);
    let pins = Pins::new(Hs, Flaky { bus: bus.clone(), left: 2 }, NoDelay(bus.clone()));
    let mut jsr = Command::JSR { address: 0x0301 };
    match pins.execute(&mut jsr).0 {
        Err(IoError::Other(message)) => assert_eq!(message, "line stuck"),
        _ => panic!("the error of the failed send must come back"),
    }
    // the first two bytes went out, nothing was called after the failure
    assert_eq!(bus.borrow().sent, vec![0x03, 0x01]);
    assert!(bus.borrow().turns.is_empty());
    assert_eq!(bus.borrow().replies.len(), 1);
}

#[test]
fn execute_reports_missing_data() {
    let bus = Rc::new(RefCell::new(Bus::default()));
    bus.borrow_mut().replies.extend([0x02, 0x11]);
    let pins = Pins::new(Hs, Out(bus.clone()), NoDelay(bus.clone()));
    let mut buf = [0u8; 3];
    {
        let mut read = Command::ReadData { address: 0x0300, out_buffer: MutableLengthLimitedSlice::new(&mut buf).unwrap() };
        match pins.execute(&mut read).0 {
            Err(IoError::Other(message)) => assert_eq!(message, "no reply"),
            _ => panic!("a missing data byte must fail the read"),
        }
    }
    assert_eq!(buf[0], 0x11);
    // the bus is not turned back after a failure
    assert_eq!(bus.borrow().turns, vec!["read", "delay"]);
}
