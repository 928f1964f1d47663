use boot_6502::frame::{Frame, FrameDeserializer, ESCAPE_CHAR, FRAME_CHECK, FRAME_END, FRAME_START};
use boot_6502::payload::Payload;

fn decode_first(deserializer: &mut FrameDeserializer, bytes: &[u8]) -> Option<Frame> {
    for &b in bytes {
        let r = deserializer.push(b);
        if r.is_some() {
            return r;
        }
    }
    None
}

#[test]
fn basic_serde() {
    for bytes in [vec![], vec![1, 2, 3], vec![0x28, 0x29, 0x5C, 0x00, 0xFF], vec![0x5C; 5]] {
        let frame = Frame::new(bytes);
        let serialized = frame.serialize();
        let mut deserializer = FrameDeserializer::default();
        let res = decode_first(&mut deserializer, &serialized);
        assert_eq!(frame, res.unwrap());
    }
}

#[test]
fn serde_preceding_garbage() {
    let garbage: Vec<u8> = vec![7, 0x29, 0x28, 0x41, 0x5C, 0x28, 0x42];
    let frame = Frame::new(vec![0x28, 9, 0x5C]);
    let mut deserializer = FrameDeserializer::default();
    deserializer.push(FRAME_START);
    for &b in garbage.iter() {
        deserializer.push(b);
    }
    let res = decode_first(&mut deserializer, &frame.serialize());
    assert_eq!(frame, res.unwrap());
}

#[test]
fn serialize_escapes_special_bytes() {
    let frame = Frame::new(vec![0x28, 0x41, 0x29, 0x5C]);
    assert_eq!(
        frame.serialize(),
        vec![FRAME_START, ESCAPE_CHAR, 0x08, 0x41, ESCAPE_CHAR, 0x09, ESCAPE_CHAR, 0x7C, FRAME_CHECK, FRAME_END]
    );
    assert_eq!(Frame::new(vec![]).serialize(), vec![0x28, 0x00, 0x29]);
}

#[test]
fn start_byte_inside_frame_restarts_it() {
    let mut d = FrameDeserializer::default();
    assert!(decode_first(&mut d, &[0x28, 1, 2, 0x28, 3, 0x00]).is_none());
    let f = d.push(0x29).unwrap();
    assert_eq!(f.payload(), &vec![3]);
}

#[test]
fn bytes_outside_frames_are_ignored() {
    let mut d = FrameDeserializer::default();
    assert!(decode_first(&mut d, &[1, 0x29, 0x5C, 2]).is_none());
    assert!(decode_first(&mut d, &[0x28, 4, 0x00, 0x29]).unwrap() == Frame::new(vec![4]));
}

#[test]
fn payload_encoding() {
    assert_eq!(Payload::Echo(vec![9, 8]).serialize(), vec![0x01, 9, 8]);
    assert_eq!(Payload::Echoed(vec![]).serialize(), vec![0x02]);
}

#[test]
fn payload_decoding() {
    match Payload::deserialize(0x01, vec![5]) {
        Some(Payload::Echo(d)) => assert_eq!(d, vec![5]),
        _ => panic!("type 1 is an echo"),
    }
    match Payload::deserialize(0x02, vec![6]) {
        Some(Payload::Echoed(d)) => assert_eq!(d, vec![6]),
        _ => panic!("type 2 is an echo reply"),
    }
    assert!(Payload::deserialize(0x03, vec![]).is_none());
}

#[test]
fn echo_roundtrip_through_frame() {
    let bytes = Payload::Echo(b"Hello!".to_vec()).serialize();
    let wire = Frame::new(bytes).serialize();
    let mut d = FrameDeserializer::default();
    let f = decode_first(&mut d, &wire).unwrap();
    let p = f.payload();
    match Payload::deserialize(p[0], p[1..].to_vec()) {
        Some(Payload::Echo(d)) => assert_eq!(d, b"Hello!".to_vec()),
        _ => panic!("echo did not survive the round trip"),
    }
}

#[test]
fn escape_before_frame_start_swallows_it() {
    // from the state right after an escape byte, the start of the next frame
    // is taken as an escaped payload byte
    let mut d = FrameDeserializer::default();
    d.push(FRAME_START);
    d.push(ESCAPE_CHAR);
    let frame = Frame::new(vec![1]);
    let res = decode_first(&mut d, &frame.serialize()).unwrap();
    assert_eq!(res.payload(), &vec![0x08, 1]);
}

#[test]
fn frame_with_wrong_check_byte_is_dropped() {
    let mut d = FrameDeserializer::default();
    assert!(decode_first(&mut d, &[0x28, 4, 0x07, 0x29]).is_none());
    assert!(decode_first(&mut d, &[0x28, 0x29]).is_none());
    assert!(decode_first(&mut d, &[0x28, 5, 0x00, 0x29]).unwrap() == Frame::new(vec![5]));
}

#[test]
fn echo_reply_roundtrip() {
    let bytes = Payload::Echoed(vec![1, 2]).serialize();
    match Payload::deserialize(bytes[0], bytes[1..].to_vec()) {
        Some(Payload::Echoed(d)) => assert_eq!(d, vec![1, 2]),
        _ => panic!("an echo reply decodes to an echo reply"),
    }
}
