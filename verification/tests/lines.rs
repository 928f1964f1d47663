use boot_6502::boot::line_bytes;
use boot_6502::rpi_pins::{byte_from_levels, levels_of_byte};

#[test]
fn byte_to_lines_and_back() {
    let levels = levels_of_byte(0b1000_0101);
    assert_eq!(levels, [true, false, true, false, false, false, false, true]);
    assert_eq!(byte_from_levels(&levels), 0b1000_0101);
    for b in 0..=255u8 {
        assert_eq!(byte_from_levels(&levels_of_byte(b)), b);
    }
}

#[test]
fn console_line_is_prefixed() {
    assert_eq!(line_bytes(b"LDA\n"), vec![0xFF, b'L', b'D', b'A', b'\n']);
    assert_eq!(line_bytes(b""), vec![0xFF]);
}
