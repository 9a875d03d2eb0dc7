//! The device-driver decision logic: sector buffers, the keyboard state
//! machine, ATA and PCI classification, and the screen writer.

use parkos::io::ide_disk::{ata_step, is_atapi_signature, parse_identify_sectors, select_port,
    AccessType, AtaStep};
use parkos::io::keyboard::Keyboard;
use parkos::io::membuffer::MemBuffer;
use parkos::io::pci::{config_address, device_class_name, parse_pci_device, pci_function_present};
use parkos::vga_buffer::{Color, ColorCode, Writer};

#[test]
fn membuffer_reads_little_endian() {
    let mut b = MemBuffer::new();
    assert_eq!(b.len(), 512);
    assert_eq!(b.get_u8(0), 0);
    b.set_u16(10, 0xbeef);
    assert_eq!(b.get_u8(10), 0xef);
    assert_eq!(b.get_u8(11), 0xbe);
    assert_eq!(b.get_u16(10), 0xbeef);
    // A value straddling the two writes.
    b.set_u16(12, 0x1234);
    assert_eq!(b.get_u32(10), 0x1234beef);
    assert_eq!(b.get_u16(11), 0x34be);
    assert_eq!(b.get_slice(10, 4), &[0xef, 0xbe, 0x34, 0x12]);
    // Bytes outside the writes are untouched.
    assert_eq!(b.get_u8(9), 0);
    assert_eq!(b.get_u8(14), 0);
}

#[test]
fn keyboard_tracks_shift_and_capslock() {
    let mut k = Keyboard::new();
    // 0x1e is 'a'.
    assert_eq!(k.parse_scancode(0x1e).character, 'a');
    // Left shift down: 'A'; shift up: 'a' again.
    let ev = k.parse_scancode(0x2a);
    assert_eq!(ev.character, '\0');
    assert!(ev.pressed);
    assert_eq!(k.parse_scancode(0x1e).character, 'A');
    assert_eq!(k.parse_scancode(0xaa).pressed, false);
    assert_eq!(k.parse_scancode(0x1e).character, 'a');
    // Caps lock: 'A'; caps lock with shift: 'a'.
    k.parse_scancode(0x3a);
    assert_eq!(k.parse_scancode(0x1e).character, 'A');
    k.parse_scancode(0x36);
    assert_eq!(k.parse_scancode(0x1e).character, 'a');
}

#[test]
fn keyboard_reports_releases_and_raw_codes() {
    let mut k = Keyboard::new();
    // The release of 'a' (0x1e | 0x80) still names the character.
    let ev = k.parse_scancode(0x9e);
    assert_eq!(ev.character, 'a');
    assert!(!ev.pressed);
    assert_eq!(ev.scancode, 0x9e);
    // Scancode 2 is '1', shifted '!'.
    assert_eq!(k.parse_scancode(2).character, '1');
    k.parse_scancode(0x2a);
    assert_eq!(k.parse_scancode(2).character, '!');
    // A code past the table yields no character.
    assert_eq!(k.parse_scancode(58).character, '\0');
}

#[test]
fn ata_status_bytes_classify() {
    assert_eq!(ata_step(0x80), AtaStep::Busy);
    assert_eq!(ata_step(0x81), AtaStep::Busy);
    assert_eq!(ata_step(0x01), AtaStep::TransferError);
    assert_eq!(ata_step(0x20), AtaStep::DriveFault);
    assert_eq!(ata_step(0x40), AtaStep::NotReady);
    assert_eq!(ata_step(0x48), AtaStep::Ready);
    assert_eq!(ata_step(0x08), AtaStep::Ready);
}

#[test]
fn identify_words_give_geometry() {
    let mut data = vec![0u16; 256];
    data[100] = 0x1000;
    data[101] = 0x2;
    let (t, n) = parse_identify_sectors(&data);
    assert_eq!(t, AccessType::Lba48);
    assert_eq!(n, 0x21000);
    let mut data28 = vec![0u16; 256];
    data28[60] = 0x5678;
    data28[61] = 0x1234;
    let (t, n) = parse_identify_sectors(&data28);
    assert_eq!(t, AccessType::Lba28);
    assert_eq!(n, 0x12345678);
    let (t, n) = parse_identify_sectors(&vec![0u16; 256]);
    assert_eq!(t, AccessType::Unknown);
    assert_eq!(n, 0);
}

#[test]
fn atapi_signature_and_ports() {
    assert!(is_atapi_signature(0x14, 0xeb));
    assert!(is_atapi_signature(0x69, 0x96));
    assert!(!is_atapi_signature(0x14, 0x96));
    assert_eq!(select_port(0, 0x1f0), 0x1f0);
    assert_eq!(select_port(1, 0x3f4), 0x3f4);
    assert_eq!(select_port(0x8001, 0x1f0), 0x1f0);
    assert_eq!(select_port(0x8001, 0x3f7), 0x3f0);
}

#[test]
fn pci_address_and_device_words() {
    assert_eq!(config_address(0, 0, 0, 0), 0x8000_0000);
    assert_eq!(config_address(1, 2, 3, 0x11), 0x8001_1310);
    let d = parse_pci_device(0x1234_5678, 0x0101_8000, 0x00ab_0000);
    assert_eq!(d.class_id, 1);
    assert_eq!(d.subclass_id, 1);
    assert_eq!(d.interface_id, 0x80);
    assert_eq!(d.vendor_code, 0x5678);
    assert_eq!(d.device_code, 0x1234);
    assert_eq!(d.header_type, 0xab);
    assert!(pci_function_present(0x1234_5678));
    assert!(!pci_function_present(0xffff_ffff));
    assert_eq!(device_class_name(1, 1), "IDE");
    assert_eq!(device_class_name(2, 0), "Ethernet");
    assert_eq!(device_class_name(3, 7), "Display Controller");
    assert_eq!(device_class_name(9, 9), "Unknown Device");
}

#[test]
fn writer_fills_the_bottom_row() {
    let cc = ColorCode::new(Color::LightGreen, Color::Black);
    assert_eq!(cc.code, 0x0a);
    let mut w = Writer::new(cc);
    w.write_byte(b'h');
    w.write_byte(b'i');
    assert_eq!(w.column_position, 2);
    assert_eq!(w.buffer[24 * 80].ascii_character, b'h');
    assert_eq!(w.buffer[24 * 80 + 1].ascii_character, b'i');
    assert_eq!(w.buffer[24 * 80].color_code, cc);
    // Newline scrolls the row up.
    w.write_byte(b'\n');
    assert_eq!(w.column_position, 0);
    assert_eq!(w.buffer[23 * 80].ascii_character, b'h');
    assert_eq!(w.buffer[23 * 80 + 1].ascii_character, b'i');
    assert_eq!(w.buffer[24 * 80].ascii_character, b' ');
}

#[test]
fn writer_tab_backspace_and_wrap() {
    let cc = ColorCode::new(Color::White, Color::Blue);
    assert_eq!(cc.code, 0x1f);
    let mut w = Writer::new(cc);
    w.write_byte(b'\t');
    assert_eq!(w.column_position, 4);
    for c in 0..4 {
        assert_eq!(w.buffer[24 * 80 + c].ascii_character, b' ');
    }
    w.write_byte(b'x');
    assert_eq!(w.buffer[24 * 80 + 4].ascii_character, b'x');
    // Backspace blanks the character and steps back.
    w.write_byte(0x10);
    assert_eq!(w.column_position, 4);
    assert_eq!(w.buffer[24 * 80 + 4].ascii_character, b' ');
    // Backspace at the first column does nothing.
    let mut fresh = Writer::new(cc);
    fresh.write_byte(0x10);
    assert_eq!(fresh.column_position, 0);
    // A full row wraps onto a fresh one.
    let mut full = Writer::new(cc);
    for _ in 0..80 {
        full.write_byte(b'z');
    }
    assert_eq!(full.column_position, 80);
    full.write_byte(b'q');
    assert_eq!(full.column_position, 1);
    assert_eq!(full.buffer[24 * 80].ascii_character, b'q');
    assert_eq!(full.buffer[23 * 80 + 79].ascii_character, b'z');
}
