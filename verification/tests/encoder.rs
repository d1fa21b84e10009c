use mycat::process_byte;

#[test]
fn printable_ascii_is_identity() {
    for b in 0x20u8..=0x7E {
        assert_eq!(process_byte(b), vec![b]);
    }
}

#[test]
fn del_is_caret_question() {
    assert_eq!(process_byte(0x7F), vec![0x5E, 0x3F]);
}

#[test]
fn high_bytes_get_meta_prefix() {
    assert_eq!(process_byte(0xFF), vec![0x4D, 0x2D, 0x5E, 0x3F]);
    assert_eq!(process_byte(0x80), vec![0x4D, 0x2D, 0x5E, 0x40]);
    assert_eq!(process_byte(0xE3), vec![0x4D, 0x2D, 0x63]);
    assert_eq!(process_byte(0xA0), vec![0x4D, 0x2D, 0x20]);
}

#[test]
fn tab_passes_through_encoder() {
    assert_eq!(process_byte(0x09), vec![0x09]);
}

#[test]
fn newline_produces_nothing() {
    assert_eq!(process_byte(0x0A), Vec::<u8>::new());
}

#[test]
fn control_bytes_get_caret() {
    assert_eq!(process_byte(0x00), vec![b'^', b'@']);
    assert_eq!(process_byte(0x01), vec![b'^', b'A']);
    assert_eq!(process_byte(0x1F), vec![b'^', b'_']);
}
