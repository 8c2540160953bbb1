use dcc_quality_analyzer::dcc::{
    analyze, byte_string_to_u8, classify_bytes, extract_bytes, int_decimal, nat_decimal,
    xor_checksum, DCCPacket, DCCPacketType,
};

#[test]
fn short_sequences_are_unknown() {
    for bytes in [&[][..], &[0xFF][..], &[0x00, 0x00][..], &[0xFF, 0x00][..]] {
        let (kind, text) = classify_bytes(bytes);
        assert_eq!(kind, DCCPacketType::Unknown);
        assert_eq!(text, "Unknown packet");
    }
}

#[test]
fn checksum_mismatch_is_invalid() {
    let (kind, text) = classify_bytes(&[0x01, 0x02, 0x04]);
    assert_eq!(kind, DCCPacketType::Invalid);
    assert_eq!(text, "Invalid packet");
    assert_eq!(classify_bytes(&[0x03, 0x3F, 0x10, 0x00]).0, DCCPacketType::Invalid);
    assert_eq!(classify_bytes(&[0x00, 0x00, 0x01]).0, DCCPacketType::Invalid);
}

#[test]
fn checksum_of_idle_bytes_is_zero() {
    assert_eq!(xor_checksum(&[0xFF, 0x00, 0xFF]), 0x00);
    assert_eq!(xor_checksum(&[0xFF, 0x00]), 0xFF);
    assert_eq!(xor_checksum(&[]), 0x00);
    assert_eq!(xor_checksum(&[0x12, 0x34, 0x56]), 0x12 ^ 0x34 ^ 0x56);
}

#[test]
fn idle_with_zero_checksum_byte_is_invalid() {
    // 0xFF ^ 0x00 is 0xFF, so a trailing 0x00 does not check out.
    assert_eq!(classify_bytes(&[0xFF, 0x00, 0x00]).0, DCCPacketType::Invalid);
}

#[test]
fn idle_bytes_classify_as_idle() {
    let (kind, text) = classify_bytes(&[0xFF, 0x00, 0xFF]);
    assert_eq!(kind, DCCPacketType::Idle);
    assert_eq!(text, "Idle packet");
}

#[test]
fn zero_bytes_classify_as_reset() {
    let (kind, text) = classify_bytes(&[0x00, 0x00, 0x00]);
    assert_eq!(kind, DCCPacketType::Reset);
    assert_eq!(text, "Reset packet");
}

#[test]
fn speed_packet_reverse_with_half_step() {
    let (kind, text) = classify_bytes(&[0x03, 0x76, 0x75]);
    assert_eq!(kind, DCCPacketType::Speed);
    assert_eq!(text, "Basic speed packet, address=3, speed=-16");
}

#[test]
fn speed_packet_forward() {
    let (kind, text) = classify_bytes(&[0x01, 0x45, 0x44]);
    assert_eq!(kind, DCCPacketType::Speed);
    assert_eq!(text, "Basic speed packet, address=1, speed=10");
    let (_, text) = classify_bytes(&[0x7F, 0x42, 0x3D]);
    assert_eq!(text, "Basic speed packet, address=127, speed=4");
}

#[test]
fn speed_packet_stop_and_emergency_stop() {
    assert_eq!(
        classify_bytes(&[0x05, 0x60, 0x65]).1,
        "Basic speed packet, address=5, speed=stop"
    );
    assert_eq!(
        classify_bytes(&[0x05, 0x41, 0x44]).1,
        "Basic speed packet, address=5, speed=e-stop"
    );
}

#[test]
fn valid_but_unrecognised_is_unknown() {
    assert_eq!(classify_bytes(&[0x80, 0x00, 0x80]).0, DCCPacketType::Unknown);
    assert_eq!(classify_bytes(&[0x01, 0x02, 0x03, 0x00]).0, DCCPacketType::Unknown);
    assert_eq!(classify_bytes(&[0x05, 0x80, 0x85]).0, DCCPacketType::Unknown);
}

#[test]
fn bit_strings_read_most_significant_first() {
    assert_eq!(byte_string_to_u8("10000000"), 0x80);
    assert_eq!(byte_string_to_u8("00000001"), 0x01);
    assert_eq!(byte_string_to_u8("11111111"), 0xFF);
    assert_eq!(byte_string_to_u8("01010101"), 0x55);
    assert_eq!(byte_string_to_u8("1"), 0x80);
    assert_eq!(byte_string_to_u8(""), 0x00);
    assert_eq!(byte_string_to_u8("x0000001"), 0x81);
}

#[test]
fn decimal_rendering() {
    assert_eq!(nat_decimal(0), "0");
    assert_eq!(nat_decimal(7), "7");
    assert_eq!(nat_decimal(1234), "1234");
    assert_eq!(int_decimal(-16), "-16");
    assert_eq!(int_decimal(0), "0");
    assert_eq!(int_decimal(i32::MIN), "-2147483648");
}

#[test]
fn idle_line_end_to_end() {
    let raw = "11111111111111 0 11111111 0 00000000 0 11111111 1";
    assert_eq!(extract_bytes(raw), vec![0xFF, 0x00, 0xFF]);
    let (kind, text) = analyze(raw);
    assert_eq!(kind, DCCPacketType::Idle);
    assert_eq!(text, "Idle packet");
}

#[test]
fn reset_line_end_to_end() {
    let raw = "11111111111111 0 00000000 0 00000000 0 00000000 1";
    assert_eq!(extract_bytes(raw), vec![0x00, 0x00, 0x00]);
    assert_eq!(analyze(raw).0, DCCPacketType::Reset);
}

#[test]
fn six_groups_are_read() {
    let raw = "1111111111 0 00000001 0 00000010 0 00000100 0 00001000 0 00010000 0 00011111 1";
    assert_eq!(extract_bytes(raw), vec![1, 2, 4, 8, 16, 31]);
    assert_eq!(analyze(raw).0, DCCPacketType::Unknown);
}

#[test]
fn four_groups_are_read() {
    let raw = "junk 111111111111 0 00000011 0 00111111 0 00010000 0 00101100 1 trailing";
    assert_eq!(extract_bytes(raw), vec![0x03, 0x3F, 0x10, 0x2C]);
}

#[test]
fn seven_groups_do_not_match() {
    let raw = "1111111111 0 00000001 0 00000010 0 00000100 0 00001000 0 00010000 0 00100000 0 01111111 1";
    assert!(extract_bytes(raw).is_empty());
    assert_eq!(analyze(raw).0, DCCPacketType::Unknown);
}

#[test]
fn short_preamble_or_two_groups_do_not_match() {
    assert!(extract_bytes("111111111 0 11111111 0 00000000 0 11111111 1").is_empty());
    assert!(extract_bytes("11111111111111 0 11111111 0 11111111 1").is_empty());
    assert!(extract_bytes("11111111111111 0 11111111 0 00000000 0 11111111").is_empty());
    assert!(extract_bytes("").is_empty());
    assert_eq!(analyze("").0, DCCPacketType::Unknown);
}

#[test]
fn any_unicode_whitespace_separates() {
    let raw = "1111111111\t0\u{2003}11111111\n0 00000000 0 11111111\u{a0}1";
    assert_eq!(extract_bytes(raw), vec![0xFF, 0x00, 0xFF]);
}

#[test]
fn first_frame_wins() {
    let raw = "1111111111 0 00000000 0 00000000 0 00000000 1 1111111111 0 11111111 0 00000000 0 11111111 1";
    assert_eq!(extract_bytes(raw), vec![0x00, 0x00, 0x00]);
    let raw = "1111111111 0 0000000 1111111111 0 11111111 0 00000000 0 11111111 1";
    assert_eq!(extract_bytes(raw), vec![0xFF, 0x00, 0xFF]);
}

#[test]
fn packet_keeps_line_and_description() {
    let raw = "11111111111111 0 11111111 0 00000000 0 11111111 1";
    let p = DCCPacket::new(raw);
    assert_eq!(p.raw(), raw);
    assert_eq!(p.kind(), DCCPacketType::Idle);
    assert_eq!(p.packet_type, DCCPacketType::Idle);
    assert_eq!(p.description(), "Idle packet");
    let q = DCCPacket::new("noise");
    assert_eq!(q.kind(), DCCPacketType::Unknown);
    assert_eq!(q.description(), "Unknown packet");
}
