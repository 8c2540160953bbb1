use dcc_quality_analyzer::dcc::DCCPacketType;
use dcc_quality_analyzer::session::Data;

const IDLE: &str = "11111111111111 0 11111111 0 00000000 0 11111111 1";
const RESET: &str = "11111111111111 0 00000000 0 00000000 0 00000000 1";
const SPEED: &str = "11111111111111 0 00000011 0 01110110 0 01110101 1";
const INVALID: &str = "11111111111111 0 11111111 0 00000000 0 00000000 1";

#[test]
fn new_session_is_empty() {
    let d = Data::new("Arduino Uno V3", "1.0");
    assert_eq!(d.total_packets(), 0);
    assert_eq!(d.invalid_packets(), 0);
    assert_eq!(d.idle_packets(), 0);
    assert_eq!(d.reset_packets(), 0);
    assert_eq!(d.valid_packets(), 0);
    assert_eq!(d.hardware(), "Arduino Uno V3");
    assert_eq!(d.firmware(), "1.0");
    assert!(d.packets().is_empty());
}

#[test]
fn each_record_counts_once() {
    let mut d = Data::new("hw", "fw");
    let lines = [IDLE, RESET, SPEED, INVALID, "garbage", IDLE];
    for line in lines {
        d.add_packet(line);
    }
    assert_eq!(d.total_packets(), 6);
    assert_eq!(d.idle_packets(), 2);
    assert_eq!(d.reset_packets(), 1);
    assert_eq!(d.invalid_packets(), 2);
    assert_eq!(d.valid_packets(), 4);
    let kinds: Vec<DCCPacketType> = d.packets().iter().map(|p| p.kind()).collect();
    assert_eq!(
        kinds,
        vec![
            DCCPacketType::Idle,
            DCCPacketType::Reset,
            DCCPacketType::Speed,
            DCCPacketType::Invalid,
            DCCPacketType::Unknown,
            DCCPacketType::Idle
        ]
    );
    assert_eq!(d.packets()[4].raw(), "garbage");
}

#[test]
fn clear_keeps_device_names() {
    let mut d = Data::new("hw", "fw");
    d.add_packet(IDLE);
    d.add_packet(INVALID);
    d.clear();
    assert_eq!(d.total_packets(), 0);
    assert_eq!(d.invalid_packets(), 0);
    assert_eq!(d.idle_packets(), 0);
    assert_eq!(d.reset_packets(), 0);
    assert!(d.packets().is_empty());
    assert_eq!(d.hardware(), "hw");
    assert_eq!(d.firmware(), "fw");
    d.add_packet(RESET);
    assert_eq!(d.total_packets(), 1);
    assert_eq!(d.reset_packets(), 1);
}
