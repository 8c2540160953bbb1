use dcc_quality_analyzer::handshake::{parse_identification, Handshake, HandshakeError, ReadOutcome};

fn chunk(s: &str) -> ReadOutcome {
    ReadOutcome::Chunk(s.to_string())
}

#[test]
fn identification_gives_firmware() {
    assert_eq!(parse_identification("DCC Quality Analyser V1.2\n").as_deref(), Some("1.2"));
    assert_eq!(parse_identification("DCC Quality Analyser V0.3\nReady\n").as_deref(), Some("0.3"));
    assert_eq!(parse_identification("DCC Quality Analyser V2").as_deref(), Some("2"));
    assert_eq!(parse_identification("Some other device\n"), None);
    assert_eq!(parse_identification("DCC Quality"), None);
    assert_eq!(parse_identification(""), None);
}

#[test]
fn handshake_connects() {
    let mut h = Handshake::start();
    for c in ["DCC Quality", " Analyser V1.4", "\n", "booting\n", "Rea", "dy\n"] {
        h = h.step(chunk(c));
    }
    match h {
        Handshake::Connected(f) => assert_eq!(f, "1.4"),
        _ => panic!("not connected"),
    }
}

#[test]
fn handshake_rejects_other_devices_and_timeouts() {
    let h = Handshake::start().step(chunk("Hello\n"));
    assert!(matches!(h, Handshake::Failed(HandshakeError::UnknownDevice)));
    let h = Handshake::start().step(ReadOutcome::TimedOut);
    assert!(matches!(h, Handshake::Failed(HandshakeError::UnknownDevice)));
    let h = Handshake::start().step(chunk("DCC Quality Analyser V1\n"));
    assert!(matches!(h, Handshake::AwaitReady { .. }));
    let h = h.step(ReadOutcome::TimedOut);
    assert!(matches!(h, Handshake::Failed(HandshakeError::UnknownDevice)));
    let h = Handshake::start().step(chunk("DCC Quality Analyser V1\n")).step(ReadOutcome::Failed);
    assert!(matches!(h, Handshake::Failed(HandshakeError::Transport)));
}
