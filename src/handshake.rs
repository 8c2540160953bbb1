use vstd::prelude::*;
use vstd::string::StrSliceExecFns;
use vstd::string::StringExecFns;
use crate::events::{find_newline, newline_from};
use crate::text::chars_of;

verus! {

/// How the analyser introduces itself; its firmware version follows.
pub open spec fn ident_prefix() -> Seq<char> {
    "DCC Quality Analyser V"@
}

/// What the analyser sends once it is ready.
pub open spec fn ready_marker() -> Seq<char> {
    "Ready"@
}

/// `p` occurs in `s`.
pub open spec fn occurs_in(p: Seq<char>, s: Seq<char>) -> bool {
    exists|i: int| 0 <= i && i + p.len() <= s.len() && #[trigger] s.subrange(i, i + p.len()) == p
}

/// The firmware version in an identification text: what stands between the
/// prefix and the end of the line. Nothing where the prefix is missing.
pub open spec fn identification_firmware(s: Seq<char>) -> Option<Seq<char>> {
    let n = ident_prefix().len() as int;
    if n <= s.len() && s.take(n) == ident_prefix() {
        let end = match newline_from(s, n) {
            Some(j) => j,
            None => s.len() as int,
        };
        Some(s.subrange(n, end))
    } else {
        None
    }
}

/// Relies on `str::contains`: true when `needle` matches a sub-slice of `haystack`.
#[verifier::external_body]
fn text_contains(haystack: &str, needle: &str) -> (r: bool)
    ensures
        r == occurs_in(needle@, haystack@),
{
    haystack.contains(needle)
}

/// Reads the firmware version out of the analyser's identification text.
pub fn parse_identification(text: &str) -> (r: Option<String>)
    ensures
        match r {
            Some(f) => identification_firmware(text@) == Some(f@),
            None => identification_firmware(text@) is None,
        },
{
    let t = chars_of(text);
    let p = chars_of("DCC Quality Analyser V");
    if p.len() > t.len() {
        return None;
    }
    let mut i: usize = 0;
    while i < p.len()
        invariant
            t@ == text@,
            p@ == ident_prefix(),
            p.len() <= t.len(),
            i <= p.len(),
            forall|j: int| 0 <= j < i ==> t@[j] == p@[j],
        decreases p.len() - i,
    {
        if t[i] != p[i] {
            assert(t@.take(p.len() as int)[i as int] != p@[i as int]);
            return None;
        }
        i = i + 1;
    }
    assert(t@.take(p.len() as int) == p@);
    let end = find_newline(&t, p.len());
    Some(String::from_str(text.substring_char(p.len(), end)))
}

/// Why the analyser could not be connected.
#[derive(Clone, Copy, Debug, PartialEq, Eq, Structural)]
pub enum HandshakeError {
    /// The identification or the ready marker did not come.
    UnknownDevice,
    /// Reading from the port failed.
    Transport,
}

/// Progress of the connection handshake.
pub enum Handshake {
    /// Waiting for a whole identification line; holds what came so far.
    AwaitIdentification(String),
    /// Identified; waiting for the ready marker.
    AwaitReady { firmware: String, received: String },
    /// Ready, with the firmware version.
    Connected(String),
    Failed(HandshakeError),
}

pub enum HandshakeModel {
    AwaitIdentification(Seq<char>),
    AwaitReady(Seq<char>, Seq<char>),
    Connected(Seq<char>),
    Failed(HandshakeError),
}

/// What a read from the port gave.
pub enum ReadOutcome {
    Chunk(String),
    TimedOut,
    Failed,
}

impl View for Handshake {
    type V = HandshakeModel;

    open spec fn view(&self) -> HandshakeModel {
        match self {
            Handshake::AwaitIdentification(r) => HandshakeModel::AwaitIdentification(r@),
            Handshake::AwaitReady { firmware, received } => HandshakeModel::AwaitReady(
                firmware@,
                received@,
            ),
            Handshake::Connected(f) => HandshakeModel::Connected(f@),
            Handshake::Failed(e) => HandshakeModel::Failed(*e),
        }
    }
}

/// The handshake after one read.
pub open spec fn handshake_next(h: HandshakeModel, r: ReadOutcome) -> HandshakeModel {
    match h {
        HandshakeModel::AwaitIdentification(received) => match r {
            ReadOutcome::Chunk(c) => {
                let all = received + c@;
                if newline_from(all, 0) is Some {
                    match identification_firmware(all) {
                        Some(f) => HandshakeModel::AwaitReady(f, Seq::empty()),
                        None => HandshakeModel::Failed(HandshakeError::UnknownDevice),
                    }
                } else {
                    HandshakeModel::AwaitIdentification(all)
                }
            },
            ReadOutcome::TimedOut => HandshakeModel::Failed(HandshakeError::UnknownDevice),
            ReadOutcome::Failed => HandshakeModel::Failed(HandshakeError::Transport),
        },
        HandshakeModel::AwaitReady(f, received) => match r {
            ReadOutcome::Chunk(c) => {
                let all = received + c@;
                if occurs_in(ready_marker(), all) {
                    HandshakeModel::Connected(f)
                } else {
                    HandshakeModel::AwaitReady(f, all)
                }
            },
            ReadOutcome::TimedOut => HandshakeModel::Failed(HandshakeError::UnknownDevice),
            ReadOutcome::Failed => HandshakeModel::Failed(HandshakeError::Transport),
        },
        _ => h,
    }
}

impl Handshake {
    pub fn start() -> (h: Handshake)
        ensures
            h@ == HandshakeModel::AwaitIdentification(Seq::empty()),
    {
        Handshake::AwaitIdentification(String::new())
    }

    /// Takes the outcome of one read from the port.
    pub fn step(self, read: ReadOutcome) -> (next: Handshake)
        ensures
            next@ == handshake_next(self@, read),
    {
        match self {
            Handshake::AwaitIdentification(received) => match read {
                ReadOutcome::Chunk(c) => {
                    let mut all = received;
                    all.append(c.as_str());
                    let t = chars_of(all.as_str());
                    if find_newline(&t, 0) < t.len() {
                        match parse_identification(all.as_str()) {
                            Some(f) => Handshake::AwaitReady { firmware: f, received: String::new() },
                            None => Handshake::Failed(HandshakeError::UnknownDevice),
                        }
                    } else {
                        Handshake::AwaitIdentification(all)
                    }
                },
                ReadOutcome::TimedOut => Handshake::Failed(HandshakeError::UnknownDevice),
                ReadOutcome::Failed => Handshake::Failed(HandshakeError::Transport),
            },
            Handshake::AwaitReady { firmware, received } => match read {
                ReadOutcome::Chunk(c) => {
                    let mut all = received;
                    all.append(c.as_str());
                    if text_contains(all.as_str(), "Ready") {
                        Handshake::Connected(firmware)
                    } else {
                        Handshake::AwaitReady { firmware, received: all }
                    }
                },
                ReadOutcome::TimedOut => Handshake::Failed(HandshakeError::UnknownDevice),
                ReadOutcome::Failed => Handshake::Failed(HandshakeError::Transport),
            },
            other => other,
        }
    }
}

} // verus!
