use vstd::prelude::*;
use vstd::string::StrSliceExecFns;
use vstd::string::StringExecFns;
use crate::session::{Data, SessionModel, recorded, recorded_all, cleared};
use crate::text::chars_of;

verus! {

/// The key of a key press, as far as the control loop tells keys apart.
#[derive(Clone, Copy, Debug, PartialEq, Eq, Structural)]
pub enum KeyCode {
    Char(char),
    Esc,
    Other,
}

/// A key press; `control_only` holds when Control is the one modifier held.
#[derive(Clone, Copy, Debug, PartialEq, Eq, Structural)]
pub struct KeyInput {
    pub code: KeyCode,
    pub control_only: bool,
}

/// What the control loop receives: a key press, or a line from the bus.
pub enum Event {
    Input(KeyInput),
    Output(String),
}

/// Ctrl-C, `q` and Escape end the session.
pub open spec fn is_quit_key(k: KeyInput) -> bool {
    ||| (k.code == KeyCode::Char('c') && k.control_only)
    ||| k.code == KeyCode::Char('q')
    ||| k.code == KeyCode::Esc
}

/// `r` clears the statistics.
pub open spec fn is_clear_key(k: KeyInput) -> bool {
    !is_quit_key(k) && k.code == KeyCode::Char('r')
}

/// The statistics after an event, and whether it ends the session.
pub open spec fn handled(m: SessionModel, e: Event) -> (SessionModel, bool) {
    match e {
        Event::Input(k) => if is_quit_key(k) {
            (m, true)
        } else if is_clear_key(k) {
            (cleared(m), false)
        } else {
            (m, false)
        },
        Event::Output(line) => (recorded(m, line@), false),
    }
}

/// Applies one event to the statistics; returns whether the session ends.
pub fn handle_event(event: Event, data: &mut Data) -> (quit: bool)
    requires
        old(data).wf(),
        old(data)@.total < u64::MAX,
    ensures
        final(data).wf(),
        (final(data)@, quit) == handled(old(data)@, event),
{
    match event {
        Event::Input(key) => {
            match key.code {
                KeyCode::Char(c) => {
                    if c == 'c' && key.control_only {
                        return true;
                    }
                    if c == 'q' {
                        return true;
                    }
                    if c == 'r' {
                        data.clear();
                    }
                },
                KeyCode::Esc => {
                    return true;
                },
                KeyCode::Other => {},
            }
        },
        Event::Output(text) => {
            data.add_packet(text.as_str());
        },
    }
    false
}

// ---------------------------------------------------------------------------
// The control loop
// ---------------------------------------------------------------------------

/// Where the control loop stands: about to redraw, blocked on the next event,
/// taking the events already queued without blocking, or done.
#[derive(Clone, Copy, Debug, PartialEq, Eq, Structural)]
pub enum Phase {
    Render,
    Wait,
    Drain,
    Exit,
}

/// What came of the work that a phase asked for.
pub enum Outcome {
    /// The screen was redrawn.
    Drawn,
    /// Redrawing failed.
    DrawFailed,
    /// An event was taken from the channel.
    Received(Event),
    /// No event was queued.
    Empty,
    /// The channel has no sender left.
    Closed,
}

/// The next phase, and the statistics after it.
pub open spec fn step(p: Phase, m: SessionModel, o: Outcome) -> (Phase, SessionModel) {
    match p {
        Phase::Render => match o {
            Outcome::Drawn => (Phase::Wait, m),
            Outcome::DrawFailed => (Phase::Exit, m),
            _ => (Phase::Render, m),
        },
        Phase::Wait | Phase::Drain => match o {
            Outcome::Received(e) => {
                let (m2, quit) = handled(m, e);
                (if quit { Phase::Exit } else { Phase::Drain }, m2)
            },
            Outcome::Empty => if p == Phase::Drain {
                (Phase::Render, m)
            } else {
                (Phase::Wait, m)
            },
            Outcome::Closed => (Phase::Exit, m),
            _ => (p, m),
        },
        Phase::Exit => (Phase::Exit, m),
    }
}

/// Where a run of outcomes leads, step by step.
pub open spec fn run(p: Phase, m: SessionModel, os: Seq<Outcome>) -> (Phase, SessionModel)
    decreases os.len(),
{
    if os.len() == 0 {
        (p, m)
    } else {
        let (q, m2) = run(p, m, os.drop_last());
        step(q, m2, os.last())
    }
}

/// How many times a run of outcomes enters the phase that redraws.
pub open spec fn renders(p: Phase, m: SessionModel, os: Seq<Outcome>) -> nat
    decreases os.len(),
{
    if os.len() == 0 {
        0
    } else {
        renders(p, m, os.drop_last()) + if run(p, m, os).0 == Phase::Render {
            1nat
        } else {
            0nat
        }
    }
}

pub open spec fn is_line(o: Outcome) -> bool {
    o matches Outcome::Received(Event::Output(_))
}

pub open spec fn line_of(o: Outcome) -> Seq<char> {
    match o {
        Outcome::Received(Event::Output(line)) => line@,
        _ => Seq::empty(),
    }
}

/// The lines that a run of outcomes carries, in order.
pub open spec fn lines_of(os: Seq<Outcome>) -> Seq<Seq<char>> {
    Seq::new(os.len(), |i: int| line_of(os[i]))
}

proof fn lemma_lines_stay_draining(m: SessionModel, os: Seq<Outcome>)
    requires
        forall|i: int| 0 <= i < os.len() ==> is_line(#[trigger] os[i]),
    ensures
        run(Phase::Drain, m, os) == (Phase::Drain, recorded_all(m, lines_of(os))),
        renders(Phase::Drain, m, os) == 0,
    decreases os.len(),
{
    if os.len() > 0 {
        let init = os.drop_last();
        assert forall|i: int| 0 <= i < init.len() implies is_line(#[trigger] init[i]) by {
            assert(init[i] == os[i]);
        }
        lemma_lines_stay_draining(m, init);
        assert(lines_of(os).drop_last() == lines_of(init));
        assert(is_line(os[os.len() - 1]));
    }
}

/// Lines queued while the loop drains are all applied, in order, and the
/// screen is redrawn once for the whole burst, when the queue runs empty.
pub proof fn lemma_burst_renders_once(m: SessionModel, os: Seq<Outcome>)
    requires
        os.len() >= 1,
        os.last() is Empty,
        forall|i: int| 0 <= i < os.len() - 1 ==> is_line(#[trigger] os[i]),
    ensures
        run(Phase::Drain, m, os) == (Phase::Render, recorded_all(m, lines_of(os.drop_last()))),
        renders(Phase::Drain, m, os) == 1,
{
    let init = os.drop_last();
    assert forall|i: int| 0 <= i < init.len() implies is_line(#[trigger] init[i]) by {
        assert(init[i] == os[i]);
    }
    lemma_lines_stay_draining(m, init);
}

/// Carries out one step of the control loop: applies a received event and
/// tells which phase comes next.
pub fn advance(phase: Phase, outcome: Outcome, data: &mut Data) -> (next: Phase)
    requires
        old(data).wf(),
        old(data)@.total < u64::MAX,
    ensures
        final(data).wf(),
        (next, final(data)@) == step(phase, old(data)@, outcome),
{
    match phase {
        Phase::Render => match outcome {
            Outcome::Drawn => Phase::Wait,
            Outcome::DrawFailed => Phase::Exit,
            _ => Phase::Render,
        },
        Phase::Wait | Phase::Drain => match outcome {
            Outcome::Received(event) => {
                if handle_event(event, data) {
                    Phase::Exit
                } else {
                    Phase::Drain
                }
            },
            Outcome::Empty => {
                if phase == Phase::Drain {
                    Phase::Render
                } else {
                    Phase::Wait
                }
            },
            Outcome::Closed => Phase::Exit,
            _ => phase,
        },
        Phase::Exit => Phase::Exit,
    }
}

// ---------------------------------------------------------------------------
// Reassembling lines from the serial stream
// ---------------------------------------------------------------------------

/// The first newline at or after `i`.
pub open spec fn newline_from(s: Seq<char>, i: int) -> Option<int>
    decreases s.len() - i,
{
    if i < 0 || i >= s.len() {
        None
    } else if s[i] == '\n' {
        Some(i)
    } else {
        newline_from(s, i + 1)
    }
}

proof fn lemma_newline_from_bounds(s: Seq<char>, i: int)
    requires
        0 <= i,
    ensures
        newline_from(s, i) matches Some(j) ==> i <= j < s.len() && s[j] == '\n',
    decreases s.len() - i,
{
    if i < s.len() && s[i] != '\n' {
        lemma_newline_from_bounds(s, i + 1);
    }
}

/// Finds the first newline in `t` at or after `from`; `t.len()` where there is none.
pub(crate) fn find_newline(t: &Vec<char>, from: usize) -> (r: usize)
    requires
        from <= t.len(),
    ensures
        from <= r <= t.len(),
        r < t.len() ==> newline_from(t@, from as int) == Some(r as int),
        r == t.len() ==> newline_from(t@, from as int) is None,
{
    let mut i: usize = from;
    while i < t.len() && t[i] != '\n'
        invariant
            from <= i <= t.len(),
            newline_from(t@, from as int) == newline_from(t@, i as int),
        decreases t.len() - i,
    {
        i = i + 1;
    }
    i
}

/// Text received after the last complete line.
pub struct LineBuffer {
    remainder: String,
}

impl View for LineBuffer {
    type V = Seq<char>;

    closed spec fn view(&self) -> Seq<char> {
        self.remainder@
    }
}

impl LineBuffer {
    pub fn new() -> (b: LineBuffer)
        ensures
            b@ == Seq::<char>::empty(),
    {
        LineBuffer { remainder: String::new() }
    }

    /// Appends a chunk to what was left over. Where the text then holds a
    /// newline, returns the line before the first one and keeps what follows
    /// it; else keeps all of it and returns nothing.
    pub fn push_chunk(&mut self, chunk: &str) -> (line: Option<String>)
        ensures
            ({
                let all = old(self)@ + chunk@;
                match newline_from(all, 0) {
                    Some(i) => line matches Some(l) && l@ == all.take(i) && final(self)@ == all.skip(
                        i + 1,
                    ),
                    None => line is None && final(self)@ == all,
                }
            }),
    {
        let mut all = self.remainder.clone();
        all.append(chunk);
        let t = chars_of(all.as_str());
        let i = find_newline(&t, 0);
        if i < t.len() {
            let line = String::from_str(all.as_str().substring_char(0, i));
            self.remainder = String::from_str(all.as_str().substring_char(i + 1, t.len()));
            Some(line)
        } else {
            self.remainder = all;
            None
        }
    }

    /// What was received after the last complete line.
    pub fn remainder(&self) -> (r: &str)
        ensures
            r@ == self@,
    {
        self.remainder.as_str()
    }
}

} // verus!
