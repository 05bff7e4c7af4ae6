//! The interactive judging protocol as a state machine.
//!
//! The machine does no input or output itself. Its driver performs the
//! action that a step returns (writing to the contestant's program, reading
//! a line from it, waiting for it to exit) and reports what happened as the
//! next event.

use vstd::prelude::*;
use vstd::string::StrSliceExecFns;
use crate::error::{JudgeError, JudgeErrorView};
use crate::input::{Input, InputView};
use crate::output::{parse_pair, validate_line};
use crate::score::{compute_score_details, in_score_range, score_of};
use crate::text::{trim, trimmed};
use crate::verdict::{failed, scored, verdict_of, JudgeVerdict, JudgeVerdictView};

verus! {

/// What the driver reports to the machine.
#[derive(Clone, Debug, PartialEq, Eq)]
pub enum Event {
    /// The session begins.
    Start,
    /// The text last handed out was written and flushed.
    Written,
    /// A line was read from the contestant's program.
    Line(String),
    /// The contestant's program closed its output, or reading failed.
    Closed,
    /// The contestant's program has terminated.
    Exited,
}

/// The mathematical content of an `Event`.
pub enum EventView {
    Start,
    Written,
    Line(Seq<char>),
    Closed,
    Exited,
}

impl View for Event {
    type V = EventView;

    open spec fn view(&self) -> EventView {
        match self {
            Event::Start => EventView::Start,
            Event::Written => EventView::Written,
            Event::Line(text) => EventView::Line(text@),
            Event::Closed => EventView::Closed,
            Event::Exited => EventView::Exited,
        }
    }
}

/// What the machine asks of the driver.
#[derive(Clone, Debug, PartialEq, Eq)]
pub enum Action {
    /// Write this text to the contestant's program and flush, then report
    /// `Written`.
    Write(String),
    /// Read one line from the contestant's program, then report it as
    /// `Line`, or `Closed` if there is none.
    Read,
    /// Wait until the contestant's program has terminated, then report
    /// `Exited`.
    Wait,
    /// Nothing more is to be done.
    Stop,
}

/// The mathematical content of an `Action`.
pub enum ActionView {
    Write(Seq<char>),
    Read,
    Wait,
    Stop,
}

impl View for Action {
    type V = ActionView;

    open spec fn view(&self) -> ActionView {
        match self {
            Action::Write(text) => ActionView::Write(text@),
            Action::Read => ActionView::Read,
            Action::Wait => ActionView::Wait,
            Action::Stop => ActionView::Stop,
        }
    }
}

/// The states of a session.
pub enum SessionState {
    /// Nothing has happened yet.
    Init,
    /// The instance is being written; `sent` lines were written before the
    /// one that is under way.
    WritingInput { sent: nat },
    /// Line number `pairs.len()` of the answer is awaited; `pairs` are the
    /// lines accepted so far.
    ReadingLine { pairs: Seq<(usize, usize)> },
    /// All lines were accepted; the program's exit is awaited.
    AwaitingExit { table: Seq<(usize, usize)> },
    /// The table is being replayed and scored.
    Scoring { table: Seq<(usize, usize)> },
    /// The session ended with a score.
    Done { score: int },
    /// The session ended with a failure.
    Failed { error: JudgeErrorView },
}

/// A line that is not part of the answer: blank, or a comment, which begins
/// with `#` once the whitespace around the line is taken away.
pub open spec fn is_noise(line: Seq<char>) -> bool {
    let t = trimmed(line);
    t.len() == 0 || t[0] == '#'
}

/// The event is one that the state waits for.
pub open spec fn awaits(s: SessionState, e: EventView) -> bool {
    match (s, e) {
        (SessionState::Init, EventView::Start) => true,
        (SessionState::WritingInput { .. }, EventView::Written) => true,
        (SessionState::ReadingLine { .. }, EventView::Line(_)) => true,
        (SessionState::ReadingLine { .. }, EventView::Closed) => true,
        (SessionState::AwaitingExit { .. }, EventView::Exited) => true,
        _ => false,
    }
}

/// The state that follows `s` on event `e` in a session on `input`.
///
/// An event that the state does not wait for changes nothing. A line that
/// is noise is passed over; any other line must hold two positions and
/// nothing else, and the first line that does not, or the end of the
/// output before the last line, ends the session in failure at once.
pub open spec fn advance(input: InputView, s: SessionState, e: EventView) -> SessionState {
    match (s, e) {
        (SessionState::Init, EventView::Start) => SessionState::WritingInput { sent: 0 },
        (SessionState::WritingInput { sent }, EventView::Written) => if sent == 0 {
            SessionState::WritingInput { sent: 1 }
        } else {
            SessionState::ReadingLine { pairs: Seq::empty() }
        },
        (SessionState::ReadingLine { pairs }, EventView::Line(text)) => if is_noise(text) {
            s
        } else {
            match validate_line(trimmed(text), input.n) {
                Err(error) => SessionState::Failed { error },
                Ok(pair) => if pairs.len() + 1 == input.n {
                    SessionState::AwaitingExit { table: pairs.push(pair) }
                } else {
                    SessionState::ReadingLine { pairs: pairs.push(pair) }
                },
            }
        },
        (SessionState::ReadingLine { pairs }, EventView::Closed) => SessionState::Failed {
            error: JudgeErrorView::ProcessTerminated,
        },
        (SessionState::AwaitingExit { table }, EventView::Exited) => SessionState::Scoring {
            table,
        },
        _ => s,
    }
}

/// Scoring needs nothing from outside: a session that has come to it ends
/// with the score of its table.
pub open spec fn settle(input: InputView, s: SessionState) -> SessionState {
    match s {
        SessionState::Scoring { table } => SessionState::Done { score: score_of(input, table) },
        _ => s,
    }
}

/// What the driver is to do once the session is in state `s`.
pub open spec fn pending(input: InputView, s: SessionState) -> ActionView {
    match s {
        SessionState::WritingInput { sent } => if sent == 0 {
            ActionView::Write(input.header_line())
        } else {
            ActionView::Write(input.targets_line())
        },
        SessionState::ReadingLine { .. } => ActionView::Read,
        SessionState::AwaitingExit { .. } => ActionView::Wait,
        _ => ActionView::Stop,
    }
}

/// A session that has ended stays as it is: in `Done` and in `Failed` no
/// event is waited for and none changes the state, so a failure is never
/// retried and a score never revised.
pub proof fn lemma_ended_sessions_stay(input: InputView, s: SessionState, e: EventView)
    requires
        s is Done || s is Failed,
    ensures
        !awaits(s, e),
        settle(input, advance(input, s, e)) == s,
{
}

/// A session fails only while it reads the answer: from any other state no
/// event leads to `Failed`.
pub proof fn lemma_failure_comes_from_reading(input: InputView, s: SessionState, e: EventView)
    requires
        !(s is Failed),
        settle(input, advance(input, s, e)) is Failed,
    ensures
        s is ReadingLine,
        e is Line || e is Closed,
{
}

/// The outcome of a session that has ended; a session that has not has
/// none.
pub open spec fn outcome(s: SessionState) -> Option<Result<int, JudgeErrorView>> {
    match s {
        SessionState::Done { score } => Some(Ok(score)),
        SessionState::Failed { error } => Some(Err(error)),
        _ => None,
    }
}

/// The verdict of a session that has ended.
pub open spec fn verdict_for(s: SessionState) -> Option<JudgeVerdictView> {
    match outcome(s) {
        Some(o) => Some(verdict_of(o)),
        None => None,
    }
}

enum Phase {
    Init,
    WritingInput { sent: usize },
    ReadingLine { pairs: Vec<(usize, usize)> },
    AwaitingExit { table: Vec<(usize, usize)> },
    Done { score: i64 },
    Failed { error: JudgeError },
}

/// One judging session on one instance.
pub struct Session {
    input: Input,
    phase: Phase,
}

/// The mathematical content of a `Session`.
pub struct SessionView {
    pub input: InputView,
    pub state: SessionState,
}

/// Every entry of `pairs` names two positions of a table of size `n`.
pub open spec fn pairs_in_range(pairs: Seq<(usize, usize)>, n: usize) -> bool {
    forall|i: int| 0 <= i < pairs.len() ==> (#[trigger] pairs[i]).0 < n && pairs[i].1 < n
}

impl View for Session {
    type V = SessionView;

    closed spec fn view(&self) -> SessionView {
        SessionView {
            input: self.input@,
            state: match self.phase {
                Phase::Init => SessionState::Init,
                Phase::WritingInput { sent } => SessionState::WritingInput { sent: sent as nat },
                Phase::ReadingLine { pairs } => SessionState::ReadingLine { pairs: pairs@ },
                Phase::AwaitingExit { table } => SessionState::AwaitingExit { table: table@ },
                Phase::Done { score } => SessionState::Done { score: score as int },
                Phase::Failed { error } => SessionState::Failed { error: error@ },
            },
        }
    }
}

impl Session {
    #[verifier::type_invariant]
    spec fn inv(&self) -> bool {
        &&& self.input@.wf()
        &&& in_score_range(self.input@)
        &&& match self.phase {
            Phase::WritingInput { sent } => sent <= 1,
            Phase::ReadingLine { pairs } => pairs@.len() < self.input.n && pairs_in_range(
                pairs@,
                self.input.n,
            ),
            Phase::AwaitingExit { table } => table@.len() == self.input.n && pairs_in_range(
                table@,
                self.input.n,
            ),
            _ => true,
        }
    }

    /// A session on `input` in which nothing has happened yet.
    pub fn new(input: Input) -> (s: Session)
        requires
            input@.wf(),
            in_score_range(input@),
        ensures
            s@.input == input@,
            s@.state == SessionState::Init,
    {
        Session { input, phase: Phase::Init }
    }

    /// Takes the session one event further and says what the driver is to
    /// do next.
    ///
    /// The new state is the one that follows on the event, with scoring
    /// carried out as soon as it is reached. Where the state did not wait
    /// for the event, nothing changes and the driver is told to stop.
    pub fn step(self, event: Event) -> (r: (Session, Action))
        ensures
            r.0@.input == self@.input,
            r.0@.state == settle(self@.input, advance(self@.input, self@.state, event@)),
            r.1@ == if awaits(self@.state, event@) {
                pending(self@.input, r.0@.state)
            } else {
                ActionView::Stop
            },
    {
        proof {
            use_type_invariant(&self);
        }
        let Session { input, phase } = self;
        match (phase, event) {
            (Phase::Init, Event::Start) => {
                let text = input.header_line();
                (Session { input, phase: Phase::WritingInput { sent: 0 } }, Action::Write(text))
            },
            (Phase::WritingInput { sent }, Event::Written) => {
                if sent == 0 {
                    let text = input.targets_line();
                    (Session { input, phase: Phase::WritingInput { sent: 1 } }, Action::Write(text))
                } else {
                    (Session { input, phase: Phase::ReadingLine { pairs: Vec::new() } }, Action::Read)
                }
            },
            (Phase::ReadingLine { pairs }, Event::Line(text)) => {
                match significant(text.as_str()) {
                    None => (Session { input, phase: Phase::ReadingLine { pairs } }, Action::Read),
                    Some(line) => match parse_pair(line.as_str(), input.n) {
                        Err(error) => (Session { input, phase: Phase::Failed { error } }, Action::Stop),
                        Ok(pair) => {
                            let mut pairs = pairs;
                            pairs.push(pair);
                            if pairs.len() == input.n {
                                (
                                    Session { input, phase: Phase::AwaitingExit { table: pairs } },
                                    Action::Wait,
                                )
                            } else {
                                (Session { input, phase: Phase::ReadingLine { pairs } }, Action::Read)
                            }
                        },
                    },
                }
            },
            (Phase::ReadingLine { pairs }, Event::Closed) => {
                (
                    Session { input, phase: Phase::Failed { error: JudgeError::ProcessTerminated } },
                    Action::Stop,
                )
            },
            (Phase::AwaitingExit { table }, Event::Exited) => {
                let (score, _, _) = compute_score_details(&input, table.as_slice());
                (Session { input, phase: Phase::Done { score } }, Action::Stop)
            },
            (phase, _) => (Session { input, phase }, Action::Stop),
        }
    }

    /// The verdict of the session, once it has ended: its score, or 0 and
    /// the message of its failure.
    pub fn verdict(&self) -> (v: Option<JudgeVerdict>)
        ensures
            match v {
                Some(verdict) => verdict_for(self@.state) == Some(verdict@) && verdict@.wf(),
                None => verdict_for(self@.state) is None,
            },
    {
        match &self.phase {
            Phase::Done { score } => Some(scored(*score)),
            Phase::Failed { error } => Some(failed(error)),
            _ => None,
        }
    }
}

/// The part of a line that belongs to the answer: the line without the
/// whitespace around it, unless it is noise.
pub fn significant(raw: &str) -> (line: Option<String>)
    ensures
        match line {
            Some(t) => !is_noise(raw@) && t@ == trimmed(raw@),
            None => is_noise(raw@),
        },
{
    let t = trim(raw);
    if t.as_str().is_empty() || t.as_str().get_char(0) == '#' {
        None
    } else {
        Some(t)
    }
}

} // verus!
