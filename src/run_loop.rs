//! The run loop's decisions, from the state it has reached and the next thing
//! it observed to its next state and the action to perform.
//!
//! The loop polls a cancellation token, drains control messages and reader
//! events, and polls the child's exit status. It ends once the exit status is
//! known and the reader has finished; only then is a result built.

use vstd::prelude::*;
use crate::control::{ControlMessage, ReaderEvent};
use crate::size::{clamp_cols, clamp_rows, clamp_to, MIN_COLS, MAX_COLS, MIN_ROWS, MAX_ROWS};

verus! {

/// How a cancellation token failed.
#[derive(Clone, Copy, Debug, PartialEq, Eq)]
pub enum CancelKind {
    /// Its deadline elapsed.
    Timeout,
    /// Cancellation was requested from outside.
    Signal,
}

/// Why the command was stopped, if it was.
#[derive(Clone, Copy, Debug, PartialEq, Eq)]
pub enum StopCause {
    /// The command has not been stopped.
    NotStopped,
    /// The deadline elapsed first.
    TimedOut,
    /// Cancellation was requested from outside first.
    Signalled,
    /// A kill request arrived; it outranks the other causes.
    Killed,
}

/// What the run loop observed.
pub enum LoopEvent {
    /// A poll of the cancellation token failed.
    TokenFailed(CancelKind),
    /// A control message arrived.
    Control(ControlMessage),
    /// The reader sent an event.
    Reader(ReaderEvent),
    /// The reader's channel was closed without a final event.
    ReaderGone,
    /// The child exited with this status code.
    Exited(u32),
}

/// What the run loop must do next.
pub enum LoopAction {
    /// Nothing to do.
    Nothing,
    /// Kill the child; a failure is ignored.
    KillChild,
    /// Write this text to the terminal; a failure is ignored.
    WriteInput(String),
    /// Apply these dimensions to the terminal; a failure is ignored.
    ApplyResize { cols: u16, rows: u16 },
    /// Hand this text to the output sink.
    Emit(String),
}

/// The final report of a run.
#[derive(Clone, Copy, Debug, PartialEq, Eq)]
pub struct PtyRunResult {
    /// The exit code of the command.
    pub exit_code: Option<i32>,
    /// Whether the command was cancelled by a signal or a kill request.
    pub cancelled: bool,
    /// Whether the command ran past its deadline.
    pub timed_out: bool,
}

/// An exit status as a signed exit code; one past the signed range reads as
/// the largest signed value.
pub open spec fn exit_code_spec(status: u32) -> i32 {
    if status <= i32::MAX as u32 {
        status as i32
    } else {
        i32::MAX
    }
}

pub fn exit_code_of(status: u32) -> (r: i32)
    ensures
        r == exit_code_spec(status),
{
    if status <= i32::MAX as u32 {
        status as i32
    } else {
        i32::MAX
    }
}

/// The state of one run as the loop sees it.
#[derive(Clone, Copy, Debug, PartialEq, Eq)]
pub struct RunState {
    pub cause: StopCause,
    pub reader_done: bool,
    pub exit_code: Option<i32>,
}

/// The cause after a token failure: an explicit kill is kept, and otherwise
/// the first failure recorded stands.
pub open spec fn cause_after_token(cause: StopCause, kind: CancelKind) -> StopCause {
    match cause {
        StopCause::NotStopped => match kind {
            CancelKind::Timeout => StopCause::TimedOut,
            CancelKind::Signal => StopCause::Signalled,
        },
        _ => cause,
    }
}

/// The state after the loop observes `e` in state `s`.
pub open spec fn next_state(s: RunState, e: LoopEvent) -> RunState {
    match e {
        LoopEvent::TokenFailed(kind) => RunState { cause: cause_after_token(s.cause, kind), ..s },
        LoopEvent::Control(ControlMessage::Kill) => RunState { cause: StopCause::Killed, ..s },
        LoopEvent::Control(_) => s,
        LoopEvent::Reader(ReaderEvent::Chunk(_)) => s,
        LoopEvent::Reader(ReaderEvent::Done) => RunState { reader_done: true, ..s },
        LoopEvent::ReaderGone => RunState { reader_done: true, ..s },
        LoopEvent::Exited(status) => match s.exit_code {
            None => RunState { exit_code: Some(exit_code_spec(status)), ..s },
            Some(_) => s,
        },
    }
}

/// Whether `a` is the action owed for the event `e`.
pub open spec fn action_for(e: LoopEvent, a: LoopAction) -> bool {
    match e {
        LoopEvent::TokenFailed(_) => a is KillChild,
        LoopEvent::Control(ControlMessage::Kill) => a is KillChild,
        LoopEvent::Control(ControlMessage::Input(text)) => a matches LoopAction::WriteInput(t)
            && t@ == text@,
        LoopEvent::Control(ControlMessage::Resize { cols, rows }) => a == (LoopAction::ApplyResize {
            cols: clamp_to(cols as int, MIN_COLS as int, MAX_COLS as int) as u16,
            rows: clamp_to(rows as int, MIN_ROWS as int, MAX_ROWS as int) as u16,
        }),
        LoopEvent::Reader(ReaderEvent::Chunk(text)) => a matches LoopAction::Emit(t) && t@
            == text@,
        _ => a is Nothing,
    }
}

/// The state reached from `s` after the events `evs`, in order.
pub open spec fn run_events(s: RunState, evs: Seq<LoopEvent>) -> RunState
    decreases evs.len(),
{
    if evs.len() == 0 {
        s
    } else {
        run_events(next_state(s, evs[0]), evs.skip(1))
    }
}

/// The report built from a final state.
pub open spec fn result_of(s: RunState) -> PtyRunResult {
    PtyRunResult {
        exit_code: s.exit_code,
        cancelled: s.cause is Signalled || s.cause is Killed,
        timed_out: s.cause is TimedOut,
    }
}

impl RunState {
    /// The state of a run that has just started.
    pub open spec fn initial() -> RunState {
        RunState { cause: StopCause::NotStopped, reader_done: false, exit_code: None }
    }

    pub fn new() -> (r: RunState)
        ensures
            r == RunState::initial(),
    {
        RunState { cause: StopCause::NotStopped, reader_done: false, exit_code: None }
    }

    /// Takes in one observation and says what to do about it.
    pub fn step(&mut self, e: LoopEvent) -> (a: LoopAction)
        ensures
            *final(self) == next_state(*old(self), e),
            action_for(e, a),
    {
        match e {
            LoopEvent::TokenFailed(kind) => {
                if let StopCause::NotStopped = self.cause {
                    self.cause = match kind {
                        CancelKind::Timeout => StopCause::TimedOut,
                        CancelKind::Signal => StopCause::Signalled,
                    };
                }
                LoopAction::KillChild
            },
            LoopEvent::Control(ControlMessage::Kill) => {
                self.cause = StopCause::Killed;
                LoopAction::KillChild
            },
            LoopEvent::Control(ControlMessage::Input(text)) => LoopAction::WriteInput(text),
            LoopEvent::Control(ControlMessage::Resize { cols, rows }) => LoopAction::ApplyResize {
                cols: clamp_cols(cols),
                rows: clamp_rows(rows),
            },
            LoopEvent::Reader(ReaderEvent::Chunk(text)) => LoopAction::Emit(text),
            LoopEvent::Reader(ReaderEvent::Done) => {
                self.reader_done = true;
                LoopAction::Nothing
            },
            LoopEvent::ReaderGone => {
                self.reader_done = true;
                LoopAction::Nothing
            },
            LoopEvent::Exited(status) => {
                if self.exit_code.is_none() {
                    self.exit_code = Some(exit_code_of(status));
                }
                LoopAction::Nothing
            },
        }
    }

    /// Whether the loop may stop: the exit status is known and the reader has
    /// finished.
    pub fn is_finished(&self) -> (r: bool)
        ensures
            r == (self.exit_code.is_some() && self.reader_done),
    {
        self.exit_code.is_some() && self.reader_done
    }

    /// Whether the exit status is still to be waited for.
    pub fn needs_exit_status(&self) -> (r: bool)
        ensures
            r == self.exit_code.is_none(),
    {
        self.exit_code.is_none()
    }

    /// The report of the run.
    pub fn result(&self) -> (r: PtyRunResult)
        ensures
            r == result_of(*self),
            !(r.cancelled && r.timed_out),
    {
        PtyRunResult {
            exit_code: self.exit_code,
            cancelled: match self.cause {
                StopCause::Signalled => true,
                StopCause::Killed => true,
                _ => false,
            },
            timed_out: match self.cause {
                StopCause::TimedOut => true,
                _ => false,
            },
        }
    }
}

/// Whether an event is a token failure because the deadline elapsed.
pub open spec fn is_timeout(e: LoopEvent) -> bool {
    e matches LoopEvent::TokenFailed(CancelKind::Timeout)
}

/// Whether an event is a token failure because cancellation was requested.
pub open spec fn is_signal(e: LoopEvent) -> bool {
    e matches LoopEvent::TokenFailed(CancelKind::Signal)
}

/// Whether an event is an explicit kill request.
pub open spec fn is_kill(e: LoopEvent) -> bool {
    e matches LoopEvent::Control(ControlMessage::Kill)
}

proof fn lemma_killed_stays(s: RunState, evs: Seq<LoopEvent>)
    requires
        s.cause is Killed,
    ensures
        run_events(s, evs).cause is Killed,
    decreases evs.len(),
{
    if evs.len() > 0 {
        lemma_killed_stays(next_state(s, evs[0]), evs.skip(1));
    }
}

proof fn lemma_kill_wins(s: RunState, evs: Seq<LoopEvent>, i: int)
    requires
        0 <= i < evs.len(),
        is_kill(evs[i]),
    ensures
        run_events(s, evs).cause is Killed,
    decreases evs.len(),
{
    if i == 0 {
        lemma_killed_stays(next_state(s, evs[0]), evs.skip(1));
    } else {
        lemma_kill_wins(next_state(s, evs[0]), evs.skip(1), i - 1);
    }
}

/// A run in which a kill request arrived reports itself cancelled, and not
/// timed out, whatever else happened.
pub proof fn lemma_kill_reports_cancelled(evs: Seq<LoopEvent>, i: int)
    requires
        0 <= i < evs.len(),
        is_kill(evs[i]),
    ensures
        result_of(run_events(RunState::initial(), evs)).cancelled,
        !result_of(run_events(RunState::initial(), evs)).timed_out,
{
    lemma_kill_wins(RunState::initial(), evs, i);
}

proof fn lemma_timeout_only(s: RunState, evs: Seq<LoopEvent>)
    requires
        s.cause is NotStopped || s.cause is TimedOut,
        forall|j: int|
            0 <= j < evs.len() ==> !is_kill(#[trigger] evs[j]) && !is_signal(evs[j]),
    ensures
        s.cause is TimedOut ==> run_events(s, evs).cause is TimedOut,
        forall|j: int|
            0 <= j < evs.len() && #[trigger] is_timeout(evs[j]) ==> run_events(s, evs).cause is TimedOut,
        run_events(s, evs).cause is NotStopped || run_events(s, evs).cause is TimedOut,
    decreases evs.len(),
{
    if evs.len() > 0 {
        let rest = evs.skip(1);
        assert forall|j: int| 0 <= j < rest.len() implies !is_kill(#[trigger] rest[j]) && !is_signal(rest[j]) by {
            assert(rest[j] == evs[j + 1]);
        }
        lemma_timeout_only(next_state(s, evs[0]), rest);
        assert forall|j: int|
            0 <= j < evs.len() && #[trigger] is_timeout(evs[j]) implies run_events(s, evs).cause is TimedOut by {
            if j > 0 {
                assert(rest[j - 1] == evs[j]);
            }
        }
    }
}

/// A run whose deadline elapsed, with no kill request and no outside
/// cancellation, reports itself timed out and not cancelled.
pub proof fn lemma_timeout_reports_timed_out(evs: Seq<LoopEvent>, i: int)
    requires
        0 <= i < evs.len(),
        is_timeout(evs[i]),
        forall|j: int|
            0 <= j < evs.len() ==> !is_kill(#[trigger] evs[j]) && !is_signal(evs[j]),
    ensures
        result_of(run_events(RunState::initial(), evs)).timed_out,
        !result_of(run_events(RunState::initial(), evs)).cancelled,
{
    lemma_timeout_only(RunState::initial(), evs);
}

proof fn lemma_plain_run(s: RunState, evs: Seq<LoopEvent>, status: u32)
    requires
        s.cause is NotStopped,
        s.exit_code is None || s.exit_code == Some(exit_code_spec(status)),
        forall|j: int|
            0 <= j < evs.len() ==> !is_kill(#[trigger] evs[j]) && !(evs[j] is TokenFailed) && (
            evs[j] is Exited ==> evs[j] == LoopEvent::Exited(status)),
    ensures
        run_events(s, evs).cause is NotStopped,
        s.exit_code is Some ==> run_events(s, evs).exit_code == s.exit_code,
        (exists|j: int| 0 <= j < evs.len() && #[trigger] evs[j] is Exited) ==> run_events(
            s,
            evs,
        ).exit_code == Some(exit_code_spec(status)),
        run_events(s, evs).exit_code is None || run_events(s, evs).exit_code == Some(
            exit_code_spec(status),
        ),
    decreases evs.len(),
{
    if evs.len() > 0 {
        let rest = evs.skip(1);
        assert forall|j: int| 0 <= j < rest.len() implies !is_kill(#[trigger] rest[j]) && !(
        rest[j] is TokenFailed) && (rest[j] is Exited ==> rest[j] == LoopEvent::Exited(status)) by {
            assert(rest[j] == evs[j + 1]);
        }
        lemma_plain_run(next_state(s, evs[0]), rest, status);
        if exists|j: int| 0 <= j < evs.len() && #[trigger] evs[j] is Exited {
            let j = choose|j: int| 0 <= j < evs.len() && #[trigger] evs[j] is Exited;
            if j > 0 {
                assert(rest[j - 1] == evs[j]);
            }
        }
    }
}

/// A run in which the command exited by itself with a code in the signed
/// range, with no kill request and no token failure, reports that code and
/// neither cancellation nor timeout.
pub proof fn lemma_plain_exit_reports_code(evs: Seq<LoopEvent>, i: int, code: u32)
    requires
        code <= i32::MAX as u32,
        0 <= i < evs.len(),
        evs[i] == LoopEvent::Exited(code),
        forall|j: int|
            0 <= j < evs.len() ==> !is_kill(#[trigger] evs[j]) && !(evs[j] is TokenFailed) && (
            evs[j] is Exited ==> evs[j] == LoopEvent::Exited(code)),
    ensures
        result_of(run_events(RunState::initial(), evs)) == (PtyRunResult {
            exit_code: Some(code as i32),
            cancelled: false,
            timed_out: false,
        }),
{
    assert(evs[i] is Exited);
    lemma_plain_run(RunState::initial(), evs, code);
}

/// The text of the reader's chunks among `evs`, in order.
pub open spec fn chunk_text(evs: Seq<LoopEvent>) -> Seq<char>
    decreases evs.len(),
{
    if evs.len() == 0 {
        Seq::empty()
    } else {
        let head = match evs[0] {
            LoopEvent::Reader(ReaderEvent::Chunk(t)) => t@,
            _ => Seq::empty(),
        };
        head + chunk_text(evs.skip(1))
    }
}

/// The text of the input messages among `evs`, in order.
pub open spec fn input_text(evs: Seq<LoopEvent>) -> Seq<char>
    decreases evs.len(),
{
    if evs.len() == 0 {
        Seq::empty()
    } else {
        let head = match evs[0] {
            LoopEvent::Control(ControlMessage::Input(t)) => t@,
            _ => Seq::empty(),
        };
        head + input_text(evs.skip(1))
    }
}

/// The text handed to the output sink by `acts`, in order.
pub open spec fn emitted_text(acts: Seq<LoopAction>) -> Seq<char>
    decreases acts.len(),
{
    if acts.len() == 0 {
        Seq::empty()
    } else {
        let head = match acts[0] {
            LoopAction::Emit(t) => t@,
            _ => Seq::empty(),
        };
        head + emitted_text(acts.skip(1))
    }
}

/// The text written to the terminal by `acts`, in order.
pub open spec fn written_text(acts: Seq<LoopAction>) -> Seq<char>
    decreases acts.len(),
{
    if acts.len() == 0 {
        Seq::empty()
    } else {
        let head = match acts[0] {
            LoopAction::WriteInput(t) => t@,
            _ => Seq::empty(),
        };
        head + written_text(acts.skip(1))
    }
}

/// The loop passes text through unchanged and in order: when each event is
/// answered with the action owed for it, the text handed to the sink is the
/// reader's chunks joined, and the text written to the terminal is the input
/// messages joined.
pub proof fn lemma_text_passes_through_in_order(evs: Seq<LoopEvent>, acts: Seq<LoopAction>)
    requires
        acts.len() == evs.len(),
        forall|i: int| 0 <= i < evs.len() ==> action_for(#[trigger] evs[i], acts[i]),
    ensures
        emitted_text(acts) == chunk_text(evs),
        written_text(acts) == input_text(evs),
    decreases evs.len(),
{
    if evs.len() > 0 {
        let (re, ra) = (evs.skip(1), acts.skip(1));
        assert forall|i: int| 0 <= i < re.len() implies action_for(#[trigger] re[i], ra[i]) by {
            assert(re[i] == evs[i + 1]);
            assert(ra[i] == acts[i + 1]);
        }
        lemma_text_passes_through_in_order(re, ra);
        assert(action_for(evs[0], acts[0]));
    }
}

} // verus!
