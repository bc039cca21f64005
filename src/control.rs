//! Messages into a running session, and the slot through which a session
//! handle reaches its one active run.

use vstd::prelude::*;
use crate::size::{clamp_cols, clamp_rows, clamp_to, MIN_COLS, MAX_COLS, MIN_ROWS, MAX_ROWS};

verus! {

#[verifier::external_type_specification]
#[verifier::external_body]
#[verifier::reject_recursive_types(T)]
pub struct ExSender<T>(std::sync::mpsc::Sender<T>);

/// An instruction for the run loop, sent while a command runs.
pub enum ControlMessage {
    /// Text to write to the terminal's input.
    Input(String),
    /// New terminal dimensions.
    Resize { cols: u16, rows: u16 },
    /// Stop the command.
    Kill,
}

impl ControlMessage {
    /// A resize request, with both dimensions clamped to their bounds.
    pub fn resize(cols: u16, rows: u16) -> (r: ControlMessage)
        ensures
            r == (ControlMessage::Resize {
                cols: clamp_to(cols as int, MIN_COLS as int, MAX_COLS as int) as u16,
                rows: clamp_to(rows as int, MIN_ROWS as int, MAX_ROWS as int) as u16,
            }),
    {
        ControlMessage::Resize { cols: clamp_cols(cols), rows: clamp_rows(rows) }
    }
}

/// What the output reader hands to the run loop.
pub enum ReaderEvent {
    /// The next piece of output text.
    Chunk(String),
    /// The output has ended; nothing follows.
    Done,
}

/// Why a session operation was refused.
#[derive(Clone, Copy, Debug, PartialEq, Eq)]
pub enum SessionError {
    /// The handle's slot lock was poisoned by a panic.
    LockPoisoned,
    /// A run is still active on this handle.
    AlreadyRunning,
    /// No run is active on this handle.
    NotRunning,
    /// The run loop has already ended and no longer takes messages.
    SessionGone,
}

impl SessionError {
    /// The text that reports the error to a caller.
    pub fn message(&self) -> (r: String)
        ensures
            *self == SessionError::LockPoisoned ==> r@ == "PTY session lock poisoned"@,
            *self == SessionError::AlreadyRunning ==> r@ == "PTY session already running"@,
            *self == SessionError::NotRunning ==> r@ == "PTY session is not running"@,
            *self == SessionError::SessionGone ==> r@ == "PTY session is no longer available"@,
    {
        match self {
            SessionError::LockPoisoned => String::from_str("PTY session lock poisoned"),
            SessionError::AlreadyRunning => String::from_str("PTY session already running"),
            SessionError::NotRunning => String::from_str("PTY session is not running"),
            SessionError::SessionGone => String::from_str("PTY session is no longer available"),
        }
    }
}

/// Relies on `std::sync::mpsc::Sender::send`: it hands the message to the
/// receiving end, and fails only when that end has been dropped. Which of the
/// two happens depends on the receiver, so nothing is stated of the result.
#[verifier::external_body]
fn channel_send(tx: &std::sync::mpsc::Sender<ControlMessage>, message: ControlMessage) -> (r: bool) {
    tx.send(message).is_ok()
}

/// The result of asking to install a run into a slot that is, or is not,
/// occupied: the slot's new occupancy and the answer.
pub open spec fn install_outcome(running: bool) -> (bool, Result<(), SessionError>) {
    if running {
        (true, Err(SessionError::AlreadyRunning))
    } else {
        (true, Ok(()))
    }
}

/// Holds the sending end of the active run's control channel, if a run is
/// active.
pub struct ControlSlot {
    sender: Option<std::sync::mpsc::Sender<ControlMessage>>,
}

impl View for ControlSlot {
    type V = bool;

    /// Whether a run is active.
    closed spec fn view(&self) -> bool {
        self.sender.is_some()
    }
}

impl ControlSlot {
    pub fn new() -> (r: ControlSlot)
        ensures
            !r@,
    {
        ControlSlot { sender: None }
    }

    pub fn is_running(&self) -> (r: bool)
        ensures
            r == self@,
    {
        self.sender.is_some()
    }

    /// Installs the control channel of a new run; refused while another run
    /// is active, in which case the slot is left as it was.
    pub fn install(&mut self, tx: std::sync::mpsc::Sender<ControlMessage>) -> (r: Result<
        (),
        SessionError,
    >)
        ensures
            (final(self)@, r) == install_outcome(old(self)@),
            old(self)@ ==> *final(self) == *old(self),
    {
        if self.sender.is_some() {
            Err(SessionError::AlreadyRunning)
        } else {
            self.sender = Some(tx);
            Ok(())
        }
    }

    /// Empties the slot once the run has ended, however it ended.
    pub fn clear(&mut self)
        ensures
            !final(self)@,
    {
        self.sender = None;
    }

    /// Sends a message to the active run. Refused when no run is active, and
    /// when the run loop has already let go of its receiving end; otherwise
    /// the answer is what `send_outcome` makes of the channel's.
    pub fn send(&self, message: ControlMessage) -> (r: Result<(), SessionError>)
        ensures
            !self@ ==> r == Err::<(), SessionError>(SessionError::NotRunning),
            self@ ==> exists|sent: bool| r == send_outcome_spec(sent),
    {
        match &self.sender {
            None => Err(SessionError::NotRunning),
            Some(tx) => send_outcome(channel_send(tx, message)),
        }
    }
}

/// The answer to a caller for a message that the channel took (`sent`) or
/// refused because the run loop is gone.
pub open spec fn send_outcome_spec(sent: bool) -> Result<(), SessionError> {
    if sent {
        Ok(())
    } else {
        Err(SessionError::SessionGone)
    }
}

/// Maps the channel's answer to the caller's: a message the channel took is
/// accepted, and one it refused is reported, never silently dropped.
pub fn send_outcome(sent: bool) -> (r: Result<(), SessionError>)
    ensures
        r == send_outcome_spec(sent),
        sent ==> r == Ok::<(), SessionError>(()),
        !sent ==> r == Err::<(), SessionError>(SessionError::SessionGone),
{
    if sent {
        Ok(())
    } else {
        Err(SessionError::SessionGone)
    }
}

/// At most one run at a time: a second start while a run is active is refused
/// and leaves it active, and once the slot has been cleared a new start is
/// accepted.
pub proof fn lemma_one_run_at_a_time(running: bool)
    ensures
        install_outcome(install_outcome(running).0).1 == Err::<(), SessionError>(
            SessionError::AlreadyRunning,
        ),
        install_outcome(install_outcome(running).0).0,
        install_outcome(false).1 == Ok::<(), SessionError>(()),
{
}

} // verus!
