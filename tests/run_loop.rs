use pi_natives::control::{ControlMessage, ReaderEvent};
use pi_natives::run_loop::{
    exit_code_of, CancelKind, LoopAction, LoopEvent, PtyRunResult, RunState, StopCause,
};

fn chunk(s: &str) -> LoopEvent {
    LoopEvent::Reader(ReaderEvent::Chunk(s.to_string()))
}

#[test]
fn echo_hello_scenario() {
    let mut s = RunState::new();
    let mut delivered = String::new();
    for e in [chunk("hel"), chunk("lo\n"), LoopEvent::Exited(0), LoopEvent::Reader(ReaderEvent::Done)] {
        assert!(!s.is_finished());
        if let LoopAction::Emit(t) = s.step(e) {
            delivered.push_str(&t);
        }
    }
    assert!(s.is_finished());
    assert_eq!(delivered, "hello\n");
    assert_eq!(
        s.result(),
        PtyRunResult { exit_code: Some(0), cancelled: false, timed_out: false }
    );
}

#[test]
fn plain_exit_reports_its_code() {
    let mut s = RunState::new();
    s.step(LoopEvent::Exited(3));
    s.step(LoopEvent::Exited(9));
    s.step(LoopEvent::ReaderGone);
    assert!(s.is_finished());
    assert_eq!(s.result(), PtyRunResult { exit_code: Some(3), cancelled: false, timed_out: false });
}

#[test]
fn sleep_with_timeout_scenario() {
    let mut s = RunState::new();
    assert!(matches!(s.step(LoopEvent::TokenFailed(CancelKind::Timeout)), LoopAction::KillChild));
    assert!(!s.is_finished());
    assert!(s.needs_exit_status());
    s.step(LoopEvent::Reader(ReaderEvent::Done));
    s.step(LoopEvent::Exited(143));
    assert!(s.is_finished());
    assert_eq!(
        s.result(),
        PtyRunResult { exit_code: Some(143), cancelled: false, timed_out: true }
    );
}

#[test]
fn kill_reports_cancelled() {
    let mut s = RunState::new();
    assert!(matches!(s.step(LoopEvent::Control(ControlMessage::Kill)), LoopAction::KillChild));
    s.step(LoopEvent::TokenFailed(CancelKind::Timeout));
    s.step(LoopEvent::Exited(1));
    let r = s.result();
    assert!(r.cancelled);
    assert!(!r.timed_out);
    assert_eq!(s.cause, StopCause::Killed);
}

#[test]
fn signal_reports_cancelled_and_first_cause_stands() {
    let mut s = RunState::new();
    s.step(LoopEvent::TokenFailed(CancelKind::Signal));
    s.step(LoopEvent::TokenFailed(CancelKind::Timeout));
    let r = s.result();
    assert!(r.cancelled);
    assert!(!r.timed_out);
}

#[test]
fn input_is_written_unchanged() {
    let mut s = RunState::new();
    match s.step(LoopEvent::Control(ControlMessage::Input("abc\n".to_string()))) {
        LoopAction::WriteInput(t) => assert_eq!(t, "abc\n"),
        _ => panic!("expected a write"),
    }
    assert_eq!(s, RunState::new());
}

#[test]
fn resize_in_loop_is_clamped() {
    let mut s = RunState::new();
    match s.step(LoopEvent::Control(ControlMessage::Resize { cols: 5, rows: 1000 })) {
        LoopAction::ApplyResize { cols, rows } => {
            assert_eq!((cols, rows), (20, 200));
        },
        _ => panic!("expected a resize"),
    }
}

#[test]
fn exit_status_past_signed_range_saturates() {
    assert_eq!(exit_code_of(0), 0);
    assert_eq!(exit_code_of(255), 255);
    assert_eq!(exit_code_of(2147483647), i32::MAX);
    assert_eq!(exit_code_of(2147483648), i32::MAX);
    assert_eq!(exit_code_of(u32::MAX), i32::MAX);
}
