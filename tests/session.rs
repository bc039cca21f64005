use std::collections::HashMap;
use std::sync::mpsc;

use pi_natives::config::{PtyRunConfig, PtyStartOptions};
use pi_natives::control::{send_outcome, ControlMessage, ControlSlot, SessionError};
use pi_natives::size::{clamp_cols, clamp_rows, TermSize};

#[test]
fn resize_request_is_clamped() {
    match ControlMessage::resize(5, 1000) {
        ControlMessage::Resize { cols, rows } => assert_eq!((cols, rows), (20, 200)),
        _ => panic!("expected a resize"),
    }
    match ControlMessage::resize(100, 30) {
        ControlMessage::Resize { cols, rows } => assert_eq!((cols, rows), (100, 30)),
        _ => panic!("expected a resize"),
    }
}

#[test]
fn clamp_bounds() {
    assert_eq!(clamp_cols(0), 20);
    assert_eq!(clamp_cols(20), 20);
    assert_eq!(clamp_cols(400), 400);
    assert_eq!(clamp_cols(u16::MAX), 400);
    assert_eq!(clamp_rows(4), 5);
    assert_eq!(clamp_rows(201), 200);
    assert_eq!(clamp_rows(77), 77);
}

#[test]
fn default_size() {
    assert_eq!(TermSize::resolve(None, None), TermSize { cols: 120, rows: 40 });
    assert_eq!(TermSize::resolve(Some(1000), Some(1)), TermSize { cols: 400, rows: 5 });
}

#[test]
fn second_start_refused_until_cleared() {
    let mut slot = ControlSlot::new();
    assert!(!slot.is_running());
    let (tx1, _rx1) = mpsc::channel();
    assert_eq!(slot.install(tx1), Ok(()));
    let (tx2, _rx2) = mpsc::channel();
    assert_eq!(slot.install(tx2), Err(SessionError::AlreadyRunning));
    assert!(slot.is_running());
    slot.clear();
    assert!(!slot.is_running());
    let (tx3, _rx3) = mpsc::channel();
    assert_eq!(slot.install(tx3), Ok(()));
}

#[test]
fn send_without_run_is_refused() {
    let slot = ControlSlot::new();
    assert_eq!(slot.send(ControlMessage::Kill), Err(SessionError::NotRunning));
}

#[test]
fn send_reaches_the_loop_in_order() {
    let mut slot = ControlSlot::new();
    let (tx, rx) = mpsc::channel();
    slot.install(tx).unwrap();
    assert_eq!(slot.send(ControlMessage::Input("one".to_string())), Ok(()));
    assert_eq!(slot.send(ControlMessage::Kill), Ok(()));
    assert!(matches!(rx.try_recv(), Ok(ControlMessage::Input(t)) if t == "one"));
    assert!(matches!(rx.try_recv(), Ok(ControlMessage::Kill)));
}

#[test]
fn send_after_loop_ended_is_gone() {
    let mut slot = ControlSlot::new();
    let (tx, rx) = mpsc::channel();
    slot.install(tx).unwrap();
    drop(rx);
    assert_eq!(slot.send(ControlMessage::Kill), Err(SessionError::SessionGone));
}

#[test]
fn error_messages() {
    assert_eq!(SessionError::AlreadyRunning.message(), "PTY session already running");
    assert_eq!(SessionError::NotRunning.message(), "PTY session is not running");
    assert_eq!(SessionError::SessionGone.message(), "PTY session is no longer available");
    assert_eq!(SessionError::LockPoisoned.message(), "PTY session lock poisoned");
}

#[test]
fn run_config_from_options() {
    let mut env = HashMap::new();
    env.insert("A".to_string(), "1".to_string());
    let options = PtyStartOptions {
        command: "echo hello".to_string(),
        cwd: Some("/tmp".to_string()),
        env: Some(env),
        timeout_ms: Some(50),
        cols: Some(5),
        rows: None,
    };
    let (config, timeout) = PtyRunConfig::from_options(options);
    assert_eq!(timeout, Some(50));
    assert_eq!(config.size, TermSize { cols: 20, rows: 40 });
    assert_eq!(config.cwd.as_deref(), Some("/tmp"));
    assert_eq!(config.env.as_ref().and_then(|e| e.get("A")).map(|v| v.as_str()), Some("1"));
    assert_eq!(config.shell_program(), "sh");
    assert_eq!(config.shell_args(), vec!["-lc".to_string(), "echo hello".to_string()]);
}

#[test]
fn channel_answer_maps_to_result() {
    assert_eq!(send_outcome(true), Ok(()));
    assert_eq!(send_outcome(false), Err(SessionError::SessionGone));
}

#[test]
fn refused_start_keeps_first_run_reachable() {
    let mut slot = ControlSlot::new();
    let (tx1, rx1) = mpsc::channel();
    slot.install(tx1).unwrap();
    let (tx2, rx2) = mpsc::channel();
    assert_eq!(slot.install(tx2), Err(SessionError::AlreadyRunning));
    assert_eq!(slot.send(ControlMessage::Kill), Ok(()));
    assert!(matches!(rx1.try_recv(), Ok(ControlMessage::Kill)));
    assert!(rx2.try_recv().is_err());
}
