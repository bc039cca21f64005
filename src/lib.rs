//! Decision core of a pseudo-terminal command session: byte reassembly of the
//! terminal's output into text, the reader's events, the run loop's state
//! machine, terminal size clamping and the single-run control slot of a
//! session handle.

pub mod config;
pub mod control;
pub mod reader;
pub mod reassembler;
pub mod run_loop;
pub mod size;
