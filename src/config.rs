//! What a run is started with, and the shell invocation built from it.

use std::collections::HashMap;
use vstd::prelude::*;
use crate::size::{clamp_to, TermSize, DEFAULT_COLS, DEFAULT_ROWS, MIN_COLS, MAX_COLS, MIN_ROWS, MAX_ROWS};

verus! {

/// Options for running a command in a terminal session.
pub struct PtyStartOptions {
    /// Command line, run by the shell.
    pub command: String,
    /// Working directory for the command.
    pub cwd: Option<String>,
    /// Environment variables added to the inherited environment.
    pub env: Option<HashMap<String, String>>,
    /// Deadline in milliseconds, after which the command is stopped.
    pub timeout_ms: Option<u32>,
    /// Requested column count.
    pub cols: Option<u16>,
    /// Requested row count.
    pub rows: Option<u16>,
}

/// The settings of one run; fixed once the run starts.
pub struct PtyRunConfig {
    pub command: String,
    pub cwd: Option<String>,
    pub env: Option<HashMap<String, String>>,
    pub size: TermSize,
}

impl PtyRunConfig {
    /// The run settings for a start request, and its deadline. The terminal
    /// size takes its defaults and is clamped.
    pub fn from_options(options: PtyStartOptions) -> (r: (PtyRunConfig, Option<u32>))
        ensures
            r.0.command@ == options.command@,
            r.0.cwd == options.cwd,
            r.0.env == options.env,
            r.0.size.cols == clamp_to(
                (match options.cols {
                    Some(c) => c,
                    None => DEFAULT_COLS,
                }) as int,
                MIN_COLS as int,
                MAX_COLS as int,
            ),
            r.0.size.rows == clamp_to(
                (match options.rows {
                    Some(v) => v,
                    None => DEFAULT_ROWS,
                }) as int,
                MIN_ROWS as int,
                MAX_ROWS as int,
            ),
            r.1 == options.timeout_ms,
    {
        let size = TermSize::resolve(options.cols, options.rows);
        (
            PtyRunConfig { command: options.command, cwd: options.cwd, env: options.env, size },
            options.timeout_ms,
        )
    }

    /// The program that runs the command line.
    pub fn shell_program(&self) -> (r: String)
        ensures
            r@ == seq!['s', 'h'],
    {
        proof {
            reveal_strlit("sh");
        }
        String::from_str("sh")
    }

    /// The shell's arguments: a login shell that runs the command line.
    pub fn shell_args(&self) -> (r: Vec<String>)
        ensures
            r@.len() == 2,
            r@[0]@ == seq!['-', 'l', 'c'],
            r@[1]@ == self.command@,
    {
        proof {
            reveal_strlit("-lc");
        }
        let mut args: Vec<String> = Vec::new();
        args.push(String::from_str("-lc"));
        args.push(self.command.clone());
        args
    }
}

} // verus!
