//! Terminal dimensions: defaults and the bounds every requested size is
//! clamped to.

use vstd::prelude::*;

verus! {

pub const DEFAULT_COLS: u16 = 120;

pub const MIN_COLS: u16 = 20;

pub const MAX_COLS: u16 = 400;

pub const DEFAULT_ROWS: u16 = 40;

pub const MIN_ROWS: u16 = 5;

pub const MAX_ROWS: u16 = 200;

/// `v` brought into `[lo, hi]`.
pub open spec fn clamp_to(v: int, lo: int, hi: int) -> int {
    if v < lo {
        lo
    } else if v > hi {
        hi
    } else {
        v
    }
}

/// A column count within the accepted bounds.
pub fn clamp_cols(cols: u16) -> (r: u16)
    ensures
        r == clamp_to(cols as int, MIN_COLS as int, MAX_COLS as int),
        MIN_COLS <= r <= MAX_COLS,
{
    if cols < MIN_COLS {
        MIN_COLS
    } else if cols > MAX_COLS {
        MAX_COLS
    } else {
        cols
    }
}

/// A row count within the accepted bounds.
pub fn clamp_rows(rows: u16) -> (r: u16)
    ensures
        r == clamp_to(rows as int, MIN_ROWS as int, MAX_ROWS as int),
        MIN_ROWS <= r <= MAX_ROWS,
{
    if rows < MIN_ROWS {
        MIN_ROWS
    } else if rows > MAX_ROWS {
        MAX_ROWS
    } else {
        rows
    }
}

/// The size of a terminal, in character cells.
#[derive(Clone, Copy, Debug, PartialEq, Eq)]
pub struct TermSize {
    pub cols: u16,
    pub rows: u16,
}

impl TermSize {
    /// Both dimensions lie within their bounds.
    pub open spec fn in_bounds(&self) -> bool {
        MIN_COLS <= self.cols <= MAX_COLS && MIN_ROWS <= self.rows <= MAX_ROWS
    }

    /// The size applied for a request: a missing dimension takes its default,
    /// and each is clamped.
    pub fn resolve(cols: Option<u16>, rows: Option<u16>) -> (r: TermSize)
        ensures
            r.cols == clamp_to(
                (match cols {
                    Some(c) => c,
                    None => DEFAULT_COLS,
                }) as int,
                MIN_COLS as int,
                MAX_COLS as int,
            ),
            r.rows == clamp_to(
                (match rows {
                    Some(v) => v,
                    None => DEFAULT_ROWS,
                }) as int,
                MIN_ROWS as int,
                MAX_ROWS as int,
            ),
            r.in_bounds(),
    {
        let c = match cols {
            Some(c) => c,
            None => DEFAULT_COLS,
        };
        let v = match rows {
            Some(v) => v,
            None => DEFAULT_ROWS,
        };
        TermSize { cols: clamp_cols(c), rows: clamp_rows(v) }
    }
}

/// Every size request lands within bounds, and one already within bounds is
/// applied unchanged.
pub proof fn lemma_clamp_in_bounds(cols: u16, rows: u16)
    ensures
        MIN_COLS <= clamp_to(cols as int, MIN_COLS as int, MAX_COLS as int) <= MAX_COLS,
        MIN_ROWS <= clamp_to(rows as int, MIN_ROWS as int, MAX_ROWS as int) <= MAX_ROWS,
        MIN_COLS <= cols <= MAX_COLS ==> clamp_to(cols as int, MIN_COLS as int, MAX_COLS as int)
            == cols,
        MIN_ROWS <= rows <= MAX_ROWS ==> clamp_to(rows as int, MIN_ROWS as int, MAX_ROWS as int)
            == rows,
{
}

} // verus!
