//! Terminal cell pixel geometry.

use vstd::prelude::*;

verus! {

/// Fallback cell size `(width, height)` in pixels: the canonical 2:1
/// monospace cell.
pub const TYPICAL_CELL_PIXELS: (u16, u16) = (10, 20);

/// A terminal window size report: grid size and whole-window pixel size.
#[derive(Debug, Clone, Copy, PartialEq, Eq, Structural)]
pub struct WindowSize {
    pub columns: u16,
    pub rows: u16,
    pub width: u16,
    pub height: u16,
}

/// Size of one cell in pixels from a window report: window pixels divided
/// by the grid size (at least 1), or [`TYPICAL_CELL_PIXELS`] when there is
/// no report or any of its values is zero.
pub fn cell_pixel_size(report: Option<WindowSize>) -> (c: (u16, u16))
    ensures
        match report {
            Some(ws) => if ws.width > 0 && ws.height > 0 && ws.columns > 0 && ws.rows > 0 {
                c.0 == (if ws.width / ws.columns >= 1 { ws.width / ws.columns } else { 1 })
                && c.1 == (if ws.height / ws.rows >= 1 { ws.height / ws.rows } else { 1 })
            } else {
                c == TYPICAL_CELL_PIXELS
            },
            None => c == TYPICAL_CELL_PIXELS,
        },
        c.0 >= 1 && c.1 >= 1,
{
    match report {
        Some(ws) => {
            if ws.width > 0 && ws.height > 0 && ws.columns > 0 && ws.rows > 0 {
                let cw = ws.width / ws.columns;
                let ch = ws.height / ws.rows;
                (if cw >= 1 { cw } else { 1 }, if ch >= 1 { ch } else { 1 })
            } else {
                TYPICAL_CELL_PIXELS
            }
        },
        None => TYPICAL_CELL_PIXELS,
    }
}

} // verus!
