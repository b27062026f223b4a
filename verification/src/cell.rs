//! Cells and their two-layer color model.
//!
//! Every cell keeps a *committed* color (the paint that survives a
//! gesture) and a *display* color (what is currently shown). A pending
//! gesture previews itself by setting the display layer to a darkened
//! "hint" of the committed color; reverting a hint restores the display
//! layer from the committed one.

use crate::hex::HexCoord;
use crate::grid::Pos;
use vstd::prelude::*;

verus! {

/// How much each color channel is darkened for a hint tint.
pub const HINT_SHADE: u8 = 51;

/// An RGBA color with 8-bit channels.
#[derive(PartialEq, Eq, Structural, Hash, Debug, Clone, Copy)]
pub struct Color {
    pub red: u8,
    pub green: u8,
    pub blue: u8,
    pub alpha: u8,
}

impl Color {
    /// The default color of a freshly created cell (white).
    pub fn white() -> (c: Color)
        ensures
            c == (Color { red: 255, green: 255, blue: 255, alpha: 255 }),
    {
        Color { red: 255, green: 255, blue: 255, alpha: 255 }
    }

    /// Opaque blue, the initial paint color of a draw session.
    pub fn blue() -> (c: Color)
        ensures
            c == (Color { red: 0, green: 0, blue: 255, alpha: 255 }),
    {
        Color { red: 0, green: 0, blue: 255, alpha: 255 }
    }
}

/// One channel darkened by the hint shade, saturating at zero.
pub open spec fn shade_channel(x: u8) -> u8 {
    if x >= HINT_SHADE {
        (x - HINT_SHADE) as u8
    } else {
        0
    }
}

/// The hint tint of a committed color: a fixed darkening of the color
/// channels, alpha preserved.
pub open spec fn hint_of(c: Color) -> Color {
    Color {
        red: shade_channel(c.red),
        green: shade_channel(c.green),
        blue: shade_channel(c.blue),
        alpha: c.alpha,
    }
}

/// The turn-highlight of a token color: channels saturate to full
/// brightness, alpha preserved.
pub open spec fn highlight_of(c: Color) -> Color {
    Color { red: 255, green: 255, blue: 255, alpha: c.alpha }
}

/// One channel darkened by the hint shade, saturating at zero.
pub fn shade_channel_exec(x: u8) -> (r: u8)
    ensures
        r == shade_channel(x),
{
    if x >= HINT_SHADE {
        x - HINT_SHADE
    } else {
        0
    }
}

/// The hint tint of a committed color.
pub fn hint_color(c: &Color) -> (r: Color)
    ensures
        r == hint_of(*c),
{
    Color {
        red: shade_channel_exec(c.red),
        green: shade_channel_exec(c.green),
        blue: shade_channel_exec(c.blue),
        alpha: c.alpha,
    }
}

/// The turn-highlight of a token color.
pub fn highlight_color(c: &Color) -> (r: Color)
    ensures
        r == highlight_of(*c),
{
    Color { red: 255, green: 255, blue: 255, alpha: c.alpha }
}

/// A cell of the grid: its coordinate, a handle for the rendering layer,
/// and the two color layers.
#[derive(PartialEq, Eq, Structural, Hash, Debug, Clone, Copy)]
pub struct Cell {
    /// Opaque identifier handed to the rendering layer.
    pub id: u64,
    /// The coordinate this cell occupies.
    pub pos: HexCoord,
    /// The committed (stored) color.
    pub color: Color,
    /// The transient display color.
    pub display: Color,
}

/// A discrete pointer-gesture event, as resolved by the input layer.
pub enum CellEvent {
    /// The pointer was pressed on the cell at this coordinate.
    Pressed(HexCoord),
    /// The gesture ended; the payload is the pixel offset travelled
    /// from the starting cell.
    Released(Pos),
    /// The pointer moved over the cell at this coordinate.
    Over(HexCoord),
}

} // verus!
