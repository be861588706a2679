//! Turning a cell's colour into what the window paints.
//!
//! A terminal colour says "indexed 4" or "default"; what those are belongs to
//! the theme. This module decides which theme slot or which exact RGB value a
//! colour stands for, so switching themes is a re-render rather than a
//! re-parse. The theme's own colours, and the fading of dim text, are the
//! window's.

use vstd::prelude::*;

verus! {

/// Whether a colour stands in for the foreground or the background.
#[derive(Debug, Clone, Copy, PartialEq, Eq, Structural)]
pub enum Slot {
    Foreground,
    Background,
}

/// A terminal cell's colour as the terminal reports it.
#[derive(Debug, Clone, Copy, PartialEq, Eq, Structural)]
pub enum VtColor {
    Default,
    Rgb(u8, u8, u8),
    Indexed(u8),
}

/// What a colour resolves to: one of the theme's terminal colours, or an
/// exact RGB value.
#[derive(Debug, Clone, Copy, PartialEq, Eq, Structural)]
pub enum Paint {
    /// The theme's terminal foreground or background.
    ThemeDefault(Slot),
    /// One of the theme's sixteen named ANSI colours (`0` black to `15`
    /// bright white).
    ThemeAnsi(u8),
    Rgb(u8, u8, u8),
}

/// A step of the xterm 6×6×6 cube: 0, then 95 + 40(n − 1).
pub open spec fn spec_cube_step(n: u8) -> u8 {
    if n == 0 {
        0
    } else {
        (95 + 40 * (n - 1)) as u8
    }
}

pub fn cube_step(n: u8) -> (value: u8)
    requires
        n < 6,
    ensures
        value == spec_cube_step(n),
{
    if n == 0 {
        0
    } else {
        95 + 40 * (n - 1)
    }
}

/// What an indexed colour is: the sixteen ANSI slots come from the theme,
/// 16..=231 are the xterm cube and 232..=255 the greyscale ramp.
pub open spec fn spec_indexed(index: u8) -> Paint {
    if index < 16 {
        Paint::ThemeAnsi(index)
    } else if index <= 231 {
        let value = (index - 16) as u8;
        Paint::Rgb(
            spec_cube_step(value / 36),
            spec_cube_step(((value % 36) / 6) as u8),
            spec_cube_step(value % 6),
        )
    } else {
        let level = (8 + 10 * (index - 232)) as u8;
        Paint::Rgb(level, level, level)
    }
}

pub fn indexed(index: u8) -> (paint: Paint)
    ensures
        paint == spec_indexed(index),
{
    if index < 16 {
        Paint::ThemeAnsi(index)
    } else if index <= 231 {
        let value = index - 16;
        Paint::Rgb(cube_step(value / 36), cube_step((value % 36) / 6), cube_step(value % 6))
    } else {
        let level = 8 + 10 * (index - 232);
        Paint::Rgb(level, level, level)
    }
}

/// Resolves one colour in one slot.
pub open spec fn spec_resolve(color: VtColor, slot: Slot) -> Paint {
    match color {
        VtColor::Default => Paint::ThemeDefault(slot),
        VtColor::Rgb(r, g, b) => Paint::Rgb(r, g, b),
        VtColor::Indexed(index) => spec_indexed(index),
    }
}

pub fn resolve(color: VtColor, slot: Slot) -> (paint: Paint)
    ensures
        paint == spec_resolve(color, slot),
{
    match color {
        VtColor::Default => Paint::ThemeDefault(slot),
        VtColor::Rgb(r, g, b) => Paint::Rgb(r, g, b),
        VtColor::Indexed(index) => indexed(index),
    }
}

/// The foreground and background a cell is painted with: `inverse` swaps
/// both the colours and the slots they are read in.
pub open spec fn spec_cell_paints(fg: VtColor, bg: VtColor, inverse: bool) -> (Paint, Paint) {
    if inverse {
        (spec_resolve(bg, Slot::Background), spec_resolve(fg, Slot::Foreground))
    } else {
        (spec_resolve(fg, Slot::Foreground), spec_resolve(bg, Slot::Background))
    }
}

pub fn cell_paints(fg: VtColor, bg: VtColor, inverse: bool) -> (paints: (Paint, Paint))
    ensures
        paints == spec_cell_paints(fg, bg, inverse),
{
    let (fg_color, bg_color) = if inverse {
        (bg, fg)
    } else {
        (fg, bg)
    };
    let (fg_slot, bg_slot) = if inverse {
        (Slot::Background, Slot::Foreground)
    } else {
        (Slot::Foreground, Slot::Background)
    };
    (resolve(fg_color, fg_slot), resolve(bg_color, bg_slot))
}

/// Inverse swaps the two painted colours, slots included.
pub proof fn lemma_inverse_swaps(fg: VtColor, bg: VtColor)
    ensures
        spec_cell_paints(fg, bg, true) == (spec_cell_paints(fg, bg, false).1, spec_cell_paints(
            fg,
            bg,
            false,
        ).0),
{
}

/// Default means something different in each slot.
pub proof fn lemma_default_depends_on_slot()
    ensures
        spec_resolve(VtColor::Default, Slot::Foreground) != spec_resolve(
            VtColor::Default,
            Slot::Background,
        ),
{
}

/// True colour passes through untouched.
pub proof fn lemma_true_colour_passes_through(r: u8, g: u8, b: u8, slot: Slot)
    ensures
        spec_resolve(VtColor::Rgb(r, g, b), slot) == Paint::Rgb(r, g, b),
{
}

/// Every entry of the greyscale ramp is grey, and the ramp rises by ten.
pub proof fn lemma_ramp_is_grey(index: u8)
    requires
        232 <= index,
    ensures
        spec_indexed(index) == Paint::Rgb(
            (8 + 10 * (index - 232)) as u8,
            (8 + 10 * (index - 232)) as u8,
            (8 + 10 * (index - 232)) as u8,
        ),
        8 <= 8 + 10 * (index - 232) <= 238,
{
}

/// The cube's corners are black (16) and white (231), and its steps only
/// rise.
pub proof fn lemma_cube_corners_and_steps(n: u8, m: u8)
    requires
        n < m < 6,
    ensures
        spec_indexed(16) == Paint::Rgb(0, 0, 0),
        spec_indexed(231) == Paint::Rgb(255, 255, 255),
        spec_cube_step(n) < spec_cube_step(m),
{
}

} // verus!
