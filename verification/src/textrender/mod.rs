//! The text rendering model: what the renderer is asked to draw, and which
//! characters and strings end up at which screen positions.  The terminal
//! itself is driven elsewhere.

pub mod map;
pub mod printbox;
pub mod textbox;

use vstd::prelude::*;
use crate::Coord;
use self::textbox::TextBox;

verus! {

/// What a layout's render script asks to be drawn, between a top left and a
/// bottom right screen coordinate.
pub enum RenderCommand {
    Renderable(TextBox, Coord, Coord),
    TextMap(Coord, Coord),
    PrintBox(Coord, Coord),
}

/// A string to draw at row `y`, column `x`, of at most `max_len` characters.
pub struct TextDraw {
    pub y: usize,
    pub x: usize,
    pub text: String,
    pub max_len: usize,
}

} // verus!
