//! A box of fixed text on the screen.

use vstd::prelude::*;
use crate::Coord;
use super::TextDraw;

verus! {

/// Text placed on the screen by a render script.
pub struct TextBox {
    text: String,
}

impl TextBox {
    /// A box that shows `text`.
    pub fn new(text: String) -> (r: TextBox)
        ensures
            r.text() == text@,
    {
        TextBox { text: text }
    }

    /// The text of the box.
    pub closed spec fn text(&self) -> Seq<char> {
        self.text@
    }

    /// The box drawn between `top_left` and `bottom_right`: its text at the
    /// top left, cut to the width of the area.
    pub fn render(&self, top_left: Coord, bottom_right: Coord) -> (r: TextDraw)
        requires
            top_left.0 <= bottom_right.0,
        ensures
            r.y == top_left.1,
            r.x == top_left.0,
            r.text@ == self.text(),
            r.max_len == bottom_right.0 - top_left.0,
    {
        let length = bottom_right.0 - top_left.0;
        TextDraw { y: top_left.1, x: top_left.0, text: self.text.clone(), max_len: length }
    }
}

} // verus!
