//! The print box: a queue of messages of which the first is shown.  A
//! message longer than the box is wide is queued as several pieces.

use vstd::prelude::*;
use vstd::string::*;
use crate::Coord;
use crate::textitem::{TextItem, TextItemView};
use super::TextDraw;

verus! {

/// Commands that scripts send to the print box.
pub enum PrintCommand {
    NewText(TextItem),
    Next,
    Clear,
}

/// Message `t` with the text `text` in its place.
pub open spec fn with_text(t: TextItemView, text: Seq<char>) -> TextItemView {
    TextItemView { text: text, colour: t.colour, options: t.options }
}

/// The entries that message `t` is queued as in a box `width` characters
/// wide: the whole message when it fits or the width is 0; otherwise its
/// first `width` characters, then the entries of the rest.  Each entry keeps
/// the message's colour and options.
pub open spec fn split_message(t: TextItemView, width: nat) -> Seq<TextItemView>
    decreases t.text.len(),
{
    if width == 0 || t.text.len() <= width {
        seq![t]
    } else {
        seq![with_text(t, t.text.take(width as int))] + split_message(
            with_text(t, t.text.skip(width as int)),
            width,
        )
    }
}

/// The texts of `s` one after the other.
pub open spec fn joined(s: Seq<TextItemView>) -> Seq<char>
    decreases s.len(),
{
    if s.len() == 0 {
        Seq::empty()
    } else {
        s[0].text + joined(s.drop_first())
    }
}

/// The messages after one command, in a box `width` characters wide.
pub open spec fn print_step(text: Seq<TextItemView>, cmd: PrintCommand, width: nat) -> Seq<TextItemView> {
    match cmd {
        PrintCommand::NewText(t) => text + split_message(t@, width),
        PrintCommand::Next => if text.len() == 0 {
            text
        } else {
            text.drop_first()
        },
        PrintCommand::Clear => Seq::empty(),
    }
}

/// The messages after a list of commands, applied in order.
pub open spec fn print_steps(text: Seq<TextItemView>, cmds: Seq<PrintCommand>, width: nat) -> Seq<
    TextItemView,
>
    decreases cmds.len(),
{
    if cmds.len() == 0 {
        text
    } else {
        print_steps(print_step(text, cmds[0], width), cmds.drop_first(), width)
    }
}

/// The contents of a list of text items.
pub open spec fn views(s: Seq<TextItem>) -> Seq<TextItemView> {
    Seq::new(s.len(), |i: int| s[i]@)
}

/// Queues `t` at the end of `out` as the entries it is split into in a box
/// `width` characters wide.
fn push_split(out: &mut Vec<TextItem>, t: TextItem, width: usize)
    ensures
        views(final(out)@) == views(old(out)@) + split_message(t@, width as nat),
{
    let ghost w = width as nat;
    let n = t.text.as_str().unicode_len();
    if width == 0 || n <= width {
        let ghost tv = t@;
        out.push(t);
        assert(views(out@) =~= views(old(out)@) + split_message(tv, w));
        return;
    }
    let mut start: usize = 0;
    assert(t.text@.subrange(0, n as int) =~= t.text@);
    assert(with_text(t@, t.text@.subrange(0, n as int)) == t@);
    while n - start > width
        invariant
            start <= n,
            n == t.text@.len(),
            width > 0,
            w == width,
            views(out@) + split_message(with_text(t@, t.text@.subrange(start as int, n as int)), w)
                == views(old(out)@) + split_message(t@, w),
        decreases n - start,
    {
        let ghost rest = with_text(t@, t.text@.subrange(start as int, n as int));
        let ghost before = views(out@);
        let mut piece = t.duplicate();
        piece.text = String::from_str(t.text.as_str().substring_char(start, start + width));
        out.push(piece);
        proof {
            assert(rest.text.take(w as int) =~= t.text@.subrange(start as int, start + width));
            assert(rest.text.skip(w as int) =~= t.text@.subrange(start + width, n as int));
            assert(split_message(rest, w) == seq![with_text(rest, rest.text.take(w as int))]
                + split_message(with_text(rest, rest.text.skip(w as int)), w));
            assert(views(out@) =~= before.push(with_text(rest, rest.text.take(w as int))));
            assert(views(out@) + split_message(with_text(t@, t.text@.subrange(start + width, n as int)), w)
                =~= before + split_message(rest, w));
        }
        start = start + width;
    }
    let ghost before = views(out@);
    let ghost rest = with_text(t@, t.text@.subrange(start as int, n as int));
    let mut last = t.duplicate();
    last.text = String::from_str(t.text.as_str().substring_char(start, n));
    out.push(last);
    proof {
        assert(split_message(rest, w) == seq![rest]);
        assert(views(out@) =~= before + split_message(rest, w));
    }
}

/// The print box.
pub struct PrintBox {
    display_text: Vec<TextItem>,
}

impl PrintBox {
    /// The entries waiting in the box, the shown one first.
    pub closed spec fn messages(&self) -> Seq<TextItemView> {
        views(self.display_text@)
    }

    /// An empty print box.
    pub fn new() -> (r: PrintBox)
        ensures
            r.messages() == Seq::<TextItemView>::empty(),
    {
        let r = PrintBox { display_text: Vec::new() };
        assert(r.messages() =~= Seq::<TextItemView>::empty());
        r
    }

    /// The number of waiting entries.
    pub fn len(&self) -> (r: usize)
        ensures
            r == self.messages().len(),
    {
        self.display_text.len()
    }

    /// Applies the commands in order, for a box `width` characters wide: a
    /// new text joins the end of the queue, split into pieces of `width`
    /// characters when it is longer; `Next` drops the shown entry so that the
    /// next one is shown; `Clear` empties the queue.
    pub fn process_commands(&mut self, cmds: Vec<PrintCommand>, width: usize)
        ensures
            final(self).messages() == print_steps(old(self).messages(), cmds@, width as nat),
    {
        let ghost init = cmds@;
        let mut rest = cmds;
        while rest.len() > 0
            invariant
                print_steps(old(self).messages(), init, width as nat) == print_steps(
                    self.messages(),
                    rest@,
                    width as nat,
                ),
            decreases rest@.len(),
        {
            let ghost before = rest@;
            let ghost msgs = self.messages();
            let c = rest.remove(0);
            assert(rest@ =~= before.drop_first());
            match c {
                PrintCommand::NewText(t) => {
                    push_split(&mut self.display_text, t, width);
                },
                PrintCommand::Next => {
                    if self.display_text.len() > 0 {
                        self.display_text.remove(0);
                    }
                    assert(self.messages() =~= print_step(msgs, c, width as nat));
                },
                PrintCommand::Clear => {
                    self.display_text.clear();
                    assert(self.messages() =~= print_step(msgs, c, width as nat));
                },
            }
        }
    }

    /// The shown entry drawn between `top_left` and `bottom_right`: its text
    /// at the top left, cut to the width of the area; nothing when the box is
    /// empty.
    pub fn render(&self, top_left: Coord, bottom_right: Coord) -> (r: Option<TextDraw>)
        requires
            top_left.0 <= bottom_right.0,
        ensures
            self.messages().len() == 0 <==> r is None,
            r matches Some(d) ==> {
                &&& d.y == top_left.1
                &&& d.x == top_left.0
                &&& d.text@ == self.messages()[0].text
                &&& d.max_len == bottom_right.0 - top_left.0
            },
    {
        let length = bottom_right.0 - top_left.0;
        if self.display_text.len() == 0 {
            None
        } else {
            Some(
                TextDraw {
                    y: top_left.1,
                    x: top_left.0,
                    text: self.display_text[0].text.clone(),
                    max_len: length,
                },
            )
        }
    }
}

/// A message is queued as pieces that, one after the other, spell its text;
/// in a box of some width each piece fits the width, and each keeps the
/// message's colour and options.
pub proof fn law_split_pieces(t: TextItemView, width: nat)
    ensures
        joined(split_message(t, width)) == t.text,
        split_message(t, width).len() >= 1,
        forall|i: int|
            0 <= i < split_message(t, width).len() ==> {
                &&& width > 0 ==> (#[trigger] split_message(t, width)[i]).text.len() <= width
                &&& split_message(t, width)[i].colour == t.colour
                &&& split_message(t, width)[i].options == t.options
            },
    decreases t.text.len(),
{
    let s = split_message(t, width);
    if width == 0 || t.text.len() <= width {
        assert(s.drop_first() =~= Seq::<TextItemView>::empty());
        assert(joined(s.drop_first()) =~= Seq::<char>::empty());
        assert(t.text + Seq::<char>::empty() =~= t.text);
    } else {
        let head = with_text(t, t.text.take(width as int));
        let tail = with_text(t, t.text.skip(width as int));
        law_split_pieces(tail, width);
        assert(s.drop_first() =~= split_message(tail, width));
        assert(t.text.take(width as int) + t.text.skip(width as int) =~= t.text);
        assert forall|i: int| 0 <= i < s.len() implies {
            &&& width > 0 ==> (#[trigger] s[i]).text.len() <= width
            &&& s[i].colour == t.colour
            &&& s[i].options == t.options
        } by {
            if i > 0 {
                assert(s[i] == split_message(tail, width)[i - 1]);
            }
        }
    }
}

/// Applying two lists of commands one after the other is applying the two
/// lists joined: the box ends the same however the commands are batched.
pub proof fn law_print_batches(text: Seq<TextItemView>, a: Seq<PrintCommand>, b: Seq<PrintCommand>, width: nat)
    ensures
        print_steps(text, a + b, width) == print_steps(print_steps(text, a, width), b, width),
    decreases a.len(),
{
    if a.len() > 0 {
        assert((a + b).drop_first() =~= a.drop_first() + b);
        assert((a + b)[0] == a[0]);
        law_print_batches(print_step(text, a[0], width), a.drop_first(), b, width);
    } else {
        assert(a + b =~= b);
    }
}

/// After `Clear`, the box holds only what later commands add.
pub proof fn law_clear_forgets(text: Seq<TextItemView>, cmds: Seq<PrintCommand>, width: nat)
    ensures
        print_steps(text, seq![PrintCommand::Clear] + cmds, width) == print_steps(Seq::empty(), cmds, width),
{
    law_print_batches(text, seq![PrintCommand::Clear], cmds, width);
    assert(print_steps(Seq::empty(), Seq::<PrintCommand>::empty(), width) == Seq::<TextItemView>::empty());
    assert(seq![PrintCommand::Clear].drop_first() =~= Seq::<PrintCommand>::empty());
}

} // verus!
