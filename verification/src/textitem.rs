//! Text items: a string with a colour and display options.

use vstd::prelude::*;
use vstd::utf8::*;
use vstd::string::*;
use crate::strutil::str_equal;

verus! {

/// The colours a text item can take.
#[derive(Debug, Clone, Copy, PartialEq, Eq, Structural)]
pub enum TextColour {
    Default,
    Black,
    White,
    Red,
    Blue,
    Green,
    Yellow,
    Orange,
    Purple,
    Grey,
}

/// The colour named by `s`, if `s` names one.
pub open spec fn colour_named(s: Seq<char>) -> Option<TextColour> {
    if s == "default"@ {
        Some(TextColour::Default)
    } else if s == "black"@ {
        Some(TextColour::Black)
    } else if s == "white"@ {
        Some(TextColour::White)
    } else if s == "red"@ {
        Some(TextColour::Red)
    } else if s == "blue"@ {
        Some(TextColour::Blue)
    } else if s == "green"@ {
        Some(TextColour::Green)
    } else if s == "yellow"@ {
        Some(TextColour::Yellow)
    } else if s == "orange"@ {
        Some(TextColour::Orange)
    } else if s == "purple"@ {
        Some(TextColour::Purple)
    } else if s == "grey"@ {
        Some(TextColour::Grey)
    } else {
        None
    }
}

impl TextColour {
    /// Reads a colour from its lower-case name.
    pub fn from_str(col: &str) -> (r: Option<TextColour>)
        ensures
            r == colour_named(col@),
    {
        if str_equal(col, "default") {
            Some(TextColour::Default)
        } else if str_equal(col, "black") {
            Some(TextColour::Black)
        } else if str_equal(col, "white") {
            Some(TextColour::White)
        } else if str_equal(col, "red") {
            Some(TextColour::Red)
        } else if str_equal(col, "blue") {
            Some(TextColour::Blue)
        } else if str_equal(col, "green") {
            Some(TextColour::Green)
        } else if str_equal(col, "yellow") {
            Some(TextColour::Yellow)
        } else if str_equal(col, "orange") {
            Some(TextColour::Orange)
        } else if str_equal(col, "purple") {
            Some(TextColour::Purple)
        } else if str_equal(col, "grey") {
            Some(TextColour::Grey)
        } else {
            None
        }
    }
}

/// Display options of a text item.
#[derive(Debug, Clone, Copy, PartialEq, Eq, Structural)]
pub enum TextOption {
    Bold,
    Blinking,
}

/// The option named by `s`, if `s` names one.
pub open spec fn option_named(s: Seq<char>) -> Option<TextOption> {
    if s == "bold"@ {
        Some(TextOption::Bold)
    } else if s == "blinking"@ {
        Some(TextOption::Blinking)
    } else {
        None
    }
}

impl TextOption {
    /// Reads a display option from its lower-case name.
    pub fn from_str(col: &str) -> (r: Option<TextOption>)
        ensures
            r == option_named(col@),
    {
        if str_equal(col, "bold") {
            Some(TextOption::Bold)
        } else if str_equal(col, "blinking") {
            Some(TextOption::Blinking)
        } else {
            None
        }
    }
}

/// A piece of text with its colour and display options.
#[derive(Debug, Clone)]
pub struct TextItem {
    pub text: String,
    pub colour: TextColour,
    pub options: Vec<TextOption>,
}

/// A text item by its contents.
pub ghost struct TextItemView {
    pub text: Seq<char>,
    pub colour: TextColour,
    pub options: Seq<TextOption>,
}

impl View for TextItem {
    type V = TextItemView;

    open spec fn view(&self) -> TextItemView {
        TextItemView { text: self.text@, colour: self.colour, options: self.options@ }
    }
}

/// The lower-case name of each colour.
pub open spec fn colour_name(c: TextColour) -> Seq<char> {
    match c {
        TextColour::Default => "default"@,
        TextColour::Black => "black"@,
        TextColour::White => "white"@,
        TextColour::Red => "red"@,
        TextColour::Blue => "blue"@,
        TextColour::Green => "green"@,
        TextColour::Yellow => "yellow"@,
        TextColour::Orange => "orange"@,
        TextColour::Purple => "purple"@,
        TextColour::Grey => "grey"@,
    }
}

/// Colour names and colours match one for one: each colour's name reads as
/// that colour, and a text that reads as a colour is that colour's name.
pub proof fn law_colour_names(s: Seq<char>, c: TextColour)
    ensures
        colour_named(colour_name(c)) == Some(c),
        colour_named(s) == Some(c) ==> s == colour_name(c),
        colour_named(s) is None <==> forall|d: TextColour| s != #[trigger] colour_name(d),
{
    reveal_strlit("default");
    reveal_strlit("black");
    reveal_strlit("white");
    reveal_strlit("red");
    reveal_strlit("blue");
    reveal_strlit("green");
    reveal_strlit("yellow");
    reveal_strlit("orange");
    reveal_strlit("purple");
    reveal_strlit("grey");
    match c {
        TextColour::Default => {
            assert("default"@[0] == 'd');
            assert("default"@.len() == 7);
            assert(colour_named(colour_name(c)) == Some(c));
        },
        TextColour::Black => {
            assert("default"@[0] == 'd' && "black"@[0] == 'b');
            assert("black"@.len() == 5);
            assert(colour_named(colour_name(c)) == Some(c));
        },
        TextColour::White => {
            assert("default"@[0] == 'd' && "black"@[0] == 'b' && "white"@[0] == 'w');
            assert("white"@.len() == 5);
            assert(colour_named(colour_name(c)) == Some(c));
        },
        TextColour::Red => {
            assert("default"@[0] == 'd' && "black"@[0] == 'b' && "white"@[0] == 'w' && "red"@[0] == 'r');
            assert("red"@.len() == 3);
            assert(colour_named(colour_name(c)) == Some(c));
        },
        TextColour::Blue => {
            assert("default"@[0] == 'd' && "black"@[0] == 'b' && "white"@[0] == 'w' && "red"@[0] == 'r' && "blue"@[0] == 'b');
            assert("blue"@.len() == 4);
            assert(colour_named(colour_name(c)) == Some(c));
        },
        TextColour::Green => {
            assert("default"@[0] == 'd' && "black"@[0] == 'b' && "white"@[0] == 'w' && "red"@[0] == 'r' && "blue"@[0] == 'b' && "green"@[0] == 'g');
            assert("green"@.len() == 5);
            assert(colour_named(colour_name(c)) == Some(c));
        },
        TextColour::Yellow => {
            assert("default"@[0] == 'd' && "black"@[0] == 'b' && "white"@[0] == 'w' && "red"@[0] == 'r' && "blue"@[0] == 'b' && "green"@[0] == 'g' && "yellow"@[0] == 'y');
            assert("yellow"@.len() == 6);
            assert(colour_named(colour_name(c)) == Some(c));
        },
        TextColour::Orange => {
            assert("default"@[0] == 'd' && "black"@[0] == 'b' && "white"@[0] == 'w' && "red"@[0] == 'r' && "blue"@[0] == 'b' && "green"@[0] == 'g' && "yellow"@[0] == 'y' && "orange"@[0] == 'o');
            assert("orange"@.len() == 6);
            assert(colour_named(colour_name(c)) == Some(c));
        },
        TextColour::Purple => {
            assert("default"@[0] == 'd' && "black"@[0] == 'b' && "white"@[0] == 'w' && "red"@[0] == 'r' && "blue"@[0] == 'b' && "green"@[0] == 'g' && "yellow"@[0] == 'y' && "orange"@[0] == 'o' && "purple"@[0] == 'p');
            assert("purple"@.len() == 6);
            assert(colour_named(colour_name(c)) == Some(c));
        },
        TextColour::Grey => {
            assert("default"@[0] == 'd' && "black"@[0] == 'b' && "white"@[0] == 'w' && "red"@[0] == 'r' && "blue"@[0] == 'b' && "green"@[0] == 'g' && "yellow"@[0] == 'y' && "orange"@[0] == 'o' && "purple"@[0] == 'p' && "grey"@[0] == 'g');
            assert("grey"@.len() == 4);
            assert(colour_named(colour_name(c)) == Some(c));
        },
    }
    if colour_named(s) is None {
        assert forall|d: TextColour| s != #[trigger] colour_name(d) by {
            match d {
                TextColour::Default => {},
                TextColour::Black => {},
                TextColour::White => {},
                TextColour::Red => {},
                TextColour::Blue => {},
                TextColour::Green => {},
                TextColour::Yellow => {},
                TextColour::Orange => {},
                TextColour::Purple => {},
                TextColour::Grey => {},
            }
        }
    } else {
        let e = colour_named(s)->0;
        assert(s == colour_name(e));
    }
}

/// The lower-case name of each display option.
pub open spec fn option_name(o: TextOption) -> Seq<char> {
    match o {
        TextOption::Bold => "bold"@,
        TextOption::Blinking => "blinking"@,
    }
}

/// Option names and options match one for one.
pub proof fn law_option_names(s: Seq<char>, o: TextOption)
    ensures
        option_named(option_name(o)) == Some(o),
        option_named(s) == Some(o) ==> s == option_name(o),
        option_named(s) is None <==> forall|d: TextOption| s != #[trigger] option_name(d),
{
    reveal_strlit("bold");
    reveal_strlit("blinking");
    match o {
        TextOption::Bold => assert(option_named(option_name(o)) == Some(o)),
        TextOption::Blinking => {
            assert("bold"@.len() == 4 && "blinking"@.len() == 8);
            assert(option_named(option_name(o)) == Some(o));
        },
    }
    if option_named(s) is None {
        assert forall|d: TextOption| s != #[trigger] option_name(d) by {
            match d {
                TextOption::Bold => {},
                TextOption::Blinking => {},
            }
        }
    } else {
        let e = option_named(s)->0;
        assert(s == option_name(e));
    }
}

/// The number of bytes of the UTF-8 encoding of `s`.
pub open spec fn utf8_len(s: Seq<char>) -> nat {
    encode_utf8(s).len()
}

/// Whether a text can be cut at `len` bytes: the cut lies at or past its end,
/// or on a character boundary.
pub open spec fn can_cut_at(s: Seq<char>, len: usize) -> bool {
    len >= utf8_len(s) || is_char_boundary(encode_utf8(s), len as int)
}

/// `String::truncate`: keeps the first `new_len` bytes of the string; no
/// effect when `new_len` is at or past its end.  It panics when the cut does
/// not lie on a character boundary, which `requires` rules out.
#[verifier::external_body]
fn string_truncate(s: &mut String, new_len: usize)
    requires
        can_cut_at(old(s)@, new_len),
    ensures
        new_len >= utf8_len(old(s)@) ==> final(s)@ == old(s)@,
        new_len < utf8_len(old(s)@) ==> encode_utf8(final(s)@) == encode_utf8(old(s)@).take(
            new_len as int,
        ),
{
    s.truncate(new_len)
}

impl TextItem {
    /// A text item in the default colour, without options, whose text is cut
    /// to `len` bytes when a length is given.
    pub fn new(text: String, len: Option<usize>) -> (r: TextItem)
        requires
            len matches Some(l) ==> can_cut_at(text@, l),
        ensures
            r.colour == TextColour::Default,
            r.options@ == Seq::<TextOption>::empty(),
            len matches Some(l) ==> (l < utf8_len(text@) ==> encode_utf8(r.text@) == encode_utf8(
                text@,
            ).take(l as int)),
            len matches Some(l) ==> (l >= utf8_len(text@) ==> r.text@ == text@),
            len is None ==> r.text@ == text@,
    {
        let mut item = TextItem { text: text, colour: TextColour::Default, options: Vec::new() };
        match len {
            Some(l) => string_truncate(&mut item.text, l),
            None => {},
        };
        item
    }

    /// The text item of a map tile or sprite: the text as given, in the
    /// default colour and without options.
    pub fn new_tile(text: String) -> (r: TextItem)
        ensures
            r.text@ == text@,
            r.colour == TextColour::Default,
            r.options@ == Seq::<TextOption>::empty(),
    {
        TextItem { text: text, colour: TextColour::Default, options: Vec::new() }
    }

    /// The character that stands for this item on a map: the first character
    /// of its text, or a space when the text is empty.
    pub fn as_char(&self) -> (c: char)
        ensures
            c == item_char(self.text@),
    {
        let s = self.text.as_str();
        if s.unicode_len() == 0 {
            ' '
        } else {
            s.get_char(0)
        }
    }

    /// A copy of this item.
    pub fn duplicate(&self) -> (r: TextItem)
        ensures
            r@ == self@,
    {
        let mut options: Vec<TextOption> = Vec::new();
        let mut i: usize = 0;
        while i < self.options.len()
            invariant
                i <= self.options@.len(),
                options@ == self.options@.take(i as int),
            decreases self.options@.len() - i,
        {
            options.push(self.options[i]);
            i += 1;
            assert(options@ =~= self.options@.take(i as int));
        }
        assert(options@ =~= self.options@);
        TextItem { text: self.text.clone(), colour: self.colour, options: options }
    }
}

/// The character that a text stands for on a map.
pub open spec fn item_char(s: Seq<char>) -> char {
    if s.len() == 0 {
        ' '
    } else {
        s[0]
    }
}

} // verus!
