//! The engine packages that scripts import: the reading of the arguments that
//! scripts pass to their functions, and what each function asks of the
//! engine.  Scripts themselves run elsewhere; their values reach these
//! functions as `ScriptVal`s.

pub mod control;
pub mod pbox;
pub mod txtrend;
pub mod map;
pub mod makemap;
pub mod glob;
pub mod level;
pub mod entity;
pub mod math;

use vstd::prelude::*;
use crate::Coord;
use crate::strutil::str_equal;
use crate::textitem::{
    TextItem, TextColour, TextOption, colour_named, option_named, can_cut_at, utf8_len,
};
use vstd::utf8::*;

verus! {

/// A value that a script passes to an engine function, as far as the engine
/// reads it.  A floating-point number is held as the engine reads one: the
/// whole number nearest to it, as a `usize` (saturated, and 0 for a NaN).
/// An object is a list of entries; a later entry for a key overrides an
/// earlier one.
#[derive(Debug)]
pub enum ScriptVal {
    Null,
    Bool(bool),
    Int(i64),
    Float(usize),
    Str(String),
    List(Vec<ScriptVal>),
    Obj(Vec<(String, ScriptVal)>),
    Other,
}

/// Why a call of an engine function failed.
#[derive(Debug, Clone, Copy, PartialEq, Eq, Structural)]
pub enum CallError {
    TypeError,
    WrongNumberOfArguments,
    FunctionNotFound,
}

/// The value of the last entry for `key` in `es`.
pub open spec fn val_lookup(es: Seq<(String, ScriptVal)>, key: Seq<char>) -> Option<ScriptVal>
    decreases es.len(),
{
    if es.len() == 0 {
        None
    } else if es.last().0@ == key {
        Some(es.last().1)
    } else {
        val_lookup(es.drop_last(), key)
    }
}

/// The value under `key` of an object's entries.
pub fn lookup<'a>(es: &'a Vec<(String, ScriptVal)>, key: &str) -> (r: Option<&'a ScriptVal>)
    ensures
        r matches Some(v) ==> val_lookup(es@, key@) == Some(*v),
        r is None ==> val_lookup(es@, key@) is None,
{
    let mut i = es.len();
    assert(es@.take(i as int) =~= es@);
    while i > 0
        invariant
            i <= es@.len(),
            val_lookup(es@, key@) == val_lookup(es@.take(i as int), key@),
        decreases i,
    {
        assert(es@.take(i as int).drop_last() =~= es@.take(i - 1));
        assert(es@.take(i as int).last() == es@[i - 1]);
        if str_equal(es[i - 1].0.as_str(), key) {
            return Some(&es[i - 1].1);
        }
        i -= 1;
    }
    None
}

/// One part of a coordinate: an integer, read as a `usize`, or a
/// floating-point number, rounded.
pub open spec fn coord_part(v: ScriptVal) -> Option<usize> {
    match v {
        ScriptVal::Int(i) => Some(i as usize),
        ScriptVal::Float(u) => Some(u),
        _ => None,
    }
}

/// The coordinate made of two parts.
pub open spec fn coord_pair(x: ScriptVal, y: ScriptVal) -> Option<Coord> {
    match (coord_part(x), coord_part(y)) {
        (Some(a), Some(b)) => Some((a, b)),
        _ => None,
    }
}

/// The coordinate that a value stands for: an object with `x` and `y`, or a
/// list of at least two numbers; `None` for anything else.
pub open spec fn coord_of(v: ScriptVal) -> Option<Coord> {
    match v {
        ScriptVal::Obj(es) => match (val_lookup(es@, "x"@), val_lookup(es@, "y"@)) {
            (Some(x), Some(y)) => coord_pair(x, y),
            _ => None,
        },
        ScriptVal::List(l) => if l@.len() < 2 {
            None
        } else {
            coord_pair(l@[0], l@[1])
        },
        _ => None,
    }
}

/// One part of a coordinate.
fn make_part(v: &ScriptVal) -> (r: Result<usize, CallError>)
    ensures
        match coord_part(*v) {
            Some(u) => r == Ok::<usize, CallError>(u),
            None => r == Err::<usize, CallError>(CallError::TypeError),
        },
{
    match v {
        ScriptVal::Int(i) => Ok(*i as usize),
        ScriptVal::Float(u) => Ok(*u),
        _ => Err(CallError::TypeError),
    }
}

/// Reads a coordinate: an object with `x` and `y`, or a list of at least two
/// numbers; a type error for anything else.
pub fn to_coord(val: &ScriptVal) -> (r: Result<Coord, CallError>)
    ensures
        match coord_of(*val) {
            Some(c) => r == Ok::<Coord, CallError>(c),
            None => r == Err::<Coord, CallError>(CallError::TypeError),
        },
{
    match val {
        ScriptVal::Obj(o) => {
            let x_val = match lookup(o, "x") {
                Some(x) => x,
                None => return Err(CallError::TypeError),
            };
            let y_val = match lookup(o, "y") {
                Some(y) => y,
                None => return Err(CallError::TypeError),
            };
            let x = make_part(x_val)?;
            let y = make_part(y_val)?;
            Ok((x, y))
        },
        ScriptVal::List(l) => {
            if l.len() < 2 {
                return Err(CallError::TypeError);
            }
            let x = make_part(&l[0])?;
            let y = make_part(&l[1])?;
            Ok((x, y))
        },
        _ => Err(CallError::TypeError),
    }
}

/// The text of a text object: its `text` when that is a string.
pub open spec fn text_field(es: Seq<(String, ScriptVal)>) -> Option<Seq<char>> {
    match val_lookup(es, "text"@) {
        Some(ScriptVal::Str(s)) => Some(s@),
        _ => None,
    }
}

/// The length limit of a text object: none when `len` is not given, an
/// integer read as a `usize`; `None` when `len` is anything else.
pub open spec fn len_field(es: Seq<(String, ScriptVal)>) -> Option<Option<usize>> {
    match val_lookup(es, "len"@) {
        None => Some(None),
        Some(ScriptVal::Int(i)) => Some(Some(i as usize)),
        Some(_) => None,
    }
}

/// The colour name of a text object, if one is given; `None` when `colour`
/// is not a string.
pub open spec fn colour_field(es: Seq<(String, ScriptVal)>) -> Option<Option<Seq<char>>> {
    match val_lookup(es, "colour"@) {
        None => Some(None),
        Some(ScriptVal::Str(s)) => Some(Some(s@)),
        Some(_) => None,
    }
}

/// Whether every item of a list is a string.
pub open spec fn all_str(l: Seq<ScriptVal>) -> bool {
    forall|i: int| 0 <= i < l.len() ==> (#[trigger] l[i]) is Str
}

/// The text of a string value (empty for any other value).
pub open spec fn str_text(v: ScriptVal) -> Seq<char> {
    match v {
        ScriptVal::Str(s) => s@,
        _ => Seq::empty(),
    }
}

/// The option names of a text object: one string, or a list of them; none
/// when `options` is not given; `None` when it is anything else.
pub open spec fn options_field(es: Seq<(String, ScriptVal)>) -> Option<Seq<Seq<char>>> {
    match val_lookup(es, "options"@) {
        None => Some(Seq::empty()),
        Some(ScriptVal::Str(s)) => Some(seq![s@]),
        Some(ScriptVal::List(l)) => if all_str(l@) {
            Some(Seq::new(l@.len(), |i: int| str_text(l@[i])))
        } else {
            None
        },
        Some(_) => None,
    }
}

/// The option that a known option name stands for.
pub open spec fn option_of(name: Seq<char>) -> TextOption {
    match option_named(name) {
        Some(o) => o,
        None => TextOption::Bold,
    }
}

/// The colour that a known colour name stands for.
pub open spec fn colour_of(name: Seq<char>) -> TextColour {
    match colour_named(name) {
        Some(c) => c,
        None => TextColour::Default,
    }
}

/// Whether a value can be read as a text item: a string, or a text object
/// whose fields, where given, have the right types.
pub open spec fn text_item_decodes(v: ScriptVal) -> bool {
    match v {
        ScriptVal::Str(_) => true,
        ScriptVal::Obj(es) => {
            &&& text_field(es@) is Some
            &&& len_field(es@) is Some
            &&& colour_field(es@) is Some
            &&& options_field(es@) is Some
        },
        _ => false,
    }
}

/// Whether reading a value as a text item is free of the engine's hard
/// failures: a length limit that cuts a character in two, an unknown colour,
/// or an unknown option, each where the reading gets that far.
pub open spec fn text_item_safe(v: ScriptVal) -> bool {
    match v {
        ScriptVal::Obj(es) => {
            let text = text_field(es@);
            let len = len_field(es@);
            &&& (text is Some && len is Some && len->0 is Some) ==> can_cut_at(text->0, len->0->0)
            &&& (text is Some && len is Some) ==> (colour_field(es@) matches Some(Some(c)) ==> colour_named(
                c,
            ) is Some)
            &&& (text is Some && len is Some && colour_field(es@) is Some) ==> match val_lookup(
                es@,
                "options"@,
            ) {
                Some(ScriptVal::Str(s)) => option_named(s@) is Some,
                Some(ScriptVal::List(l)) => forall|i: int|
                    0 <= i < l@.len() && (forall|j: int| 0 <= j <= i ==> (#[trigger] l@[j]) is Str)
                        ==> option_named(str_text(#[trigger] l@[i])) is Some,
                _ => true,
            }
        },
        _ => true,
    }
}

/// Whether `t` is `text` as cut to `len` bytes, when a limit is given.
pub open spec fn cut_text(t: Seq<char>, text: Seq<char>, len: Option<usize>) -> bool {
    match len {
        None => t == text,
        Some(l) => if l >= utf8_len(text) {
            t == text
        } else {
            encode_utf8(t) == encode_utf8(text).take(l as int)
        },
    }
}

/// Whether `t` is the text of the text item that value `v` describes.
pub open spec fn item_text_ok(t: Seq<char>, v: ScriptVal) -> bool {
    match v {
        ScriptVal::Str(s) => t == s@,
        ScriptVal::Obj(es) => cut_text(t, text_field(es@)->0, len_field(es@)->0),
        _ => false,
    }
}

/// Whether `t` is the text item that value `v` describes.
pub open spec fn text_item_of(t: TextItem, v: ScriptVal) -> bool {
    &&& item_text_ok(t.text@, v)
    &&& match v {
        ScriptVal::Str(s) => {
            &&& t.colour == TextColour::Default
            &&& t.options@ == Seq::<TextOption>::empty()
        },
        ScriptVal::Obj(es) => {
            &&& t.colour == match colour_field(es@)->0 {
                Some(c) => colour_of(c),
                None => TextColour::Default,
            }
            &&& t.options@ == options_field(es@)->0.map_values(|n: Seq<char>| option_of(n))
        },
        _ => false,
    }
}

/// Reads a text item: a string, or a text object with its `text` and, where
/// given, a length limit in bytes (`len`), a colour name (`colour`) and
/// option names (`options`, one or a list); a type error where a field has
/// the wrong type.
pub fn to_text_item(val: &ScriptVal) -> (r: Result<TextItem, CallError>)
    requires
        text_item_safe(*val),
    ensures
        r is Ok <==> text_item_decodes(*val),
        r matches Ok(t) ==> text_item_of(t, *val),
        r matches Err(e) ==> e == CallError::TypeError,
{
    match val {
        ScriptVal::Str(s) => {
            let t = TextItem::new(s.clone(), None);
            Ok(t)
        },
        ScriptVal::Obj(o) => {
            let text = match lookup(o, "text") {
                Some(ScriptVal::Str(s)) => s.clone(),
                _ => return Err(CallError::TypeError),
            };
            let len = match lookup(o, "len") {
                Some(ScriptVal::Int(i)) => Some(*i as usize),
                Some(_) => return Err(CallError::TypeError),
                None => None,
            };
            let mut textitem = TextItem::new(text, len);
            match lookup(o, "colour") {
                Some(ScriptVal::Str(s)) => {
                    textitem.colour = TextColour::from_str(s.as_str()).unwrap();
                },
                Some(_) => return Err(CallError::TypeError),
                None => {},
            };
            match lookup(o, "options") {
                Some(ScriptVal::Str(s)) => {
                    textitem.options.push(TextOption::from_str(s.as_str()).unwrap());
                    assert(textitem.options@ =~= options_field(o@)->0.map_values(
                        |n: Seq<char>| option_of(n),
                    ));
                },
                Some(ScriptVal::List(l)) => {
                    let mut k: usize = 0;
                    while k < l.len()
                        invariant
                            k <= l@.len(),
                            val_lookup(o@, "options"@) == Some(ScriptVal::List(*l)),
                            text_item_safe(*val),
                            *val == ScriptVal::Obj(*o),
                            text_field(o@) is Some,
                            len_field(o@) is Some,
                            colour_field(o@) is Some,
                            forall|j: int| 0 <= j < k ==> (#[trigger] l@[j]) is Str,
                            textitem.options@ == Seq::new(k as nat, |j: int| option_of(str_text(l@[j]))),
                            cut_text(textitem.text@, text_field(o@)->0, len_field(o@)->0),
                            textitem.colour == match colour_field(o@)->0 {
                                Some(c) => colour_of(c),
                                None => TextColour::Default,
                            },
                        decreases l@.len() - k,
                    {
                        match &l[k] {
                            ScriptVal::Str(s) => {
                                assert(forall|j: int| 0 <= j <= k ==> (#[trigger] l@[j]) is Str);
                                assert(option_named(str_text(l@[k as int])) is Some);
                                textitem.options.push(TextOption::from_str(s.as_str()).unwrap());
                                k += 1;
                                assert(textitem.options@ =~= Seq::new(
                                    k as nat,
                                    |j: int| option_of(str_text(l@[j])),
                                ));
                            },
                            _ => {
                                assert(!all_str(l@));
                                return Err(CallError::TypeError);
                            },
                        }
                    }
                    assert(all_str(l@));
                    assert(textitem.options@ =~= options_field(o@)->0.map_values(
                        |n: Seq<char>| option_of(n),
                    ));
                },
                Some(_) => return Err(CallError::TypeError),
                None => {
                    assert(textitem.options@ =~= options_field(o@)->0.map_values(
                        |n: Seq<char>| option_of(n),
                    ));
                },
            };
            Ok(textitem)
        },
        _ => Err(CallError::TypeError),
    }
}

/// Whether every option name in `l`, up to the first item that is not a
/// string, is known.
pub open spec fn options_known(l: Seq<ScriptVal>) -> bool {
    forall|i: int|
        0 <= i < l.len() && (forall|j: int| 0 <= j <= i ==> (#[trigger] l[j]) is Str) ==> option_named(
            str_text(#[trigger] l[i]),
        ) is Some
}

/// Whether every option name in `l`, up to the first item that is not a
/// string, is known.
fn check_options(l: &Vec<ScriptVal>) -> (r: bool)
    ensures
        r == options_known(l@),
{
    let mut k: usize = 0;
    while k < l.len()
        invariant
            k <= l@.len(),
            forall|i: int|
                0 <= i < k && (forall|j: int| 0 <= j <= i ==> (#[trigger] l@[j]) is Str) ==> option_named(
                    str_text(#[trigger] l@[i]),
                ) is Some,
            forall|j: int| 0 <= j < k ==> (#[trigger] l@[j]) is Str,
        decreases l@.len() - k,
    {
        match &l[k] {
            ScriptVal::Str(name) => {
                if TextOption::from_str(name.as_str()).is_none() {
                    assert(forall|j: int| 0 <= j <= k ==> (#[trigger] l@[j]) is Str);
                    return false;
                }
            },
            _ => {
                assert forall|i: int|
                    0 <= i < l@.len() && (forall|j: int| 0 <= j <= i ==> (#[trigger] l@[j]) is Str)
                        implies option_named(str_text(#[trigger] l@[i])) is Some by {
                    if i >= k {
                        assert(l@[k as int] is Str);
                    }
                }
                return true;
            },
        }
        k += 1;
    }
    true
}

/// Whether a value can be read as a text item without a hard failure (see
/// `text_item_safe`).
pub fn check_text_item(v: &ScriptVal) -> (r: bool)
    ensures
        r == text_item_safe(*v),
{
    match v {
        ScriptVal::Obj(o) => {
            let text = match lookup(o, "text") {
                Some(ScriptVal::Str(s)) => Some(s),
                _ => None,
            };
            let len: Option<Option<usize>> = match lookup(o, "len") {
                None => Some(None),
                Some(ScriptVal::Int(i)) => Some(Some(*i as usize)),
                Some(_) => None,
            };
            assert(len == len_field(o@));
            assert(text is Some == text_field(o@) is Some);
            assert(text matches Some(t) ==> text_field(o@) == Some(t@));
            match text {
                Some(t) => match len {
                    Some(Some(l)) => {
                        let ts = t.as_str();
                        let ok = l >= ts.as_bytes().len() || ts.is_char_boundary(l);
                        if !ok {
                            return false;
                        }
                        assert(can_cut_at(t@, l));
                    },
                    _ => {},
                },
                None => {},
            }
            if text.is_none() || len.is_none() {
                return true;
            }
            assert(len_field(o@)->0 is Some ==> can_cut_at(text_field(o@)->0, len_field(o@)->0->0));
            match lookup(o, "colour") {
                Some(ScriptVal::Str(c)) => {
                    if TextColour::from_str(c.as_str()).is_none() {
                        return false;
                    }
                },
                Some(_) => {
                    return true;
                },
                None => {},
            }
            match lookup(o, "options") {
                Some(ScriptVal::Str(name)) => TextOption::from_str(name.as_str()).is_some(),
                Some(ScriptVal::List(l)) => check_options(l),
                _ => true,
            }
        },
        _ => true,
    }
}

/// The integer that a value is, if it is one.
pub open spec fn int_of(v: ScriptVal) -> Option<i64> {
    match v {
        ScriptVal::Int(i) => Some(i),
        _ => None,
    }
}

/// Reads an integer argument; a type error for anything else.
pub fn int_arg(v: &ScriptVal) -> (r: Result<i64, CallError>)
    ensures
        match int_of(*v) {
            Some(i) => r == Ok::<i64, CallError>(i),
            None => r == Err::<i64, CallError>(CallError::TypeError),
        },
{
    match v {
        ScriptVal::Int(i) => Ok(*i),
        _ => Err(CallError::TypeError),
    }
}

/// Reads a string argument; a type error for anything else.
pub fn str_arg(v: &ScriptVal) -> (r: Result<&String, CallError>)
    ensures
        match *v {
            ScriptVal::Str(s) => r matches Ok(t) && *t == s,
            _ => r == Err::<&String, CallError>(CallError::TypeError),
        },
{
    match v {
        ScriptVal::Str(s) => Ok(s),
        _ => Err(CallError::TypeError),
    }
}

/// A coordinate reads the same as a list `[x, y]` and as an object
/// `{x: .., y: ..}`.
pub proof fn law_coord_forms_agree(l: Vec<ScriptVal>, o: Vec<(String, ScriptVal)>)
    requires
        l@.len() == 2,
        val_lookup(o@, "x"@) == Some(l@[0]),
        val_lookup(o@, "y"@) == Some(l@[1]),
    ensures
        coord_of(ScriptVal::List(l)) == coord_of(ScriptVal::Obj(o)),
{
}

} // verus!
