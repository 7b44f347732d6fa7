//! Layouts: a render script and the scripts that keys trigger.

use vstd::prelude::*;
use vstd::string::*;
use crate::snippet::{Snippet, imports_view};
use crate::json::{Json, json_get, json_at, entries_of, entry_lookup, script_ok, snippet_of, snippet_from, snippet_at};
use crate::strutil::str_equal;

verus! {

/// A key as the terminal reports it.
#[derive(Debug, Clone, Copy, PartialEq, Eq, Structural)]
pub enum InputKey {
    Character(char),
    KeyBackspace,
    KeyLeft,
    KeyRight,
    KeyUp,
    KeyDown,
}

/// The map that a list of key bindings stands for: each binding, from the
/// first to the last, sets its key.
pub open spec fn bindings_map(s: Seq<(InputKey, Snippet)>) -> Map<InputKey, Snippet>
    decreases s.len(),
{
    if s.len() == 0 {
        Map::empty()
    } else {
        bindings_map(s.drop_last()).insert(s.last().0, s.last().1)
    }
}

/// A layout: what a key runs, what any other key runs if anything, and the
/// script that draws the screen.
pub struct Layout {
    inputs: Vec<(InputKey, Snippet)>,
    default: Option<Snippet>,
    render: Snippet,
}

impl Layout {
    /// The script bound to each key.
    pub closed spec fn bindings(&self) -> Map<InputKey, Snippet> {
        bindings_map(self.inputs@)
    }

    /// The script run for keys without their own.
    pub closed spec fn default_script(&self) -> Option<Snippet> {
        self.default
    }

    /// The render script.
    pub closed spec fn render_script(&self) -> Snippet {
        self.render
    }

    /// A layout with the given key bindings, a later binding of a key
    /// replacing an earlier one.
    pub fn new(inputs: Vec<(InputKey, Snippet)>, default: Option<Snippet>, render: Snippet) -> (r:
        Layout)
        ensures
            r.bindings() == bindings_map(inputs@),
            r.default_script() == default,
            r.render_script() == render,
    {
        Layout { inputs: inputs, default: default, render: render }
    }

    /// The render script.
    pub fn render(&self) -> (r: &Snippet)
        ensures
            *r == self.render_script(),
    {
        &self.render
    }

    /// The script that `input` runs: its own, or else the default one;
    /// `None` when there is neither, and the key does nothing.
    pub fn run_input(&self, input: &InputKey) -> (r: Option<&Snippet>)
        ensures
            match r {
                Some(s) => if self.bindings().contains_key(*input) {
                    *s == self.bindings()[*input]
                } else {
                    self.default_script() == Some(*s)
                },
                None => !self.bindings().contains_key(*input) && self.default_script() is None,
            },
    {
        let mut i = self.inputs.len();
        assert(self.inputs@.take(i as int) =~= self.inputs@);
        while i > 0
            invariant
                i <= self.inputs@.len(),
                bindings_map(self.inputs@).contains_key(*input) == bindings_map(
                    self.inputs@.take(i as int),
                ).contains_key(*input),
                bindings_map(self.inputs@).contains_key(*input) ==> bindings_map(self.inputs@)[*input]
                    == bindings_map(self.inputs@.take(i as int))[*input],
            decreases i,
        {
            assert(self.inputs@.take(i as int).drop_last() =~= self.inputs@.take(i - 1));
            if self.inputs[i - 1].0 == *input {
                return Some(&self.inputs[i - 1].1);
            }
            i -= 1;
        }
        match &self.default {
            Some(d) => Some(d),
            None => None,
        }
    }
}

/// The key that a name in a layout's inputs stands for: one of the special
/// names, or else the name's first character.
pub open spec fn key_named(k: Seq<char>) -> InputKey {
    if k == "enter"@ {
        InputKey::Character('\n')
    } else if k == "space"@ {
        InputKey::Character(' ')
    } else if k == "backspace"@ {
        InputKey::KeyBackspace
    } else if k == "tab"@ {
        InputKey::Character('\t')
    } else if k == "left"@ {
        InputKey::KeyLeft
    } else if k == "right"@ {
        InputKey::KeyRight
    } else if k == "up"@ {
        InputKey::KeyUp
    } else if k == "down"@ {
        InputKey::KeyDown
    } else {
        InputKey::Character(k[0])
    }
}

/// The key that a name in a layout's inputs stands for.
pub fn key_of(k: &str) -> (r: InputKey)
    requires
        k@.len() > 0,
    ensures
        r == key_named(k@),
{
    if str_equal(k, "enter") {
        InputKey::Character('\n')
    } else if str_equal(k, "space") {
        InputKey::Character(' ')
    } else if str_equal(k, "backspace") {
        InputKey::KeyBackspace
    } else if str_equal(k, "tab") {
        InputKey::Character('\t')
    } else if str_equal(k, "left") {
        InputKey::KeyLeft
    } else if str_equal(k, "right") {
        InputKey::KeyRight
    } else if str_equal(k, "up") {
        InputKey::KeyUp
    } else if str_equal(k, "down") {
        InputKey::KeyDown
    } else {
        InputKey::Character(k.get_char(0))
    }
}

/// The script that the input entries `es` bind to `key`: that of the last
/// entry, other than `default`, whose name stands for `key`.
pub open spec fn input_binding(es: Seq<(String, Json)>, key: InputKey) -> Option<Json>
    decreases es.len(),
{
    if es.len() == 0 {
        None
    } else if es.last().0@ != "default"@ && key_named(es.last().0@) == key {
        Some(es.last().1)
    } else {
        input_binding(es.drop_last(), key)
    }
}

/// Whether the configuration of a layout has, where given, its inputs as
/// scripts under non-empty names and its render script as a string.
pub open spec fn layout_ok(layout: Json) -> bool {
    &&& json_get(layout, "inputs"@) matches Some(i) ==> {
        &&& i is Object
        &&& forall|k: int|
            0 <= k < entries_of(i).len() ==> {
                &&& (#[trigger] entries_of(i)[k]).1 is Str
                &&& entries_of(i)[k].0@.len() > 0
            }
    }
    &&& script_ok(layout, "render"@)
}

/// Whether `l` is the layout that configuration `layout` describes, with
/// `imports` for its scripts.
pub open spec fn layout_built(l: Layout, imports: Seq<(Seq<char>, Seq<char>)>, layout: Json) -> bool {
    let es = entries_of(json_at(layout, "inputs"@));
    &&& forall|key: InputKey| #[trigger]
        l.bindings().contains_key(key) <==> input_binding(es, key) is Some
    &&& forall|key: InputKey| #[trigger]
        l.bindings().contains_key(key) ==> l.bindings()[key]@ == snippet_of(
            imports,
            input_binding(es, key),
        )
    &&& match l.default_script() {
        Some(d) => entry_lookup(es, "default"@) is Some && d@ == snippet_of(
            imports,
            entry_lookup(es, "default"@),
        ),
        None => entry_lookup(es, "default"@) is None,
    }
    &&& l.render_script()@ == snippet_of(imports, json_get(layout, "render"@))
}

/// Whether a layout's configuration checks out.
pub fn check_layout(layout: &Json) -> (r: bool)
    ensures
        r == layout_ok(*layout),
{
    let inputs_ok = match layout.get("inputs") {
        Some(i) => match i.as_object() {
            Some(es) => {
                let mut k: usize = 0;
                let mut ok = true;
                while k < es.len()
                    invariant
                        *i == Json::Object(*es),
                        k <= es@.len(),
                        ok == forall|j: int|
                            0 <= j < k ==> {
                                &&& (#[trigger] es@[j]).1 is Str
                                &&& es@[j].0@.len() > 0
                            },
                    decreases es@.len() - k,
                {
                    let good = es[k].1.as_str().is_some() && es[k].0.as_str().unicode_len() > 0;
                    if !good {
                        assert(!(es@[k as int].1 is Str && es@[k as int].0@.len() > 0));
                    }
                    ok = ok && good;
                    k += 1;
                }
                assert(ok == forall|j: int|
                    0 <= j < entries_of(*i).len() ==> {
                        &&& (#[trigger] entries_of(*i)[j]).1 is Str
                        &&& entries_of(*i)[j].0@.len() > 0
                    });
                ok
            },
            None => false,
        },
        None => true,
    };
    inputs_ok && crate::global::check_script(layout, "render")
}

/// The layout that configuration `layout` describes, its scripts with
/// `imports`.
pub fn build_layout(imports: &Vec<(String, String)>, layout: &Json) -> (r: Layout)
    requires
        layout_ok(*layout),
    ensures
        layout_built(r, imports_view(imports@), *layout),
{
    let ghost imps = imports_view(imports@);
    let mut inputs: Vec<(InputKey, Snippet)> = Vec::new();
    let mut default: Option<Snippet> = None;
    let empty: Vec<(String, Json)> = Vec::new();
    let es: &Vec<(String, Json)> = match layout.get("inputs") {
        Some(i) => i.as_object().unwrap(),
        None => &empty,
    };
    assert(entries_of(json_at(*layout, "inputs"@)) == es@);
    let mut k: usize = 0;
    while k < es.len()
        invariant
            k <= es@.len(),
            imports_view(imports@) == imps,
            forall|j: int|
                0 <= j < es@.len() ==> {
                    &&& (#[trigger] es@[j]).1 is Str
                    &&& es@[j].0@.len() > 0
                },
            forall|key: InputKey| #[trigger]
                bindings_map(inputs@).contains_key(key) <==> input_binding(
                    es@.take(k as int),
                    key,
                ) is Some,
            forall|key: InputKey| #[trigger]
                bindings_map(inputs@).contains_key(key) ==> bindings_map(inputs@)[key]@ == snippet_of(
                    imps,
                    input_binding(es@.take(k as int), key),
                ),
            match default {
                Some(d) => entry_lookup(es@.take(k as int), "default"@) is Some && d@ == snippet_of(
                    imps,
                    entry_lookup(es@.take(k as int), "default"@),
                ),
                None => entry_lookup(es@.take(k as int), "default"@) is None,
            },
        decreases es@.len() - k,
    {
        let name = es[k].0.as_str();
        let script = &es[k].1;
        let ghost pre = es@.take(k as int);
        let ghost post = es@.take(k + 1);
        assert(post.drop_last() =~= pre);
        assert(post.last() == es@[k as int]);
        if str_equal(name, "default") {
            default = Some(snippet_from(imports, script));
            assert forall|key: InputKey| #[trigger] input_binding(post, key) == input_binding(pre, key) by {}
        } else {
            let key = key_of(name);
            let snip = snippet_from(imports, script);
            let ghost old_inputs = inputs@;
            inputs.push((key, snip));
            assert(inputs@.drop_last() =~= old_inputs);
            assert(bindings_map(inputs@) == bindings_map(old_inputs).insert(key, snip));
            assert forall|key2: InputKey| #[trigger]
                input_binding(post, key2) == (if key == key2 {
                    Some(*script)
                } else {
                    input_binding(pre, key2)
                }) by {}
            assert(entry_lookup(post, "default"@) == entry_lookup(pre, "default"@));
        }
        k += 1;
    }
    assert(es@.take(k as int) =~= es@);
    let render = snippet_at(imports, layout, "render");
    Layout::new(inputs, default, render)
}

} // verus!
