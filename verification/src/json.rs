//! JSON values as the game's configuration files hold them, and the reading
//! of script snippets and their imports from them.

use vstd::prelude::*;
use vstd::string::*;
use crate::snippet::{Snippet, SnippetView, imports_view};
use crate::strutil::str_equal;

verus! {

/// A JSON value.  An object is a list of entries; a later entry for a key
/// overrides an earlier one.  A number is held by its value when it is a
/// whole number that fits in `u64`, which is all the configuration reads of
/// numbers.
#[derive(Debug)]
pub enum Json {
    Null,
    Bool(bool),
    Number(Option<u64>),
    Str(String),
    Array(Vec<Json>),
    Object(Vec<(String, Json)>),
}

/// The value of the last entry for `key` in `es`.
pub open spec fn entry_lookup(es: Seq<(String, Json)>, key: Seq<char>) -> Option<Json>
    decreases es.len(),
{
    if es.len() == 0 {
        None
    } else if es.last().0@ == key {
        Some(es.last().1)
    } else {
        entry_lookup(es.drop_last(), key)
    }
}

/// The value under `key` when `j` is an object that has one.
pub open spec fn json_get(j: Json, key: Seq<char>) -> Option<Json> {
    match j {
        Json::Object(es) => entry_lookup(es@, key),
        _ => None,
    }
}

/// The value under `key`, or `Null` when there is none.
pub open spec fn json_at(j: Json, key: Seq<char>) -> Json {
    match json_get(j, key) {
        Some(v) => v,
        None => Json::Null,
    }
}

/// The text of a string value (empty for any other value).
pub open spec fn str_of(j: Json) -> Seq<char> {
    match j {
        Json::Str(s) => s@,
        _ => Seq::empty(),
    }
}

/// The entries of an object value (none for any other value).
pub open spec fn entries_of(j: Json) -> Seq<(String, Json)> {
    match j {
        Json::Object(es) => es@,
        _ => Seq::empty(),
    }
}

/// The items of an array value (none for any other value).
pub open spec fn items_of(j: Json) -> Seq<Json> {
    match j {
        Json::Array(v) => v@,
        _ => Seq::empty(),
    }
}

/// Whether every entry of object `j` holds a string.
pub open spec fn all_str_entries(j: Json) -> bool {
    &&& j is Object
    &&& forall|i: int| 0 <= i < entries_of(j).len() ==> (#[trigger] entries_of(j)[i]).1 is Str
}

/// Whether every item of array `j` is a string.
pub open spec fn all_str_items(j: Json) -> bool {
    &&& j is Array
    &&& forall|i: int| 0 <= i < items_of(j).len() ==> (#[trigger] items_of(j)[i]) is Str
}

impl Json {
    /// The value under `key` when this is an object that has one.
    pub fn get(&self, key: &str) -> (r: Option<&Json>)
        ensures
            r matches Some(v) ==> json_get(*self, key@) == Some(*v),
            r is None ==> json_get(*self, key@) is None,
    {
        match self {
            Json::Object(es) => {
                let mut i = es.len();
                assert(es@.take(i as int) =~= es@);
                while i > 0
                    invariant
                        *self == Json::Object(*es),
                        i <= es@.len(),
                        entry_lookup(es@, key@) == entry_lookup(es@.take(i as int), key@),
                    decreases i,
                {
                    assert(es@.take(i as int).drop_last() =~= es@.take(i - 1));
                    assert(es@.take(i as int).last() == es@[i - 1]);
                    if str_equal(es[i - 1].0.as_str(), key) {
                        return Some(&es[i - 1].1);
                    }
                    i -= 1;
                }
                None
            },
            _ => None,
        }
    }

    /// The text, when this is a string.
    pub fn as_str(&self) -> (r: Option<&String>)
        ensures
            r matches Some(s) ==> *self == Json::Str(*s),
            r is None ==> !(self is Str),
    {
        match self {
            Json::Str(s) => Some(s),
            _ => None,
        }
    }

    /// The items, when this is an array.
    pub fn as_array(&self) -> (r: Option<&Vec<Json>>)
        ensures
            r matches Some(v) ==> *self == Json::Array(*v),
            r is None ==> !(self is Array),
    {
        match self {
            Json::Array(v) => Some(v),
            _ => None,
        }
    }

    /// The entries, when this is an object.
    pub fn as_object(&self) -> (r: Option<&Vec<(String, Json)>>)
        ensures
            r matches Some(es) ==> *self == Json::Object(*es),
            r is None ==> !(self is Object),
    {
        match self {
            Json::Object(es) => Some(es),
            _ => None,
        }
    }

    /// The value, when this is a whole number that fits in `u64`.
    pub fn as_u64(&self) -> (r: Option<u64>)
        ensures
            r == (match *self {
                Json::Number(n) => n,
                _ => None,
            }),
    {
        match self {
            Json::Number(n) => *n,
            _ => None,
        }
    }
}

/// A value of serde_json's own JSON type, which the parser produces.
#[verifier::external_type_specification]
#[verifier::external_body]
pub struct ExJsonValue(serde_json::Value);

/// The JSON value that `text` holds, or `None` when `text` is not JSON.
pub uninterp spec fn json_of_text(text: Seq<char>) -> Option<Json>;

/// Parses `text` with `serde_json::from_str` into serde_json's `Value` and
/// turns that, node by node, into a `Json`.  The result is named: it is a
/// function of the text alone (an object's entries come in the order of
/// serde_json's map, by key); nothing more of it is stated here.
#[verifier::external_body]
pub(crate) fn parse_json(text: &str) -> (r: Option<Json>)
    ensures
        r == json_of_text(text@),
{
    serde_json::from_str::<serde_json::Value>(text).ok().map(|v| json_from_value(&v))
}

/// The `Json` node for each node of a serde_json `Value`, variant for
/// variant; a number is kept when `Number::as_u64` gives it.
#[verifier::external_body]
fn json_from_value(v: &serde_json::Value) -> Json {
    match v {
        serde_json::Value::Null => Json::Null,
        serde_json::Value::Bool(b) => Json::Bool(*b),
        serde_json::Value::Number(n) => Json::Number(n.as_u64()),
        serde_json::Value::String(s) => Json::Str(s.clone()),
        serde_json::Value::Array(a) => Json::Array(a.iter().map(json_from_value).collect()),
        serde_json::Value::Object(o) => Json::Object(o.iter().map(|(k, x)| (k.clone(), json_from_value(x))).collect()),
    }
}

/// The directory part of path `s`: everything up to and including its last
/// `/`, or nothing when it has none.
pub open spec fn dir_of(s: Seq<char>) -> Seq<char>
    decreases s.len(),
{
    if s.len() == 0 {
        s
    } else if s.last() == '/' {
        s
    } else {
        dir_of(s.drop_last())
    }
}

/// The directory part ends where the last `/` does.
proof fn lemma_dir_of(s: Seq<char>, i: int)
    requires
        0 <= i <= s.len(),
        forall|j: int| i <= j < s.len() ==> s[j] != '/',
        i == 0 || s[i - 1] == '/',
    ensures
        dir_of(s) == s.take(i),
    decreases s.len() - i,
{
    if i < s.len() {
        lemma_dir_of(s.drop_last(), i);
        assert(s.drop_last().take(i) =~= s.take(i));
    } else {
        assert(s.take(i) =~= s);
        if i == 0 {
            assert(s =~= Seq::<char>::empty());
        }
    }
}

/// The directory that the game's files are read from: the directory of the
/// hub file, with its trailing `/` (nothing when the hub file's path names no
/// directory).
pub fn root_dir(hub_file_name: &str) -> (r: String)
    ensures
        r@ == dir_of(hub_file_name@),
{
    let n = hub_file_name.unicode_len();
    let mut i: usize = n;
    while i > 0 && hub_file_name.get_char(i - 1) != '/'
        invariant
            i <= n,
            n == hub_file_name@.len(),
            forall|j: int| i <= j < n ==> hub_file_name@[j] != '/',
        decreases i,
    {
        i -= 1;
    }
    proof {
        lemma_dir_of(hub_file_name@, i as int);
    }
    String::from_str(hub_file_name.substring_char(0, i))
}

/// Whether the `imports` of a configuration file, if it has any, map file
/// names to aliases.
pub open spec fn imports_ok(data: Json) -> bool {
    json_get(data, "imports"@) matches Some(i) ==> all_str_entries(i)
}

/// The imports of a configuration file, each as `(alias, path)`: the path is
/// the file name under `root`.
pub open spec fn imports_of(root: Seq<char>, data: Json) -> Seq<(Seq<char>, Seq<char>)> {
    let es = entries_of(json_at(data, "imports"@));
    Seq::new(es.len(), |i: int| (str_of(es[i].1), root + es[i].0@))
}

/// Reads the imports of a configuration file.
pub fn read_imports(root: &str, data: &Json) -> (r: Vec<(String, String)>)
    requires
        imports_ok(*data),
    ensures
        imports_view(r@) == imports_of(root@, *data),
{
    let mut p: Vec<(String, String)> = Vec::new();
    match data.get("imports") {
        Some(i) => {
            let es = i.as_object().unwrap();
            let mut k: usize = 0;
            while k < es.len()
                invariant
                    k <= es@.len(),
                    all_str_entries(Json::Object(*es)),
                    imports_view(p@) == Seq::new(
                        k as nat,
                        |j: int| (str_of(es@[j].1), root@ + es@[j].0@),
                    ),
                decreases es@.len() - k,
            {
                assert(entries_of(Json::Object(*es))[k as int] == es@[k as int]);
                let value = es[k].1.as_str().unwrap().clone();
                let path = String::from_str(root).concat(es[k].0.as_str());
                let ghost old_p = p@;
                assert(imports_view(old_p).len() == old_p.len());
                assert(old_p.len() == k);
                p.push((value, path));
                assert(p@.len() == k + 1);
                assert forall|j: int| 0 <= j < k implies imports_view(p@)[j] == (
                    str_of(es@[j].1),
                    root@ + es@[j].0@,
                ) by {
                    assert(p@[j] == old_p[j]);
                    assert(imports_view(old_p)[j] == imports_view(p@)[j]);
                }
                assert(imports_view(p@)[k as int] == (str_of(es@[k as int].1), root@ + es@[k as int].0@));
                k += 1;
                assert(imports_view(p@) =~= Seq::new(
                    k as nat,
                    |j: int| (str_of(es@[j].1), root@ + es@[j].0@),
                ));
            }
            assert(imports_view(p@) =~= imports_of(root@, *data));
        },
        None => {
            assert(imports_view(p@) =~= imports_of(root@, *data));
        },
    }
    p
}

/// A copy of an import list.
pub fn copy_imports(imports: &Vec<(String, String)>) -> (r: Vec<(String, String)>)
    ensures
        imports_view(r@) == imports_view(imports@),
{
    let mut r: Vec<(String, String)> = Vec::new();
    let mut k: usize = 0;
    while k < imports.len()
        invariant
            k <= imports@.len(),
            imports_view(r@) == imports_view(imports@).take(k as int),
        decreases imports@.len() - k,
    {
        let ghost old_r = r@;
        assert(imports_view(old_r).len() == old_r.len());
        r.push((imports[k].0.clone(), imports[k].1.clone()));
        assert forall|j: int| 0 <= j < k implies imports_view(r@)[j] == imports_view(old_r)[j] by {
            assert(r@[j] == old_r[j]);
        }
        k += 1;
        assert(imports_view(r@) =~= imports_view(imports@).take(k as int));
    }
    assert(imports_view(imports@).take(k as int) =~= imports_view(imports@));
    r
}

/// Whether the script under `key`, if there is one, is a string.
pub open spec fn script_ok(data: Json, key: Seq<char>) -> bool {
    json_get(data, key) matches Some(s) ==> s is Str
}

/// The snippet that a script value stands for, with `imports`: its text when
/// there is a script, no text when there is none.
pub open spec fn snippet_of(imports: Seq<(Seq<char>, Seq<char>)>, script: Option<Json>) -> SnippetView {
    SnippetView {
        imports: imports,
        text: match script {
            Some(s) => Some(str_of(s)),
            None => None,
        },
    }
}

/// The snippet under `key` of a configuration object.
pub fn snippet_at(imports: &Vec<(String, String)>, data: &Json, key: &str) -> (r: Snippet)
    requires
        script_ok(*data, key@),
    ensures
        r@ == snippet_of(imports_view(imports@), json_get(*data, key@)),
{
    match data.get(key) {
        Some(s) => snippet_from(imports, s),
        None => Snippet { imports: copy_imports(imports), text: None },
    }
}

/// The snippet that a script string stands for.
pub fn snippet_from(imports: &Vec<(String, String)>, script: &Json) -> (r: Snippet)
    requires
        script is Str,
    ensures
        r@ == snippet_of(imports_view(imports@), Some(*script)),
{
    let text = script.as_str().unwrap().clone();
    Snippet { imports: copy_imports(imports), text: Some(text) }
}

} // verus!
