//! The game as its configuration describes it: the script packages to load,
//! the main scripts, and the kinds of entities, levels and layouts by name.

use std::rc::Rc;
use vstd::prelude::*;
use crate::entity::{Entity, EntityInst};
use crate::error::{EngErr, RunCode};
use crate::layout::{InputKey, Layout};
use crate::level::{Level, LevelInst, filled_grid};
use crate::snippet::Snippet;
use crate::strmap::StrMap;
use crate::json::{
    Json, json_at, json_get, str_of, items_of, all_str_items, imports_ok, imports_of, script_ok,
    snippet_of, read_imports, snippet_at, root_dir, dir_of, json_of_text, parse_json,
};
use crate::snippet::imports_view;
use crate::json::entries_of;
use crate::textitem::{TextColour, TextItemView};
use crate::layout::{layout_ok, layout_built, build_layout, check_layout};
use crate::tile::{tiles_ok, tile_set_built, build_tile_set, check_tiles};

verus! {

/// The game's configuration.
pub struct Global {
    sources: Vec<String>,
    init: Snippet,
    tick: Snippet,
    end: Snippet,
    entities: StrMap<Entity>,
    levels: StrMap<Rc<Level>>,
    layouts: StrMap<Layout>,
}

impl Global {
    /// The paths of the script packages to load, in order.
    pub closed spec fn source_paths(&self) -> Seq<Seq<char>> {
        Seq::new(self.sources@.len(), |i: int| self.sources@[i]@)
    }

    /// The script run when the game starts.
    pub closed spec fn init_script(&self) -> Snippet {
        self.init
    }

    /// The script run on each tick.
    pub closed spec fn tick_script(&self) -> Snippet {
        self.tick
    }

    /// The script run when the game ends.
    pub closed spec fn end_script(&self) -> Snippet {
        self.end
    }

    /// The entity kinds by name.
    pub closed spec fn entities(&self) -> Map<Seq<char>, Entity> {
        self.entities@
    }

    /// The level kinds by name.
    pub closed spec fn levels(&self) -> Map<Seq<char>, Rc<Level>> {
        self.levels@
    }

    /// The layouts by name.
    pub closed spec fn layouts(&self) -> Map<Seq<char>, Layout> {
        self.layouts@
    }

    /// An empty configuration: no packages, no kinds, scripts that do
    /// nothing.
    pub fn new() -> (r: Global)
        ensures
            r.source_paths().len() == 0,
            r.init_script()@.text is None,
            r.tick_script()@.text is None,
            r.end_script()@.text is None,
            r.entities() == Map::<Seq<char>, Entity>::empty(),
            r.levels() == Map::<Seq<char>, Rc<Level>>::empty(),
            r.layouts() == Map::<Seq<char>, Layout>::empty(),
    {
        Global {
            sources: Vec::new(),
            init: Snippet::empty(),
            tick: Snippet::empty(),
            end: Snippet::empty(),
            entities: StrMap::new(),
            levels: StrMap::new(),
            layouts: StrMap::new(),
        }
    }

    /// The paths of the script packages to load, in order.
    pub fn sources(&self) -> (r: &Vec<String>)
        ensures
            Seq::new(r@.len(), |i: int| r@[i]@) == self.source_paths(),
    {
        &self.sources
    }

    /// The script run when the game starts.
    pub fn init(&self) -> (r: &Snippet)
        ensures
            *r == self.init_script(),
    {
        &self.init
    }

    /// The script run on each tick.
    pub fn tick(&self) -> (r: &Snippet)
        ensures
            *r == self.tick_script(),
    {
        &self.tick
    }

    /// The script run when the game ends.
    pub fn end(&self) -> (r: &Snippet)
        ensures
            *r == self.end_script(),
    {
        &self.end
    }

    /// The names of the entity kinds, each at least once.
    pub fn entity_names(&self) -> (r: Vec<String>)
        ensures
            forall|k: Seq<char>| self.entities().contains_key(k) <==> exists|i: int| 0 <= i < r@.len() && (#[trigger] r@[i])@ == k,
    {
        self.entities.keys()
    }

    /// The names of the level kinds, each at least once.
    pub fn level_names(&self) -> (r: Vec<String>)
        ensures
            forall|k: Seq<char>| self.levels().contains_key(k) <==> exists|i: int| 0 <= i < r@.len() && (#[trigger] r@[i])@ == k,
    {
        self.levels.keys()
    }

    /// The names of the layouts, each at least once.
    pub fn layout_names(&self) -> (r: Vec<String>)
        ensures
            forall|k: Seq<char>| self.layouts().contains_key(k) <==> exists|i: int| 0 <= i < r@.len() && (#[trigger] r@[i])@ == k,
    {
        self.layouts.keys()
    }

    /// Whether a layout is named `name`.
    pub fn has_layout(&self, name: &str) -> (r: bool)
        ensures
            r == self.layouts().contains_key(name@),
    {
        self.layouts.contains(name)
    }

    /// The script that `key` runs in layout `current_layout`, if any.
    pub fn run_input(&self, current_layout: &str, key: &InputKey) -> (r: Option<&Snippet>)
        requires
            self.layouts().contains_key(current_layout@),
        ensures
            ({
                let l = self.layouts()[current_layout@];
                match r {
                    Some(s) => if l.bindings().contains_key(*key) {
                        *s == l.bindings()[*key]
                    } else {
                        l.default_script() == Some(*s)
                    },
                    None => !l.bindings().contains_key(*key) && l.default_script() is None,
                }
            }),
    {
        self.layouts.get(current_layout).unwrap().run_input(key)
    }

    /// The render script of layout `current_layout`.
    pub fn run_render(&self, current_layout: &str) -> (r: &Snippet)
        requires
            self.layouts().contains_key(current_layout@),
        ensures
            *r == self.layouts()[current_layout@].render_script(),
    {
        self.layouts.get(current_layout).unwrap().render()
    }

    /// A new instance of the entity kind `name`, with `fields` as its data.
    pub fn new_entity_instance<V>(&self, name: &str, fields: V) -> (r: Result<EntityInst<V>, EngErr>)
        ensures
            self.entities().contains_key(name@) <==> r is Ok,
            r matches Ok(e) ==> {
                &&& e.name() == name@
                &&& e.tile()@ == self.entities()[name@].tile()@
                &&& e.data() == fields
            },
            r matches Err(e) ==> e == EngErr::RunTime(RunCode::EntityClassNotFound),
    {
        match self.entities.get(name) {
            Some(e) => Ok(e.new_instance(name, fields)),
            None => Err(EngErr::RunTime(RunCode::EntityClassNotFound)),
        }
    }

    /// A new instance of the level kind `name`, with `data` as its data.
    pub fn new_level_instance<V>(&self, name: &str, data: V) -> (r: Result<LevelInst<V>, EngErr>)
        ensures
            self.levels().contains_key(name@) <==> r is Ok,
            r matches Ok(l) ==> {
                let k = self.levels()[name@];
                &&& l.wf()
                &&& l.kind() == k
                &&& l.tiles() == filled_grid(
                    k.width() as nat,
                    k.height() as nat,
                    k.tiles().default_id(),
                )
                &&& l.entities() == Map::<u64, EntityInst<V>>::empty()
                &&& l.locations() == Map::<u64, crate::Coord>::empty()
                &&& l.data() == data
            },
            r matches Err(e) ==> e == EngErr::RunTime(RunCode::LevelClassNotFound),
    {
        match self.levels.get(name) {
            Some(l) => Ok(LevelInst::new(l.clone(), data)),
            None => Err(EngErr::RunTime(RunCode::LevelClassNotFound)),
        }
    }

    /// The creation script of the level kind `name`.
    pub fn level_init(&self, name: &str) -> (r: Result<&Snippet, EngErr>)
        ensures
            self.levels().contains_key(name@) <==> r is Ok,
            r matches Ok(s) ==> *s == self.levels()[name@].init_script(),
            r matches Err(e) ==> e == EngErr::RunTime(RunCode::LevelClassNotFound),
    {
        match self.levels.get(name) {
            Some(l) => Ok(l.init()),
            None => Err(EngErr::RunTime(RunCode::LevelClassNotFound)),
        }
    }

    /// The deletion script of the level kind `name`.
    pub fn level_delete(&self, name: &str) -> (r: Result<&Snippet, EngErr>)
        ensures
            self.levels().contains_key(name@) <==> r is Ok,
            r matches Ok(s) ==> *s == self.levels()[name@].delete_script(),
            r matches Err(e) ==> e == EngErr::RunTime(RunCode::LevelClassNotFound),
    {
        match self.levels.get(name) {
            Some(l) => Ok(l.delete()),
            None => Err(EngErr::RunTime(RunCode::LevelClassNotFound)),
        }
    }

    /// The creation script of the entity kind `name`.
    pub fn entity_init(&self, name: &str) -> (r: Result<&Snippet, EngErr>)
        ensures
            self.entities().contains_key(name@) <==> r is Ok,
            r matches Ok(s) ==> *s == self.entities()[name@].init_script(),
            r matches Err(e) ==> e == EngErr::RunTime(RunCode::EntityClassNotFound),
    {
        match self.entities.get(name) {
            Some(e) => Ok(e.init()),
            None => Err(EngErr::RunTime(RunCode::EntityClassNotFound)),
        }
    }

    /// The action script of the entity kind `name`.
    pub fn entity_action(&self, name: &str) -> (r: Result<&Snippet, EngErr>)
        ensures
            self.entities().contains_key(name@) <==> r is Ok,
            r matches Ok(s) ==> *s == self.entities()[name@].action_script(),
            r matches Err(e) ==> e == EngErr::RunTime(RunCode::EntityClassNotFound),
    {
        match self.entities.get(name) {
            Some(e) => Ok(e.action()),
            None => Err(EngErr::RunTime(RunCode::EntityClassNotFound)),
        }
    }

    /// The post-action script of the entity kind `name`.
    pub fn entity_post_action(&self, name: &str) -> (r: Result<&Snippet, EngErr>)
        ensures
            self.entities().contains_key(name@) <==> r is Ok,
            r matches Ok(s) ==> *s == self.entities()[name@].post_action_script(),
            r matches Err(e) ==> e == EngErr::RunTime(RunCode::EntityClassNotFound),
    {
        match self.entities.get(name) {
            Some(e) => Ok(e.post_action()),
            None => Err(EngErr::RunTime(RunCode::EntityClassNotFound)),
        }
    }

    /// The deletion script of the entity kind `name`.
    pub fn entity_delete(&self, name: &str) -> (r: Result<&Snippet, EngErr>)
        ensures
            self.entities().contains_key(name@) <==> r is Ok,
            r matches Ok(s) ==> *s == self.entities()[name@].delete_script(),
            r matches Err(e) ==> e == EngErr::RunTime(RunCode::EntityClassNotFound),
    {
        match self.entities.get(name) {
            Some(e) => Ok(e.delete()),
            None => Err(EngErr::RunTime(RunCode::EntityClassNotFound)),
        }
    }
}

/// The texts of a list of strings.
pub open spec fn strings_view(s: Seq<String>) -> Seq<Seq<char>> {
    Seq::new(s.len(), |i: int| s[i]@)
}

/// Whether `hub[key]` is a list of file names.
pub open spec fn file_list_ok(hub: Json, key: Seq<char>) -> bool {
    all_str_items(json_at(hub, key))
}

/// The paths of the files that `hub[key]` names: each name under `root`.
pub open spec fn file_list_of(root: Seq<char>, hub: Json, key: Seq<char>) -> Seq<Seq<char>> {
    let it = items_of(json_at(hub, key));
    Seq::new(it.len(), |i: int| root + str_of(it[i]))
}

/// The paths of the files that `hub[key]` names, each under `root`.
pub fn file_list(root: &str, hub: &Json, key: &str) -> (r: Vec<String>)
    requires
        file_list_ok(*hub, key@),
    ensures
        strings_view(r@) == file_list_of(root@, *hub, key@),
{
    let mut r: Vec<String> = Vec::new();
    let list = match hub.get(key) {
        Some(l) => l.as_array().unwrap(),
        None => {
            proof {
                assert(false);
            }
            return r;
        },
    };
    let mut k: usize = 0;
    while k < list.len()
        invariant
            k <= list@.len(),
            json_at(*hub, key@) == Json::Array(*list),
            all_str_items(Json::Array(*list)),
            strings_view(r@) == Seq::new(k as nat, |j: int| root@ + str_of(list@[j])),
        decreases list@.len() - k,
    {
        assert(items_of(Json::Array(*list))[k as int] == list@[k as int]);
        let name = list[k].as_str().unwrap();
        let path = String::from_str(root).concat(name.as_str());
        let ghost old_r = r@;
        assert(strings_view(old_r).len() == old_r.len());
        r.push(path);
        assert forall|j: int| 0 <= j < k implies strings_view(r@)[j] == root@ + str_of(list@[j]) by {
            assert(r@[j] == old_r[j]);
            assert(strings_view(old_r)[j] == strings_view(r@)[j]);
        }
        k += 1;
        assert(strings_view(r@) =~= Seq::new(k as nat, |j: int| root@ + str_of(list@[j])));
    }
    assert(strings_view(r@) =~= file_list_of(root@, *hub, key@));
    r
}

/// Whether the hub file has what loading a game reads of it: lists of script
/// packages, entity, level and layout files, its imports, and scripts (when
/// given) as strings.
pub open spec fn hub_ok(hub: Json) -> bool {
    &&& file_list_ok(hub, "source"@)
    &&& file_list_ok(hub, "entities"@)
    &&& file_list_ok(hub, "levels"@)
    &&& file_list_ok(hub, "layouts"@)
    &&& imports_ok(hub)
    &&& script_ok(hub, "init"@)
    &&& script_ok(hub, "end"@)
    &&& script_ok(hub, "tick"@)
}

/// A hub needs no imports: one without an `imports` entry is fit to load a
/// game from exactly when its file lists are lists of strings and its
/// scripts, where given, are strings.
pub proof fn law_hub_imports_optional(hub: Json)
    requires
        json_get(hub, "imports"@) is None,
    ensures
        hub_ok(hub) == ({
            &&& all_str_items(json_at(hub, "source"@))
            &&& all_str_items(json_at(hub, "entities"@))
            &&& all_str_items(json_at(hub, "levels"@))
            &&& all_str_items(json_at(hub, "layouts"@))
            &&& json_get(hub, "init"@) matches Some(s) ==> s is Str
            &&& json_get(hub, "end"@) matches Some(s) ==> s is Str
            &&& json_get(hub, "tick"@) matches Some(s) ==> s is Str
        }),
{
}

/// Whether `hub` is fit to load a game from.
pub fn check_hub(hub: &Json) -> (r: bool)
    ensures
        r == hub_ok(*hub),
{
    list_ok(hub, "source") && list_ok(hub, "entities") && list_ok(hub, "levels") && list_ok(
        hub,
        "layouts",
    ) && check_imports(hub) && check_script(hub, "init") && check_script(hub, "end")
        && check_script(hub, "tick")
}

/// Whether `data[key]` is a list of strings.
pub fn list_ok(data: &Json, key: &str) -> (r: bool)
    ensures
        r == file_list_ok(*data, key@),
{
    match data.get(key) {
        Some(l) => match l.as_array() {
            Some(v) => {
                let mut k: usize = 0;
                while k < v.len()
                    invariant
                        *l == Json::Array(*v),
                        json_at(*data, key@) == *l,
                        k <= v@.len(),
                        forall|j: int| 0 <= j < k ==> (#[trigger] v@[j]) is Str,
                    decreases v@.len() - k,
                {
                    if v[k].as_str().is_none() {
                        assert(items_of(Json::Array(*v))[k as int] == v@[k as int]);
                        return false;
                    }
                    k += 1;
                }
                assert forall|j: int| 0 <= j < items_of(*l).len() implies (#[trigger] items_of(*l)[j]) is Str by {
                    assert(v@[j] is Str);
                }
                true
            },
            None => false,
        },
        None => false,
    }
}

/// Whether the imports of `data`, if any, map file names to aliases.
pub fn check_imports(data: &Json) -> (r: bool)
    ensures
        r == imports_ok(*data),
{
    match data.get("imports") {
        Some(i) => all_entries_str(i),
        None => true,
    }
}

/// Whether `j` is an object all of whose entries hold strings.
pub fn all_entries_str(j: &Json) -> (r: bool)
    ensures
        r == crate::json::all_str_entries(*j),
{
    match j.as_object() {
        Some(es) => {
            let mut k: usize = 0;
            while k < es.len()
                invariant
                    *j == Json::Object(*es),
                    k <= es@.len(),
                    forall|i: int| 0 <= i < k ==> (#[trigger] es@[i]).1 is Str,
                decreases es@.len() - k,
            {
                if es[k].1.as_str().is_none() {
                    assert(crate::json::entries_of(*j)[k as int] == es@[k as int]);
                    return false;
                }
                k += 1;
            }
            assert forall|i: int| 0 <= i < crate::json::entries_of(*j).len() implies (
            #[trigger] crate::json::entries_of(*j)[i]).1 is Str by {
                assert(es@[i].1 is Str);
            }
            true
        },
        None => false,
    }
}

/// Whether the script under `key` of `data`, if any, is a string.
pub fn check_script(data: &Json, key: &str) -> (r: bool)
    ensures
        r == script_ok(*data, key@),
{
    match data.get(key) {
        Some(s) => s.as_str().is_some(),
        None => true,
    }
}

impl Global {
    /// Records the script packages that the hub file lists, each under
    /// `root`, after those already recorded; the packages are loaded from
    /// these paths.
    pub fn add_sources(&mut self, root: &str, hub: &Json)
        requires
            file_list_ok(*hub, "source"@),
        ensures
            final(self).source_paths() == old(self).source_paths() + file_list_of(
                root@,
                *hub,
                "source"@,
            ),
            final(self).init_script() == old(self).init_script(),
            final(self).tick_script() == old(self).tick_script(),
            final(self).end_script() == old(self).end_script(),
            final(self).entities() == old(self).entities(),
            final(self).levels() == old(self).levels(),
            final(self).layouts() == old(self).layouts(),
    {
        let mut paths = file_list(root, hub, "source");
        let ghost added = paths@;
        self.sources.append(&mut paths);
        assert(self.source_paths() =~= old(self).source_paths() + strings_view(added));
    }

    /// Sets the game's main scripts from the hub file: `init`, `end` and
    /// `tick`, with the hub's imports (each file name under `root`); a
    /// script that is not given does nothing.
    pub fn load_scripts(&mut self, root: &str, hub: &Json)
        requires
            imports_ok(*hub),
            script_ok(*hub, "init"@),
            script_ok(*hub, "end"@),
            script_ok(*hub, "tick"@),
        ensures
            final(self).init_script()@ == snippet_of(imports_of(root@, *hub), json_get(*hub, "init"@)),
            final(self).end_script()@ == snippet_of(imports_of(root@, *hub), json_get(*hub, "end"@)),
            final(self).tick_script()@ == snippet_of(imports_of(root@, *hub), json_get(*hub, "tick"@)),
            final(self).source_paths() == old(self).source_paths(),
            final(self).entities() == old(self).entities(),
            final(self).levels() == old(self).levels(),
            final(self).layouts() == old(self).layouts(),
    {
        let packs = read_imports(root, hub);
        self.init = snippet_at(&packs, hub, "init");
        self.end = snippet_at(&packs, hub, "end");
        self.tick = snippet_at(&packs, hub, "tick");
    }
}

/// Whether entry `i` of `es` is the last one with its name.
pub open spec fn last_of_name<T>(es: Seq<(String, T)>, i: int) -> bool {
    forall|j: int| i < j < es.len() ==> (#[trigger] es[j]).0@ != es[i].0@
}

/// Whether some entry of `es` has the name `k`.
pub open spec fn has_entry<T>(es: Seq<(String, T)>, k: Seq<char>) -> bool {
    exists|i: int| 0 <= i < es.len() && (#[trigger] es[i]).0@ == k
}

/// The index of the last entry of `es` named `k` (-1 when there is none).
pub open spec fn last_index<T>(es: Seq<(String, T)>, k: Seq<char>) -> int
    decreases es.len(),
{
    if es.len() == 0 {
        -1
    } else if es.last().0@ == k {
        es.len() - 1
    } else {
        last_index(es.drop_last(), k)
    }
}

/// The last entry named `k`, when there is one, is an entry named `k` and
/// the last of its name.
pub proof fn lemma_last_index<T>(es: Seq<(String, T)>, k: Seq<char>)
    ensures
        has_entry(es, k) ==> {
            let li = last_index(es, k);
            &&& 0 <= li < es.len()
            &&& es[li].0@ == k
            &&& last_of_name(es, li)
        },
        !has_entry(es, k) ==> last_index(es, k) == -1,
    decreases es.len(),
{
    if es.len() > 0 {
        let pre = es.drop_last();
        lemma_last_index(pre, k);
        if es.last().0@ != k {
            if has_entry(es, k) {
                let w = choose|w: int| 0 <= w < es.len() && (#[trigger] es[w]).0@ == k;
                assert(w < es.len() - 1);
                assert(pre[w] == es[w]);
                let li = last_index(pre, k);
                assert forall|j: int| li < j < es.len() implies (#[trigger] es[j]).0@ != es[li].0@ by {
                    if j < es.len() - 1 {
                        assert(pre[j] == es[j]);
                    }
                }
            } else {
                assert forall|w: int| 0 <= w < pre.len() implies (#[trigger] pre[w]).0@ != k by {
                    assert(pre[w] == es[w]);
                }
            }
        }
    }
}

/// The index of the last of `files` whose `section` has an entry named `k`.
pub open spec fn last_file_with(files: Seq<Json>, section: Seq<char>, k: Seq<char>) -> Option<int>
    decreases files.len(),
{
    if files.len() == 0 {
        None
    } else if has_entry(entries_of(json_at(files.last(), section)), k) {
        Some(files.len() - 1)
    } else {
        last_file_with(files.drop_last(), section, k)
    }
}

/// The configuration that the last file with an entry `k` in `section`
/// gives for `k`.
pub open spec fn last_config(files: Seq<Json>, section: Seq<char>, k: Seq<char>) -> Json {
    let f = last_file_with(files, section, k)->0;
    let es = entries_of(json_at(files[f], section));
    es[last_index(es, k)].1
}

/// Whether the configuration of an entity kind has a tile text and its
/// scripts, where given, as strings.
pub open spec fn entity_ok(ent: Json) -> bool {
    &&& json_at(ent, "tile"@) is Str
    &&& script_ok(ent, "init"@)
    &&& script_ok(ent, "action"@)
    &&& script_ok(ent, "post_action"@)
    &&& script_ok(ent, "delete"@)
}

/// Whether an entity file has what loading reads of it: its imports and an
/// object of entity kinds.
pub open spec fn entity_file_ok(data: Json) -> bool {
    &&& imports_ok(data)
    &&& json_at(data, "entities"@) is Object
    &&& forall|i: int|
        0 <= i < entries_of(json_at(data, "entities"@)).len() ==> entity_ok(
            (#[trigger] entries_of(json_at(data, "entities"@))[i]).1,
        )
}

/// Whether `e` is the entity kind that configuration `ent` describes, with
/// `imports` for its scripts.
pub open spec fn entity_built(e: Entity, imports: Seq<(Seq<char>, Seq<char>)>, ent: Json) -> bool {
    &&& e.tile()@ == TextItemView {
        text: str_of(json_at(ent, "tile"@)),
        colour: TextColour::Default,
        options: Seq::empty(),
    }
    &&& e.init_script()@ == snippet_of(imports, json_get(ent, "init"@))
    &&& e.action_script()@ == snippet_of(imports, json_get(ent, "action"@))
    &&& e.post_action_script()@ == snippet_of(imports, json_get(ent, "post_action"@))
    &&& e.delete_script()@ == snippet_of(imports, json_get(ent, "delete"@))
}

/// Whether entity file `data` checks out.
pub fn check_entity_file(data: &Json) -> (r: bool)
    ensures
        r == entity_file_ok(*data),
{
    if !check_imports(data) {
        return false;
    }
    let es = match data.get("entities") {
        Some(e) => match e.as_object() {
            Some(es) => es,
            None => return false,
        },
        None => return false,
    };
    let mut k: usize = 0;
    while k < es.len()
        invariant
            json_at(*data, "entities"@) == Json::Object(*es),
            k <= es@.len(),
            forall|i: int| 0 <= i < k ==> entity_ok((#[trigger] es@[i]).1),
        decreases es@.len() - k,
    {
        let ent = &es[k].1;
        let ok = match ent.get("tile") {
            Some(t) => t.as_str().is_some(),
            None => false,
        } && check_script(ent, "init") && check_script(ent, "action") && check_script(
            ent,
            "post_action",
        ) && check_script(ent, "delete");
        if !ok {
            assert(entries_of(json_at(*data, "entities"@))[k as int] == es@[k as int]);
            return false;
        }
        k += 1;
    }
    assert forall|i: int| 0 <= i < entries_of(json_at(*data, "entities"@)).len() implies entity_ok(
        (#[trigger] entries_of(json_at(*data, "entities"@))[i]).1,
    ) by {
        assert(entity_ok(es@[i].1));
    }
    true
}

impl Global {
    /// Adds the entity kinds of an entity file, their scripts with the
    /// file's imports (each file name under `root`); a kind replaces an
    /// earlier one of its name, and within the file the last of a name
    /// counts.
    pub fn load_entity_file(&mut self, root: &str, data: &Json)
        requires
            entity_file_ok(*data),
        ensures
            ({
                let es = entries_of(json_at(*data, "entities"@));
                let imps = imports_of(root@, *data);
                &&& forall|k: Seq<char>| #[trigger]
                    final(self).entities().contains_key(k) <==> (old(self).entities().contains_key(k)
                        || has_entry(es, k))
                &&& forall|k: Seq<char>| #[trigger]
                    old(self).entities().contains_key(k) && !has_entry(es, k)
                        ==> final(self).entities()[k] == old(self).entities()[k]
                &&& forall|i: int|
                    0 <= i < es.len() && last_of_name(es, i) ==> entity_built(
                        final(self).entities()[(#[trigger] es[i]).0@],
                        imps,
                        es[i].1,
                    )
            }),
            final(self).source_paths() == old(self).source_paths(),
            final(self).init_script() == old(self).init_script(),
            final(self).tick_script() == old(self).tick_script(),
            final(self).end_script() == old(self).end_script(),
            final(self).levels() == old(self).levels(),
            final(self).layouts() == old(self).layouts(),
    {
        let packs = read_imports(root, data);
        let es = match data.get("entities") {
            Some(e) => e.as_object().unwrap(),
            None => {
                proof {
                    assert(false);
                }
                return ;
            },
        };
        let ghost imps = imports_of(root@, *data);
        let mut k: usize = 0;
        while k < es.len()
            invariant
                json_at(*data, "entities"@) == Json::Object(*es),
                entity_file_ok(*data),
                imports_view(packs@) == imps,
                k <= es@.len(),
                forall|key: Seq<char>| #[trigger]
                    self.entities().contains_key(key) <==> (old(self).entities().contains_key(key)
                        || has_entry(es@.take(k as int), key)),
                forall|key: Seq<char>| #[trigger]
                    old(self).entities().contains_key(key) && !has_entry(es@.take(k as int), key)
                        ==> self.entities()[key] == old(self).entities()[key],
                forall|i: int|
                    0 <= i < k && last_of_name(es@.take(k as int), i) ==> entity_built(
                        self.entities()[(#[trigger] es@[i]).0@],
                        imps,
                        es@[i].1,
                    ),
                self.source_paths() == old(self).source_paths(),
                self.init == old(self).init,
                self.tick == old(self).tick,
                self.end == old(self).end,
                self.levels() == old(self).levels(),
                self.layouts() == old(self).layouts(),
            decreases es@.len() - k,
        {
            let name = &es[k].0;
            let ent = &es[k].1;
            assert(entries_of(json_at(*data, "entities"@))[k as int] == es@[k as int]);
            let tile = match ent.get("tile") {
                Some(t) => t.as_str().unwrap(),
                None => {
                    proof {
                        assert(false);
                    }
                    return ;
                },
            };
            let e = Entity::new(
                tile.as_str(),
                snippet_at(&packs, ent, "init"),
                snippet_at(&packs, ent, "action"),
                snippet_at(&packs, ent, "post_action"),
                snippet_at(&packs, ent, "delete"),
            );
            assert(e.tile()@.options =~= Seq::<crate::textitem::TextOption>::empty());
            assert(entity_built(e, imps, es@[k as int].1));
            let ghost before = self.entities();
            self.entities.insert(name.clone(), e);
            let ghost pre = es@.take(k as int);
            k += 1;
            let ghost post = es@.take(k as int);
            proof {
                assert(post == pre.push(es@[k - 1]));
                assert forall|key: Seq<char>|
                    has_entry(post, key) <==> (has_entry(pre, key) || key == es@[k - 1].0@) by {
                    if has_entry(post, key) {
                        let w = choose|w: int| 0 <= w < post.len() && (#[trigger] post[w]).0@ == key;
                        if w < k - 1 {
                            assert(pre[w] == post[w]);
                        }
                    }
                    if has_entry(pre, key) {
                        let w = choose|w: int| 0 <= w < pre.len() && (#[trigger] pre[w]).0@ == key;
                        assert(post[w] == pre[w]);
                    }
                    if key == es@[k - 1].0@ {
                        assert(post[k - 1] == es@[k - 1]);
                    }
                }
                assert forall|i: int|
                    0 <= i < k && last_of_name(post, i) implies entity_built(
                    self.entities()[(#[trigger] es@[i]).0@],
                    imps,
                    es@[i].1,
                ) by {
                    if i < k - 1 {
                        assert(post[k - 1] == es@[k - 1]);
                        assert(es@[k - 1].0@ != es@[i].0@);
                        assert forall|j: int| i < j < pre.len() implies (#[trigger] pre[j]).0@
                            != pre[i].0@ by {
                            assert(post[j] == pre[j]);
                        }
                        assert(last_of_name(pre, i));
                        assert(self.entities()[es@[i].0@] == before[es@[i].0@]);
                    }
                }
            }
        }
        assert(es@.take(k as int) =~= es@);
    }
}

/// The value of a whole-number JSON value (0 for any other value).
pub open spec fn num_of(j: Json) -> u64 {
    match j {
        Json::Number(Some(n)) => n,
        _ => 0,
    }
}

/// Whether the configuration of a level kind has its size as whole numbers
/// and its scripts, where given, as strings.
pub open spec fn level_ok(lev: Json) -> bool {
    &&& json_at(lev, "x"@) matches Json::Number(Some(_))
    &&& json_at(lev, "y"@) matches Json::Number(Some(_))
    &&& script_ok(lev, "init"@)
    &&& script_ok(lev, "delete"@)
}

/// Whether a level file has what loading reads of it: its imports, its
/// tiles and an object of level kinds.
pub open spec fn level_file_ok(data: Json) -> bool {
    &&& imports_ok(data)
    &&& tiles_ok(json_at(data, "tiles"@))
    &&& json_at(data, "levels"@) is Object
    &&& forall|i: int|
        0 <= i < entries_of(json_at(data, "levels"@)).len() ==> level_ok(
            (#[trigger] entries_of(json_at(data, "levels"@))[i]).1,
        )
}

/// Whether `l` is the level kind that configuration `lev` describes, with
/// the tile set that `t` describes and `imports` for its scripts.
pub open spec fn level_built(
    l: Rc<Level>,
    imports: Seq<(Seq<char>, Seq<char>)>,
    t: Json,
    lev: Json,
) -> bool {
    &&& tile_set_built(*l.tiles(), t)
    &&& l.width() == num_of(json_at(lev, "x"@)) as usize
    &&& l.height() == num_of(json_at(lev, "y"@)) as usize
    &&& l.init_script()@ == snippet_of(imports, json_get(lev, "init"@))
    &&& l.delete_script()@ == snippet_of(imports, json_get(lev, "delete"@))
}

/// Whether a level kind's configuration checks out.
fn check_level(lev: &Json) -> (r: bool)
    ensures
        r == level_ok(*lev),
{
    let x_ok = match lev.get("x") {
        Some(x) => x.as_u64().is_some(),
        None => false,
    };
    let y_ok = match lev.get("y") {
        Some(y) => y.as_u64().is_some(),
        None => false,
    };
    x_ok && y_ok && check_script(lev, "init") && check_script(lev, "delete")
}

/// Whether level file `data` checks out.
pub fn check_level_file(data: &Json) -> (r: bool)
    ensures
        r == level_file_ok(*data),
{
    if !check_imports(data) {
        return false;
    }
    match data.get("tiles") {
        Some(t) => if !check_tiles(t) {
            return false;
        },
        None => {
            assert(!tiles_ok(Json::Null));
            return false;
        },
    }
    let es = match data.get("levels") {
        Some(e) => match e.as_object() {
            Some(es) => es,
            None => return false,
        },
        None => return false,
    };
    let mut k: usize = 0;
    while k < es.len()
        invariant
            json_at(*data, "levels"@) == Json::Object(*es),
            k <= es@.len(),
            forall|i: int| 0 <= i < k ==> level_ok((#[trigger] es@[i]).1),
        decreases es@.len() - k,
    {
        if !check_level(&es[k].1) {
            assert(entries_of(json_at(*data, "levels"@))[k as int] == es@[k as int]);
            return false;
        }
        k += 1;
    }
    assert forall|i: int| 0 <= i < entries_of(json_at(*data, "levels"@)).len() implies level_ok(
        (#[trigger] entries_of(json_at(*data, "levels"@))[i]).1,
    ) by {
        assert(level_ok(es@[i].1));
    }
    true
}

impl Global {
    /// Adds the level kinds of a level file, all with the file's tile set
    /// and their scripts with the file's imports (each file name under
    /// `root`); a kind replaces an earlier one of its name, and within the
    /// file the last of a name counts.
    pub fn load_level_file(&mut self, root: &str, data: &Json)
        requires
            level_file_ok(*data),
        ensures
            ({
                let es = entries_of(json_at(*data, "levels"@));
                let imps = imports_of(root@, *data);
                let t = json_at(*data, "tiles"@);
                &&& forall|k: Seq<char>| #[trigger]
                    final(self).levels().contains_key(k) <==> (old(self).levels().contains_key(k)
                        || has_entry(es, k))
                &&& forall|k: Seq<char>| #[trigger]
                    old(self).levels().contains_key(k) && !has_entry(es, k)
                        ==> final(self).levels()[k] == old(self).levels()[k]
                &&& forall|i: int|
                    0 <= i < es.len() && last_of_name(es, i) ==> level_built(
                        final(self).levels()[(#[trigger] es[i]).0@],
                        imps,
                        t,
                        es[i].1,
                    )
            }),
            final(self).source_paths() == old(self).source_paths(),
            final(self).init_script() == old(self).init_script(),
            final(self).tick_script() == old(self).tick_script(),
            final(self).end_script() == old(self).end_script(),
            final(self).entities() == old(self).entities(),
            final(self).layouts() == old(self).layouts(),
    {
        let packs = read_imports(root, data);
        let t = match data.get("tiles") {
            Some(t) => t,
            None => {
                proof {
                    assert(false);
                }
                return ;
            },
        };
        let tile_info = Rc::new(build_tile_set(t));
        let es = match data.get("levels") {
            Some(e) => e.as_object().unwrap(),
            None => {
                proof {
                    assert(false);
                }
                return ;
            },
        };
        let ghost imps = imports_of(root@, *data);
        let mut k: usize = 0;
        while k < es.len()
            invariant
                json_at(*data, "levels"@) == Json::Object(*es),
                json_at(*data, "tiles"@) == *t,
                level_file_ok(*data),
                tile_set_built(*tile_info, *t),
                imports_view(packs@) == imps,
                k <= es@.len(),
                forall|key: Seq<char>| #[trigger]
                    self.levels().contains_key(key) <==> (old(self).levels().contains_key(key)
                        || has_entry(es@.take(k as int), key)),
                forall|key: Seq<char>| #[trigger]
                    old(self).levels().contains_key(key) && !has_entry(es@.take(k as int), key)
                        ==> self.levels()[key] == old(self).levels()[key],
                forall|i: int|
                    0 <= i < k && last_of_name(es@.take(k as int), i) ==> level_built(
                        self.levels()[(#[trigger] es@[i]).0@],
                        imps,
                        *t,
                        es@[i].1,
                    ),
                self.source_paths() == old(self).source_paths(),
                self.init == old(self).init,
                self.tick == old(self).tick,
                self.end == old(self).end,
                self.entities() == old(self).entities(),
                self.layouts() == old(self).layouts(),
            decreases es@.len() - k,
        {
            let name = &es[k].0;
            let lev = &es[k].1;
            assert(entries_of(json_at(*data, "levels"@))[k as int] == es@[k as int]);
            let x = match lev.get("x") {
                Some(x) => x.as_u64().unwrap(),
                None => {
                    proof {
                        assert(false);
                    }
                    return ;
                },
            };
            let y = match lev.get("y") {
                Some(y) => y.as_u64().unwrap(),
                None => {
                    proof {
                        assert(false);
                    }
                    return ;
                },
            };
            let l = Rc::new(
                Level::new(
                    x,
                    y,
                    tile_info.clone(),
                    snippet_at(&packs, lev, "init"),
                    snippet_at(&packs, lev, "delete"),
                ),
            );
            assert(level_built(l, imps, *t, es@[k as int].1));
            let ghost before = self.levels();
            self.levels.insert(name.clone(), l);
            let ghost pre = es@.take(k as int);
            k += 1;
            let ghost post = es@.take(k as int);
            proof {
                assert(post == pre.push(es@[k - 1]));
                assert forall|key: Seq<char>|
                    has_entry(post, key) <==> (has_entry(pre, key) || key == es@[k - 1].0@) by {
                    if has_entry(post, key) {
                        let w = choose|w: int| 0 <= w < post.len() && (#[trigger] post[w]).0@ == key;
                        if w < k - 1 {
                            assert(pre[w] == post[w]);
                        }
                    }
                    if has_entry(pre, key) {
                        let w = choose|w: int| 0 <= w < pre.len() && (#[trigger] pre[w]).0@ == key;
                        assert(post[w] == pre[w]);
                    }
                    if key == es@[k - 1].0@ {
                        assert(post[k - 1] == es@[k - 1]);
                    }
                }
                assert forall|i: int|
                    0 <= i < k && last_of_name(post, i) implies level_built(
                    self.levels()[(#[trigger] es@[i]).0@],
                    imps,
                    *t,
                    es@[i].1,
                ) by {
                    if i < k - 1 {
                        assert(post[k - 1] == es@[k - 1]);
                        assert(es@[k - 1].0@ != es@[i].0@);
                        assert forall|j: int| i < j < pre.len() implies (#[trigger] pre[j]).0@
                            != pre[i].0@ by {
                            assert(post[j] == pre[j]);
                        }
                        assert(last_of_name(pre, i));
                        assert(self.levels()[es@[i].0@] == before[es@[i].0@]);
                    }
                }
            }
        }
        assert(es@.take(k as int) =~= es@);
    }
}

/// Whether a layout file has what loading reads of it: its imports and an
/// object of layouts.
pub open spec fn layout_file_ok(data: Json) -> bool {
    &&& imports_ok(data)
    &&& json_at(data, "layouts"@) is Object
    &&& forall|i: int|
        0 <= i < entries_of(json_at(data, "layouts"@)).len() ==> layout_ok(
            (#[trigger] entries_of(json_at(data, "layouts"@))[i]).1,
        )
}

/// Whether layout file `data` checks out.
pub fn check_layout_file(data: &Json) -> (r: bool)
    ensures
        r == layout_file_ok(*data),
{
    if !check_imports(data) {
        return false;
    }
    let es = match data.get("layouts") {
        Some(e) => match e.as_object() {
            Some(es) => es,
            None => return false,
        },
        None => return false,
    };
    let mut k: usize = 0;
    while k < es.len()
        invariant
            json_at(*data, "layouts"@) == Json::Object(*es),
            k <= es@.len(),
            forall|i: int| 0 <= i < k ==> layout_ok((#[trigger] es@[i]).1),
        decreases es@.len() - k,
    {
        if !check_layout(&es[k].1) {
            assert(entries_of(json_at(*data, "layouts"@))[k as int] == es@[k as int]);
            return false;
        }
        k += 1;
    }
    assert forall|i: int| 0 <= i < entries_of(json_at(*data, "layouts"@)).len() implies layout_ok(
        (#[trigger] entries_of(json_at(*data, "layouts"@))[i]).1,
    ) by {
        assert(layout_ok(es@[i].1));
    }
    true
}

impl Global {
    /// Adds the layouts of a layout file, their scripts with the file's
    /// imports (each file name under `root`); a layout replaces an earlier
    /// one of its name, and within the file the last of a name counts.
    pub fn load_layout_file(&mut self, root: &str, data: &Json)
        requires
            layout_file_ok(*data),
        ensures
            ({
                let es = entries_of(json_at(*data, "layouts"@));
                let imps = imports_of(root@, *data);
                &&& forall|k: Seq<char>| #[trigger]
                    final(self).layouts().contains_key(k) <==> (old(self).layouts().contains_key(k)
                        || has_entry(es, k))
                &&& forall|k: Seq<char>| #[trigger]
                    old(self).layouts().contains_key(k) && !has_entry(es, k)
                        ==> final(self).layouts()[k] == old(self).layouts()[k]
                &&& forall|i: int|
                    0 <= i < es.len() && last_of_name(es, i) ==> layout_built(
                        final(self).layouts()[(#[trigger] es[i]).0@],
                        imps,
                        es[i].1,
                    )
            }),
            final(self).source_paths() == old(self).source_paths(),
            final(self).init_script() == old(self).init_script(),
            final(self).tick_script() == old(self).tick_script(),
            final(self).end_script() == old(self).end_script(),
            final(self).entities() == old(self).entities(),
            final(self).levels() == old(self).levels(),
    {
        let packs = read_imports(root, data);
        let es = match data.get("layouts") {
            Some(e) => e.as_object().unwrap(),
            None => {
                proof {
                    assert(false);
                }
                return ;
            },
        };
        let ghost imps = imports_of(root@, *data);
        let mut k: usize = 0;
        while k < es.len()
            invariant
                json_at(*data, "layouts"@) == Json::Object(*es),
                layout_file_ok(*data),
                imports_view(packs@) == imps,
                k <= es@.len(),
                forall|key: Seq<char>| #[trigger]
                    self.layouts().contains_key(key) <==> (old(self).layouts().contains_key(key)
                        || has_entry(es@.take(k as int), key)),
                forall|key: Seq<char>| #[trigger]
                    old(self).layouts().contains_key(key) && !has_entry(es@.take(k as int), key)
                        ==> self.layouts()[key] == old(self).layouts()[key],
                forall|i: int|
                    0 <= i < k && last_of_name(es@.take(k as int), i) ==> layout_built(
                        self.layouts()[(#[trigger] es@[i]).0@],
                        imps,
                        es@[i].1,
                    ),
                self.source_paths() == old(self).source_paths(),
                self.init == old(self).init,
                self.tick == old(self).tick,
                self.end == old(self).end,
                self.entities() == old(self).entities(),
                self.levels() == old(self).levels(),
            decreases es@.len() - k,
        {
            let name = &es[k].0;
            assert(entries_of(json_at(*data, "layouts"@))[k as int] == es@[k as int]);
            let l = build_layout(&packs, &es[k].1);
            let ghost before = self.layouts();
            self.layouts.insert(name.clone(), l);
            let ghost pre = es@.take(k as int);
            k += 1;
            let ghost post = es@.take(k as int);
            proof {
                assert(post == pre.push(es@[k - 1]));
                assert forall|key: Seq<char>|
                    has_entry(post, key) <==> (has_entry(pre, key) || key == es@[k - 1].0@) by {
                    if has_entry(post, key) {
                        let w = choose|w: int| 0 <= w < post.len() && (#[trigger] post[w]).0@ == key;
                        if w < k - 1 {
                            assert(pre[w] == post[w]);
                        }
                    }
                    if has_entry(pre, key) {
                        let w = choose|w: int| 0 <= w < pre.len() && (#[trigger] pre[w]).0@ == key;
                        assert(post[w] == pre[w]);
                    }
                    if key == es@[k - 1].0@ {
                        assert(post[k - 1] == es@[k - 1]);
                    }
                }
                assert forall|i: int|
                    0 <= i < k && last_of_name(post, i) implies layout_built(
                    self.layouts()[(#[trigger] es@[i]).0@],
                    imps,
                    es@[i].1,
                ) by {
                    if i < k - 1 {
                        assert(post[k - 1] == es@[k - 1]);
                        assert(es@[k - 1].0@ != es@[i].0@);
                        assert forall|j: int| i < j < pre.len() implies (#[trigger] pre[j]).0@
                            != pre[i].0@ by {
                            assert(post[j] == pre[j]);
                        }
                        assert(last_of_name(pre, i));
                        assert(self.layouts()[es@[i].0@] == before[es@[i].0@]);
                    }
                }
            }
        }
        assert(es@.take(k as int) =~= es@);
    }
}

/// Whether every file of `files` is an entity file.
pub open spec fn entity_files_ok(files: Seq<Json>) -> bool {
    forall|i: int| 0 <= i < files.len() ==> entity_file_ok(#[trigger] files[i])
}

/// Whether every file of `files` is a level file.
pub open spec fn level_files_ok(files: Seq<Json>) -> bool {
    forall|i: int| 0 <= i < files.len() ==> level_file_ok(#[trigger] files[i])
}

/// Whether every file of `files` is a layout file.
pub open spec fn layout_files_ok(files: Seq<Json>) -> bool {
    forall|i: int| 0 <= i < files.len() ==> layout_file_ok(#[trigger] files[i])
}

/// The last file with an entry named `k` is one of the files and has one.
proof fn lemma_last_file(files: Seq<Json>, section: Seq<char>, k: Seq<char>)
    ensures
        last_file_with(files, section, k) matches Some(f) ==> 0 <= f < files.len() && has_entry(
            entries_of(json_at(files[f], section)),
            k,
        ),
    decreases files.len(),
{
    if files.len() > 0 {
        lemma_last_file(files.drop_last(), section, k);
    }
}

impl Global {
    /// Loads entity files in order, as `load_entity_file` does for each:
    /// each kind comes from the last file that has it.
    pub fn load_entity_files(&mut self, root: &str, files: &Vec<Json>)
        requires
            entity_files_ok(files@),
        ensures
            forall|k: Seq<char>| #[trigger]
                final(self).entities().contains_key(k) <==> (old(self).entities().contains_key(k)
                    || last_file_with(files@, "entities"@, k) is Some),
            forall|k: Seq<char>| #[trigger]
                old(self).entities().contains_key(k) && last_file_with(files@, "entities"@, k) is None
                    ==> final(self).entities()[k] == old(self).entities()[k],
            forall|k: Seq<char>| #[trigger]
                last_file_with(files@, "entities"@, k) is Some ==> entity_built(
                    final(self).entities()[k],
                    imports_of(root@, files@[last_file_with(files@, "entities"@, k)->0]),
                    last_config(files@, "entities"@, k),
                ),
            final(self).source_paths() == old(self).source_paths(),
            final(self).init_script() == old(self).init_script(),
            final(self).tick_script() == old(self).tick_script(),
            final(self).end_script() == old(self).end_script(),
            final(self).levels() == old(self).levels(),
            final(self).layouts() == old(self).layouts(),
    {
        let ghost sec = "entities"@;
        let mut p: usize = 0;
        while p < files.len()
            invariant
                sec == "entities"@,
                p <= files@.len(),
                entity_files_ok(files@),
                forall|k: Seq<char>| #[trigger]
                    self.entities().contains_key(k) <==> (old(self).entities().contains_key(k)
                        || last_file_with(files@.take(p as int), sec, k) is Some),
                forall|k: Seq<char>| #[trigger]
                    old(self).entities().contains_key(k) && last_file_with(files@.take(p as int), sec, k)
                        is None ==> self.entities()[k] == old(self).entities()[k],
                forall|k: Seq<char>| #[trigger]
                    last_file_with(files@.take(p as int), sec, k) is Some ==> entity_built(
                        self.entities()[k],
                        imports_of(root@, files@[last_file_with(files@.take(p as int), sec, k)->0]),
                        last_config(files@.take(p as int), sec, k),
                    ),
                self.source_paths() == old(self).source_paths(),
                self.init_script() == old(self).init_script(),
                self.tick_script() == old(self).tick_script(),
                self.end_script() == old(self).end_script(),
                self.levels() == old(self).levels(),
                self.layouts() == old(self).layouts(),
            decreases files@.len() - p,
        {
            let ghost before = self.entities();
            let ghost pre = files@.take(p as int);
            let ghost es = entries_of(json_at(files@[p as int], sec));
            assert(entity_file_ok(files@[p as int]));
            self.load_entity_file(root, &files[p]);
            p += 1;
            proof {
                let post = files@.take(p as int);
                assert(post.drop_last() =~= pre);
                assert(post.last() == files@[p - 1]);
                assert forall|k: Seq<char>| #[trigger]
                    self.entities().contains_key(k) <==> (old(self).entities().contains_key(k)
                        || last_file_with(post, sec, k) is Some) by {}
                assert forall|k: Seq<char>| #[trigger]
                    old(self).entities().contains_key(k) && last_file_with(post, sec, k) is None
                        implies self.entities()[k] == old(self).entities()[k] by {
                    assert(before.contains_key(k));
                }
                assert forall|k: Seq<char>| #[trigger]
                    last_file_with(post, sec, k) is Some implies entity_built(
                    self.entities()[k],
                    imports_of(root@, files@[last_file_with(post, sec, k)->0]),
                    last_config(post, sec, k),
                ) by {
                    lemma_last_index(es, k);
                    assert(post[p - 1] == files@[p - 1]);
                    if has_entry(es, k) {
                        let li = last_index(es, k);
                        assert(es[li].0@ == k);
                        assert(last_of_name(es, li));
                        assert(0 <= li < es.len());
                        let e = es[li];
                        assert(es[li] == e);
                    } else {
                        lemma_last_file(pre, sec, k);
                        let f = last_file_with(pre, sec, k)->0;
                        assert(post[f] == pre[f]);
                        assert(pre[f] == files@[f]);
                        assert(before.contains_key(k));
                    }
                }
            }
        }
        assert(files@.take(p as int) =~= files@);
    }

    /// Loads level files in order, as `load_level_file` does for each: each
    /// kind comes from the last file that has it, with that file's tiles.
    pub fn load_level_files(&mut self, root: &str, files: &Vec<Json>)
        requires
            level_files_ok(files@),
        ensures
            forall|k: Seq<char>| #[trigger]
                final(self).levels().contains_key(k) <==> (old(self).levels().contains_key(k)
                    || last_file_with(files@, "levels"@, k) is Some),
            forall|k: Seq<char>| #[trigger]
                old(self).levels().contains_key(k) && last_file_with(files@, "levels"@, k) is None
                    ==> final(self).levels()[k] == old(self).levels()[k],
            forall|k: Seq<char>| #[trigger]
                last_file_with(files@, "levels"@, k) is Some ==> level_built(
                    final(self).levels()[k],
                    imports_of(root@, files@[last_file_with(files@, "levels"@, k)->0]),
                    json_at(files@[last_file_with(files@, "levels"@, k)->0], "tiles"@),
                    last_config(files@, "levels"@, k),
                ),
            final(self).source_paths() == old(self).source_paths(),
            final(self).init_script() == old(self).init_script(),
            final(self).tick_script() == old(self).tick_script(),
            final(self).end_script() == old(self).end_script(),
            final(self).entities() == old(self).entities(),
            final(self).layouts() == old(self).layouts(),
    {
        let ghost sec = "levels"@;
        let mut p: usize = 0;
        while p < files.len()
            invariant
                sec == "levels"@,
                p <= files@.len(),
                level_files_ok(files@),
                forall|k: Seq<char>| #[trigger]
                    self.levels().contains_key(k) <==> (old(self).levels().contains_key(k)
                        || last_file_with(files@.take(p as int), sec, k) is Some),
                forall|k: Seq<char>| #[trigger]
                    old(self).levels().contains_key(k) && last_file_with(files@.take(p as int), sec, k)
                        is None ==> self.levels()[k] == old(self).levels()[k],
                forall|k: Seq<char>| #[trigger]
                    last_file_with(files@.take(p as int), sec, k) is Some ==> level_built(
                        self.levels()[k],
                        imports_of(root@, files@[last_file_with(files@.take(p as int), sec, k)->0]),
                        json_at(files@[last_file_with(files@.take(p as int), sec, k)->0], "tiles"@),
                        last_config(files@.take(p as int), sec, k),
                    ),
                self.source_paths() == old(self).source_paths(),
                self.init_script() == old(self).init_script(),
                self.tick_script() == old(self).tick_script(),
                self.end_script() == old(self).end_script(),
                self.entities() == old(self).entities(),
                self.layouts() == old(self).layouts(),
            decreases files@.len() - p,
        {
            let ghost before = self.levels();
            let ghost pre = files@.take(p as int);
            let ghost es = entries_of(json_at(files@[p as int], sec));
            assert(level_file_ok(files@[p as int]));
            self.load_level_file(root, &files[p]);
            p += 1;
            proof {
                let post = files@.take(p as int);
                assert(post.drop_last() =~= pre);
                assert(post.last() == files@[p - 1]);
                assert forall|k: Seq<char>| #[trigger]
                    self.levels().contains_key(k) <==> (old(self).levels().contains_key(k)
                        || last_file_with(post, sec, k) is Some) by {}
                assert forall|k: Seq<char>| #[trigger]
                    old(self).levels().contains_key(k) && last_file_with(post, sec, k) is None
                        implies self.levels()[k] == old(self).levels()[k] by {
                    assert(before.contains_key(k));
                }
                assert forall|k: Seq<char>| #[trigger]
                    last_file_with(post, sec, k) is Some implies level_built(
                    self.levels()[k],
                    imports_of(root@, files@[last_file_with(post, sec, k)->0]),
                    json_at(files@[last_file_with(post, sec, k)->0], "tiles"@),
                    last_config(post, sec, k),
                ) by {
                    lemma_last_index(es, k);
                    assert(post[p - 1] == files@[p - 1]);
                    if has_entry(es, k) {
                        let li = last_index(es, k);
                        assert(es[li].0@ == k);
                        assert(last_of_name(es, li));
                        assert(0 <= li < es.len());
                        let e = es[li];
                        assert(es[li] == e);
                    } else {
                        lemma_last_file(pre, sec, k);
                        let f = last_file_with(pre, sec, k)->0;
                        assert(post[f] == pre[f]);
                        assert(pre[f] == files@[f]);
                        assert(before.contains_key(k));
                    }
                }
            }
        }
        assert(files@.take(p as int) =~= files@);
    }

    /// Loads layout files in order, as `load_layout_file` does for each:
    /// each layout comes from the last file that has it.
    pub fn load_layout_files(&mut self, root: &str, files: &Vec<Json>)
        requires
            layout_files_ok(files@),
        ensures
            forall|k: Seq<char>| #[trigger]
                final(self).layouts().contains_key(k) <==> (old(self).layouts().contains_key(k)
                    || last_file_with(files@, "layouts"@, k) is Some),
            forall|k: Seq<char>| #[trigger]
                old(self).layouts().contains_key(k) && last_file_with(files@, "layouts"@, k) is None
                    ==> final(self).layouts()[k] == old(self).layouts()[k],
            forall|k: Seq<char>| #[trigger]
                last_file_with(files@, "layouts"@, k) is Some ==> layout_built(
                    final(self).layouts()[k],
                    imports_of(root@, files@[last_file_with(files@, "layouts"@, k)->0]),
                    last_config(files@, "layouts"@, k),
                ),
            final(self).source_paths() == old(self).source_paths(),
            final(self).init_script() == old(self).init_script(),
            final(self).tick_script() == old(self).tick_script(),
            final(self).end_script() == old(self).end_script(),
            final(self).entities() == old(self).entities(),
            final(self).levels() == old(self).levels(),
    {
        let ghost sec = "layouts"@;
        let mut p: usize = 0;
        while p < files.len()
            invariant
                sec == "layouts"@,
                p <= files@.len(),
                layout_files_ok(files@),
                forall|k: Seq<char>| #[trigger]
                    self.layouts().contains_key(k) <==> (old(self).layouts().contains_key(k)
                        || last_file_with(files@.take(p as int), sec, k) is Some),
                forall|k: Seq<char>| #[trigger]
                    old(self).layouts().contains_key(k) && last_file_with(files@.take(p as int), sec, k)
                        is None ==> self.layouts()[k] == old(self).layouts()[k],
                forall|k: Seq<char>| #[trigger]
                    last_file_with(files@.take(p as int), sec, k) is Some ==> layout_built(
                        self.layouts()[k],
                        imports_of(root@, files@[last_file_with(files@.take(p as int), sec, k)->0]),
                        last_config(files@.take(p as int), sec, k),
                    ),
                self.source_paths() == old(self).source_paths(),
                self.init_script() == old(self).init_script(),
                self.tick_script() == old(self).tick_script(),
                self.end_script() == old(self).end_script(),
                self.entities() == old(self).entities(),
                self.levels() == old(self).levels(),
            decreases files@.len() - p,
        {
            let ghost before = self.layouts();
            let ghost pre = files@.take(p as int);
            let ghost es = entries_of(json_at(files@[p as int], sec));
            assert(layout_file_ok(files@[p as int]));
            self.load_layout_file(root, &files[p]);
            p += 1;
            proof {
                let post = files@.take(p as int);
                assert(post.drop_last() =~= pre);
                assert(post.last() == files@[p - 1]);
                assert forall|k: Seq<char>| #[trigger]
                    self.layouts().contains_key(k) <==> (old(self).layouts().contains_key(k)
                        || last_file_with(post, sec, k) is Some) by {}
                assert forall|k: Seq<char>| #[trigger]
                    old(self).layouts().contains_key(k) && last_file_with(post, sec, k) is None
                        implies self.layouts()[k] == old(self).layouts()[k] by {
                    assert(before.contains_key(k));
                }
                assert forall|k: Seq<char>| #[trigger]
                    last_file_with(post, sec, k) is Some implies layout_built(
                    self.layouts()[k],
                    imports_of(root@, files@[last_file_with(post, sec, k)->0]),
                    last_config(post, sec, k),
                ) by {
                    lemma_last_index(es, k);
                    assert(post[p - 1] == files@[p - 1]);
                    if has_entry(es, k) {
                        let li = last_index(es, k);
                        assert(es[li].0@ == k);
                        assert(last_of_name(es, li));
                        assert(0 <= li < es.len());
                        let e = es[li];
                        assert(es[li] == e);
                    } else {
                        lemma_last_file(pre, sec, k);
                        let f = last_file_with(pre, sec, k)->0;
                        assert(post[f] == pre[f]);
                        assert(pre[f] == files@[f]);
                        assert(before.contains_key(k));
                    }
                }
            }
        }
        assert(files@.take(p as int) =~= files@);
    }
}

/// What loading a game from a hub file and the entity, level and layout
/// files that it lists makes of the configuration `before`: all paths are
/// under the hub file's own directory; the hub's packages are recorded after
/// those already recorded; each kind of entity and level, and each layout,
/// comes from the last file that has it, where it is the last of its name;
/// the hub's scripts become the main scripts.
pub open spec fn game_loaded(
    before: Global,
    after: Global,
    hub_file_name: Seq<char>,
    hub: Json,
    entity_files: Seq<Json>,
    level_files: Seq<Json>,
    layout_files: Seq<Json>,
) -> bool {
    let root = dir_of(hub_file_name);
    let imps = imports_of(root, hub);
    &&& after.source_paths() == before.source_paths() + file_list_of(
        root,
        hub,
        "source"@,
    )
    &&& after.init_script()@ == snippet_of(imps, json_get(hub, "init"@))
    &&& after.end_script()@ == snippet_of(imps, json_get(hub, "end"@))
    &&& after.tick_script()@ == snippet_of(imps, json_get(hub, "tick"@))
    &&& forall|k: Seq<char>| #[trigger]
        after.entities().contains_key(k) <==> (before.entities().contains_key(k)
            || last_file_with(entity_files, "entities"@, k) is Some)
    &&& forall|k: Seq<char>| #[trigger]
        before.entities().contains_key(k) && last_file_with(entity_files, "entities"@, k)
            is None ==> after.entities()[k] == before.entities()[k]
    &&& forall|k: Seq<char>| #[trigger]
        last_file_with(entity_files, "entities"@, k) is Some ==> entity_built(
            after.entities()[k],
            imports_of(root, entity_files[last_file_with(entity_files, "entities"@, k)->0]),
            last_config(entity_files, "entities"@, k),
        )
    &&& forall|k: Seq<char>| #[trigger]
        after.levels().contains_key(k) <==> (before.levels().contains_key(k)
            || last_file_with(level_files, "levels"@, k) is Some)
    &&& forall|k: Seq<char>| #[trigger]
        before.levels().contains_key(k) && last_file_with(level_files, "levels"@, k)
            is None ==> after.levels()[k] == before.levels()[k]
    &&& forall|k: Seq<char>| #[trigger]
        last_file_with(level_files, "levels"@, k) is Some ==> level_built(
            after.levels()[k],
            imports_of(root, level_files[last_file_with(level_files, "levels"@, k)->0]),
            json_at(level_files[last_file_with(level_files, "levels"@, k)->0], "tiles"@),
            last_config(level_files, "levels"@, k),
        )
    &&& forall|k: Seq<char>| #[trigger]
        after.layouts().contains_key(k) <==> (before.layouts().contains_key(k)
            || last_file_with(layout_files, "layouts"@, k) is Some)
    &&& forall|k: Seq<char>| #[trigger]
        before.layouts().contains_key(k) && last_file_with(layout_files, "layouts"@, k)
            is None ==> after.layouts()[k] == before.layouts()[k]
    &&& forall|k: Seq<char>| #[trigger]
        last_file_with(layout_files, "layouts"@, k) is Some ==> layout_built(
            after.layouts()[k],
            imports_of(root, layout_files[last_file_with(layout_files, "layouts"@, k)->0]),
            last_config(layout_files, "layouts"@, k),
        )
}

impl Global {
    /// Sets up the game from its hub file, read from `hub_file_name`, and the
    /// entity, level and layout files that it lists, read in its order, as
    /// `game_loaded` describes.
    pub fn init_game(
        &mut self,
        hub_file_name: &str,
        hub: &Json,
        entity_files: &Vec<Json>,
        level_files: &Vec<Json>,
        layout_files: &Vec<Json>,
    )
        requires
            hub_ok(*hub),
            entity_files_ok(entity_files@),
            level_files_ok(level_files@),
            layout_files_ok(layout_files@),
        ensures
            game_loaded(
                *old(self),
                *final(self),
                hub_file_name@,
                *hub,
                entity_files@,
                level_files@,
                layout_files@,
            ),
    {
        let root = root_dir(hub_file_name);
        self.add_sources(root.as_str(), hub);
        self.load_entity_files(root.as_str(), entity_files);
        self.load_level_files(root.as_str(), level_files);
        self.load_layout_files(root.as_str(), layout_files);
        self.load_scripts(root.as_str(), hub);
    }
}

/// Why a game could not be loaded: a file is not JSON, or a file lacks what
/// loading reads of it.
#[derive(Debug, Clone, Copy, PartialEq, Eq, Structural)]
pub enum LoadError {
    Syntax,
    Malformed,
}

/// Whether every text of `texts` is JSON.
pub open spec fn all_parse(texts: Seq<String>) -> bool {
    forall|i: int| 0 <= i < texts.len() ==> (#[trigger] json_of_text(texts[i]@)) is Some
}

/// The JSON values of `texts`, where each is JSON.
pub open spec fn parsed(texts: Seq<String>) -> Seq<Json> {
    Seq::new(texts.len(), |i: int| json_of_text(texts[i]@)->0)
}

/// Parses each of `texts`; `None` when one of them is not JSON.
fn parse_texts(texts: &Vec<String>) -> (r: Option<Vec<Json>>)
    ensures
        r is Some <==> all_parse(texts@),
        r matches Some(v) ==> v@ == parsed(texts@),
{
    let mut v: Vec<Json> = Vec::new();
    let mut k: usize = 0;
    while k < texts.len()
        invariant
            k <= texts@.len(),
            forall|i: int| 0 <= i < k ==> (#[trigger] json_of_text(texts@[i]@)) is Some,
            v@ == Seq::new(k as nat, |i: int| json_of_text(texts@[i]@)->0),
        decreases texts@.len() - k,
    {
        match parse_json(texts[k].as_str()) {
            Some(j) => {
                v.push(j);
                k += 1;
                assert(v@ =~= Seq::new(k as nat, |i: int| json_of_text(texts@[i]@)->0));
            },
            None => {
                return None;
            },
        }
    }
    assert(v@ =~= parsed(texts@));
    Some(v)
}

/// Whether every file of `files` passes `entity_file_ok`.
fn check_entity_files(files: &Vec<Json>) -> (r: bool)
    ensures
        r == entity_files_ok(files@),
{
    let mut k: usize = 0;
    while k < files.len()
        invariant
            k <= files@.len(),
            forall|i: int| 0 <= i < k ==> entity_file_ok(#[trigger] files@[i]),
        decreases files@.len() - k,
    {
        if !check_entity_file(&files[k]) {
            return false;
        }
        k += 1;
    }
    true
}

/// Whether every file of `files` passes `level_file_ok`.
fn check_level_files(files: &Vec<Json>) -> (r: bool)
    ensures
        r == level_files_ok(files@),
{
    let mut k: usize = 0;
    while k < files.len()
        invariant
            k <= files@.len(),
            forall|i: int| 0 <= i < k ==> level_file_ok(#[trigger] files@[i]),
        decreases files@.len() - k,
    {
        if !check_level_file(&files[k]) {
            return false;
        }
        k += 1;
    }
    true
}

/// Whether every file of `files` passes `layout_file_ok`.
fn check_layout_files(files: &Vec<Json>) -> (r: bool)
    ensures
        r == layout_files_ok(files@),
{
    let mut k: usize = 0;
    while k < files.len()
        invariant
            k <= files@.len(),
            forall|i: int| 0 <= i < k ==> layout_file_ok(#[trigger] files@[i]),
        decreases files@.len() - k,
    {
        if !check_layout_file(&files[k]) {
            return false;
        }
        k += 1;
    }
    true
}

/// The paths of the entity, level and layout files that the hub file at
/// `hub_file_name`, whose text is `hub_text`, lists: each under the hub
/// file's directory.  `Syntax` when the text is not JSON, `Malformed` when
/// the hub lacks what loading a game reads of it.
pub fn hub_files(hub_file_name: &str, hub_text: &str) -> (r: Result<
    (Vec<String>, Vec<String>, Vec<String>),
    LoadError,
>)
    ensures
        json_of_text(hub_text@) is None <==> r == Err::<(Vec<String>, Vec<String>, Vec<String>), LoadError>(
            LoadError::Syntax,
        ),
        (json_of_text(hub_text@) matches Some(h) && !hub_ok(h)) <==> r == Err::<
            (Vec<String>, Vec<String>, Vec<String>),
            LoadError,
        >(LoadError::Malformed),
        r matches Ok((e, l, y)) ==> {
            let h = json_of_text(hub_text@)->0;
            let root = dir_of(hub_file_name@);
            &&& strings_view(e@) == file_list_of(root, h, "entities"@)
            &&& strings_view(l@) == file_list_of(root, h, "levels"@)
            &&& strings_view(y@) == file_list_of(root, h, "layouts"@)
        },
{
    let hub = match parse_json(hub_text) {
        Some(h) => h,
        None => {
            return Err(LoadError::Syntax);
        },
    };
    if !check_hub(&hub) {
        return Err(LoadError::Malformed);
    }
    let root = root_dir(hub_file_name);
    Ok(
        (
            file_list(root.as_str(), &hub, "entities"),
            file_list(root.as_str(), &hub, "levels"),
            file_list(root.as_str(), &hub, "layouts"),
        ),
    )
}

impl Global {
    /// Loads the game from the text of its hub file, read from
    /// `hub_file_name`, and the texts of the entity, level and layout files
    /// that it lists, in its order.  Fails with `Syntax`, leaving the
    /// configuration as it was, exactly when one of the texts is not JSON.
    pub fn load_game(
        &mut self,
        hub_file_name: &str,
        hub_text: &str,
        entity_texts: &Vec<String>,
        level_texts: &Vec<String>,
        layout_texts: &Vec<String>,
    ) -> (r: Result<(), LoadError>)
        requires
            json_of_text(hub_text@) matches Some(h) ==> hub_ok(h),
            all_parse(entity_texts@) ==> entity_files_ok(parsed(entity_texts@)),
            all_parse(level_texts@) ==> level_files_ok(parsed(level_texts@)),
            all_parse(layout_texts@) ==> layout_files_ok(parsed(layout_texts@)),
        ensures
            r is Err <==> !(json_of_text(hub_text@) is Some && all_parse(entity_texts@) && all_parse(
                level_texts@,
            ) && all_parse(layout_texts@)),
            r is Err ==> r == Err::<(), LoadError>(LoadError::Syntax) && *final(self) == *old(self),
            r is Ok ==> game_loaded(
                *old(self),
                *final(self),
                hub_file_name@,
                json_of_text(hub_text@)->0,
                parsed(entity_texts@),
                parsed(level_texts@),
                parsed(layout_texts@),
            ),
    {
        let hub = match parse_json(hub_text) {
            Some(h) => h,
            None => {
                return Err(LoadError::Syntax);
            },
        };
        let entity_files = match parse_texts(entity_texts) {
            Some(v) => v,
            None => {
                return Err(LoadError::Syntax);
            },
        };
        let level_files = match parse_texts(level_texts) {
            Some(v) => v,
            None => {
                return Err(LoadError::Syntax);
            },
        };
        let layout_files = match parse_texts(layout_texts) {
            Some(v) => v,
            None => {
                return Err(LoadError::Syntax);
            },
        };
        self.init_game(hub_file_name, &hub, &entity_files, &level_files, &layout_files);
        Ok(())
    }

    /// Loads the game as `load_game` does, after checking what it reads:
    /// `Syntax` when one of the texts is not JSON, else `Malformed` when the
    /// hub or one of the files lacks what loading reads of it.  On either
    /// error the configuration is left as it was.
    pub fn load_game_checked(
        &mut self,
        hub_file_name: &str,
        hub_text: &str,
        entity_texts: &Vec<String>,
        level_texts: &Vec<String>,
        layout_texts: &Vec<String>,
    ) -> (r: Result<(), LoadError>)
        ensures
            ({
                let parses = json_of_text(hub_text@) is Some && all_parse(entity_texts@) && all_parse(
                    level_texts@,
                ) && all_parse(layout_texts@);
                let fits = hub_ok(json_of_text(hub_text@)->0) && entity_files_ok(parsed(entity_texts@))
                    && level_files_ok(parsed(level_texts@)) && layout_files_ok(parsed(layout_texts@));
                &&& r == Err::<(), LoadError>(LoadError::Syntax) <==> !parses
                &&& r == Err::<(), LoadError>(LoadError::Malformed) <==> parses && !fits
                &&& r is Err ==> *final(self) == *old(self)
                &&& r is Ok ==> game_loaded(
                    *old(self),
                    *final(self),
                    hub_file_name@,
                    json_of_text(hub_text@)->0,
                    parsed(entity_texts@),
                    parsed(level_texts@),
                    parsed(layout_texts@),
                )
            }),
    {
        let hub = match parse_json(hub_text) {
            Some(h) => h,
            None => {
                return Err(LoadError::Syntax);
            },
        };
        let entity_files = match parse_texts(entity_texts) {
            Some(v) => v,
            None => {
                return Err(LoadError::Syntax);
            },
        };
        let level_files = match parse_texts(level_texts) {
            Some(v) => v,
            None => {
                return Err(LoadError::Syntax);
            },
        };
        let layout_files = match parse_texts(layout_texts) {
            Some(v) => v,
            None => {
                return Err(LoadError::Syntax);
            },
        };
        if !(check_hub(&hub) && check_entity_files(&entity_files) && check_level_files(&level_files)
            && check_layout_files(&layout_files)) {
            return Err(LoadError::Malformed);
        }
        self.load_game(hub_file_name, hub_text, entity_texts, level_texts, layout_texts)
    }
}

} // verus!
