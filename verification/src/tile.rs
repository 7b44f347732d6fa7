//! Map tiles: what each tile looks like and whether it blocks movement.

use std::collections::HashMap;
use vstd::prelude::*;
use crate::strmap::StrMap;
use crate::textitem::{TextItem, TextItemView, TextColour, TextOption};
use crate::json::{Json, json_at, str_of, entries_of, all_str_entries};
use crate::strutil::str_equal;

verus! {

broadcast use vstd::std_specs::hash::group_hash_axioms;

/// The identifier of a tile kind within a level's tile set.
pub type TileID = u32;

/// One kind of tile.
#[derive(Debug)]
pub struct TileItem {
    pub text: TextItem,
    pub collide: bool,
}

impl TileItem {
    /// A tile drawn with `text` that blocks movement when `collide` is set.
    pub fn new(text: String, collide: bool) -> (r: TileItem)
        ensures
            r.text.text@ == text@,
            r.text.colour == crate::textitem::TextColour::Default,
            r.text.options@.len() == 0,
            r.collide == collide,
    {
        TileItem { text: TextItem::new_tile(text), collide: collide }
    }

    /// A copy of this tile.
    pub fn duplicate(&self) -> (r: TileItem)
        ensures
            r.text@ == self.text@,
            r.collide == self.collide,
    {
        TileItem { text: self.text.duplicate(), collide: self.collide }
    }
}

/// The tile set of a level: tile kinds by identifier, identifiers by name, and
/// the default tile.  Identifiers are handed out from 1 upwards.
pub struct TileInfo {
    default: TileID,
    data: HashMap<TileID, TileItem>,
    ids: StrMap<TileID>,
    id_gen: TileID,
}

impl TileInfo {
    /// The identifiers of the tile kinds, by name.
    pub closed spec fn names(&self) -> Map<Seq<char>, TileID> {
        self.ids@
    }

    /// The tile kinds, by identifier.
    pub closed spec fn items(&self) -> Map<TileID, TileItem> {
        self.data@
    }

    /// The identifier of the default tile (0 while none was chosen).
    pub closed spec fn default_id(&self) -> TileID {
        self.default
    }

    /// The last identifier handed out (0 while there is no tile kind).
    pub closed spec fn last_id(&self) -> TileID {
        self.id_gen
    }

    /// Every identifier from 1 to the last one handed out has a tile kind, no
    /// other has, and every name maps to one of them.  Every tile set is so.
    #[verifier::type_invariant]
    pub open spec fn wf(&self) -> bool {
        &&& forall|id: TileID| #[trigger]
            self.items().contains_key(id) <==> 1 <= id <= self.last_id()
        &&& forall|n: Seq<char>| #[trigger]
            self.names().contains_key(n) ==> 1 <= self.names()[n] <= self.last_id()
    }

    /// An empty tile set.
    pub fn new() -> (r: TileInfo)
        ensures
            r.wf(),
            r.default_id() == 0,
            r.last_id() == 0,
            r.names() == Map::<Seq<char>, TileID>::empty(),
            r.items() == Map::<TileID, TileItem>::empty(),
    {
        TileInfo { default: 0, data: HashMap::new(), ids: StrMap::new(), id_gen: 0 }
    }

    /// Adds a tile kind under the next identifier and names it `name`; a tile
    /// kind that had this name keeps its identifier but loses the name.  The
    /// new identifier was never handed out before; other names, the tile
    /// kinds already there and the default stay as they were.
    pub fn add_tile(&mut self, name: &str, data: TileItem)
        requires
            old(self).last_id() < TileID::MAX,
        ensures
            final(self).last_id() == old(self).last_id() + 1,
            !old(self).items().contains_key(final(self).last_id()),
            final(self).names() == old(self).names().insert(name@, final(self).last_id()),
            final(self).items() == old(self).items().insert(final(self).last_id(), data),
            final(self).default_id() == old(self).default_id(),
            tile_added(*old(self), *final(self), name@, data),
            final(self).wf(),
    {
        proof {
            use_type_invariant(&*self);
        }
        let mut t = TileInfo::new();
        std::mem::swap(self, &mut t);
        let TileInfo { default, data: mut items, ids: mut names, id_gen } = t;
        let id = id_gen + 1;
        names.insert(name.to_owned(), id);
        items.insert(id, data);
        proof {
            assert forall|i: TileID| #[trigger] items@.contains_key(i) <==> 1 <= i <= id by {
                if i != id {
                    assert(items@.contains_key(i) == old(self).items().contains_key(i));
                }
            }
            assert forall|n: Seq<char>| #[trigger] names@.contains_key(n) implies 1 <= names@[n] <= id by {
                if n != name@ {
                    assert(old(self).names().contains_key(n));
                }
            }
        }
        *self = TileInfo { default, data: items, ids: names, id_gen: id };
        proof {
            use_type_invariant(&*self);
        }
    }

    /// Makes the tile kind named `name` the default tile.
    pub fn set_default(&mut self, name: &str)
        requires
            old(self).names().contains_key(name@),
        ensures
            final(self).default_id() == old(self).names()[name@],
            final(self).names() == old(self).names(),
            final(self).items() == old(self).items(),
            final(self).last_id() == old(self).last_id(),
    {
        proof {
            use_type_invariant(&*self);
        }
        let id = *self.ids.get(name).unwrap();
        let mut t = TileInfo::new();
        std::mem::swap(self, &mut t);
        let TileInfo { default: _, data, ids, id_gen } = t;
        proof {
            assert(data@ == old(self).items() && ids@ == old(self).names() && id_gen == old(self).last_id());
            assert forall|i: TileID| #[trigger] data@.contains_key(i) <==> 1 <= i <= id_gen by {
                assert(old(self).items().contains_key(i) <==> 1 <= i <= old(self).last_id());
            }
            assert forall|n: Seq<char>| #[trigger] ids@.contains_key(n) implies 1 <= ids@[n] <= id_gen by {
                assert(old(self).names().contains_key(n));
            }
        }
        *self = TileInfo { default: id, data, ids, id_gen };
    }

    /// The identifier of the default tile.
    pub fn get_default(&self) -> (r: TileID)
        ensures
            r == self.default_id(),
    {
        self.default
    }

    /// The identifier of the tile kind named `name`, one of those handed
    /// out.
    pub fn get_id(&self, name: &str) -> (r: Option<TileID>)
        ensures
            r == (if self.names().contains_key(name@) {
                Some(self.names()[name@])
            } else {
                None
            }),
            r matches Some(i) ==> 1 <= i <= self.last_id(),
    {
        proof {
            use_type_invariant(self);
        }
        match self.ids.get(name) {
            Some(v) => {
                assert(self.names().contains_key(name@));
                Some(*v)
            },
            None => None,
        }
    }

    /// The tile kind with identifier `id`: there is one exactly for the
    /// identifiers handed out, so none for 0.
    pub fn get_item(&self, id: TileID) -> (r: Option<&TileItem>)
        ensures
            match r {
                Some(t) => self.items().contains_key(id) && *t == self.items()[id],
                None => !self.items().contains_key(id),
            },
            r is Some <==> 1 <= id <= self.last_id(),
    {
        proof {
            use_type_invariant(self);
        }
        self.data.get(&id)
    }
}

/// Entry `i` of the tiles of a level file: the collide tiles, then the
/// others.
pub open spec fn tile_entry(t: Json, i: int) -> (String, Json) {
    let cs = entries_of(json_at(t, "collide"@));
    if i < cs.len() {
        cs[i]
    } else {
        entries_of(json_at(t, "nocollide"@))[i - cs.len()]
    }
}

/// The number of tiles of a level file.
pub open spec fn tile_count(t: Json) -> int {
    entries_of(json_at(t, "collide"@)).len() + entries_of(json_at(t, "nocollide"@)).len() as int
}

/// Whether some tile of a level file is named `k`.
pub open spec fn names_tile(t: Json, k: Seq<char>) -> bool {
    exists|i: int| 0 <= i < tile_count(t) && (#[trigger] tile_entry(t, i)).0@ == k
}

/// Whether the `tiles` of a level file give the collide and the other tiles
/// by name, each with its text, and name one of them as the default, with
/// fewer tiles than identifiers.
pub open spec fn tiles_ok(t: Json) -> bool {
    &&& t is Object
    &&& all_str_entries(json_at(t, "collide"@))
    &&& all_str_entries(json_at(t, "nocollide"@))
    &&& json_at(t, "default"@) is Str
    &&& names_tile(t, str_of(json_at(t, "default"@)))
    &&& tile_count(t) < TileID::MAX
}

/// Whether tile `i + 1` of `ti` is entry `i` of the tiles of a level file.
pub open spec fn tile_item_built(ti: TileInfo, t: Json, i: int) -> bool {
    let it = ti.items()[(i + 1) as TileID];
    &&& it.text@ == TextItemView {
        text: str_of(tile_entry(t, i).1),
        colour: TextColour::Default,
        options: Seq::empty(),
    }
    &&& it.collide == (i < entries_of(json_at(t, "collide"@)).len())
}

/// Whether `ti` holds the first `m` tiles of a level file, under
/// identifiers 1 to `m` in order, each name naming the last tile of that
/// name.
#[verifier::opaque]
pub open spec fn tiles_prefix_built(ti: TileInfo, t: Json, m: int) -> bool {
    &&& ti.wf()
    &&& ti.last_id() == m
    &&& forall|i: int| 0 <= i < m ==> #[trigger] tile_item_built(ti, t, i)
    &&& forall|k: Seq<char>| #[trigger]
        ti.names().contains_key(k) <==> exists|i: int| 0 <= i < m && (#[trigger] tile_entry(t, i)).0@ == k
    &&& forall|i: int|
        0 <= i < m && (forall|j: int| i < j < m ==> (#[trigger] tile_entry(t, j)).0@ != tile_entry(t, i).0@)
            ==> ti.names()[(#[trigger] tile_entry(t, i)).0@] == i + 1
}

/// Whether `ti` is the tile set that the tiles of a level file describe.
pub open spec fn tile_set_built(ti: TileInfo, t: Json) -> bool {
    &&& tiles_prefix_built(ti, t, tile_count(t))
    &&& ti.default_id() == ti.names()[str_of(json_at(t, "default"@))]
}

/// Adding tile `m` keeps the tile set built from the first tiles.
proof fn lemma_tile_step(old_ti: TileInfo, new_ti: TileInfo, t: Json, m: int)
    requires
        tiles_prefix_built(old_ti, t, m),
        new_ti.wf(),
        new_ti.last_id() == m + 1,
        new_ti.names() == old_ti.names().insert(tile_entry(t, m).0@, (m + 1) as TileID),
        new_ti.items().contains_key((m + 1) as TileID),
        new_ti.items() == old_ti.items().insert((m + 1) as TileID, new_ti.items()[(m + 1) as TileID]),
        tile_item_built(new_ti, t, m),
    ensures
        tiles_prefix_built(new_ti, t, m + 1),
{
    reveal(tiles_prefix_built);
    assert forall|i: int| 0 <= i < m + 1 implies #[trigger] tile_item_built(new_ti, t, i) by {
        if i < m {
            assert(tile_item_built(old_ti, t, i));
            assert(new_ti.items()[(i + 1) as TileID] == old_ti.items()[(i + 1) as TileID]);
        }
    }
    assert forall|k: Seq<char>| #[trigger]
        new_ti.names().contains_key(k) <==> exists|i: int|
            0 <= i < m + 1 && (#[trigger] tile_entry(t, i)).0@ == k by {
        if new_ti.names().contains_key(k) && k != tile_entry(t, m).0@ {
            assert(old_ti.names().contains_key(k));
            let w = choose|i: int| 0 <= i < m && (#[trigger] tile_entry(t, i)).0@ == k;
            assert(0 <= w < m + 1 && tile_entry(t, w).0@ == k);
        }
        if exists|i: int| 0 <= i < m + 1 && (#[trigger] tile_entry(t, i)).0@ == k {
            let w = choose|i: int| 0 <= i < m + 1 && (#[trigger] tile_entry(t, i)).0@ == k;
            if w < m {
                assert(exists|i: int| 0 <= i < m && (#[trigger] tile_entry(t, i)).0@ == k);
                assert(old_ti.names().contains_key(k));
            }
        }
    }
    assert forall|i: int|
        0 <= i < m + 1 && (forall|j: int| i < j < m + 1 ==> (#[trigger] tile_entry(t, j)).0@ != tile_entry(t, i).0@)
            implies new_ti.names()[(#[trigger] tile_entry(t, i)).0@] == i + 1 by {
        if i < m {
            assert(tile_entry(t, m).0@ != tile_entry(t, i).0@);
            assert forall|j: int| i < j < m implies (#[trigger] tile_entry(t, j)).0@ != tile_entry(t, i).0@ by {
                assert(i < j < m + 1);
            }
        }
    }
}

/// Adds the tiles `es` of a level file, which come from position `base` on,
/// as collide tiles or not.
fn add_tile_entries(ti: &mut TileInfo, t: &Json, es: &Vec<(String, Json)>, base: usize, collide: bool)
    requires
        tiles_ok(*t),
        tiles_prefix_built(*old(ti), *t, base as int),
        base + es@.len() <= tile_count(*t),
        all_str_entries(Json::Object(*es)),
        forall|i: int| 0 <= i < es@.len() ==> tile_entry(*t, base + i) == #[trigger] es@[i],
        collide ==> base + es@.len() <= entries_of(json_at(*t, "collide"@)).len(),
        !collide ==> base >= entries_of(json_at(*t, "collide"@)).len(),
    ensures
        tiles_prefix_built(*final(ti), *t, base + es@.len()),
        final(ti).default_id() == old(ti).default_id(),
{
    assert(old(ti).last_id() == base && old(ti).wf()) by {
        reveal(tiles_prefix_built);
    }
    let mut k: usize = 0;
    while k < es.len()
        invariant
            ti.last_id() == base + k,
            ti.wf(),
            tiles_ok(*t),
            base + es@.len() <= tile_count(*t),
            all_str_entries(Json::Object(*es)),
            forall|i: int| 0 <= i < es@.len() ==> tile_entry(*t, base + i) == #[trigger] es@[i],
            collide ==> base + es@.len() <= entries_of(json_at(*t, "collide"@)).len(),
            !collide ==> base >= entries_of(json_at(*t, "collide"@)).len(),
            k <= es@.len(),
            tiles_prefix_built(*ti, *t, base + k),
            ti.default_id() == old(ti).default_id(),
        decreases es@.len() - k,
    {
        let ghost m = base + k;
        assert(tile_entry(*t, m) == es@[k as int]);
        assert(entries_of(Json::Object(*es))[k as int] == es@[k as int]);
        let text = es[k].1.as_str().unwrap().clone();
        let ghost before = *ti;
        ti.add_tile(es[k].0.as_str(), TileItem::new(text, collide));
        proof {
            assert(ti.items()[(m + 1) as TileID].text.options@ =~= Seq::<TextOption>::empty());
            lemma_tile_step(before, *ti, *t, m);
        }
        k += 1;
    }
}

/// Whether two tile sets with the same tiles and names are built alike.
proof fn lemma_prefix_same(a: TileInfo, b: TileInfo, t: Json, m: int)
    requires
        tiles_prefix_built(a, t, m),
        a.names() == b.names(),
        a.items() == b.items(),
        a.last_id() == b.last_id(),
    ensures
        tiles_prefix_built(b, t, m),
{
    reveal(tiles_prefix_built);
    assert forall|i: int| 0 <= i < m implies #[trigger] tile_item_built(b, t, i) by {
        assert(tile_item_built(a, t, i));
    }
}

/// The tile set that the tiles of a level file describe.
pub fn build_tile_set(t: &Json) -> (ti: TileInfo)
    requires
        tiles_ok(*t),
    ensures
        tile_set_built(ti, *t),
{
    let mut ti = TileInfo::new();
    proof {
        reveal(tiles_prefix_built);
    }
    let cs = match t.get("collide") {
        Some(c) => c.as_object().unwrap(),
        None => {
            proof {
                assert(false);
            }
            return ti;
        },
    };
    let ns = match t.get("nocollide") {
        Some(c) => c.as_object().unwrap(),
        None => {
            proof {
                assert(false);
            }
            return ti;
        },
    };
    assert forall|i: int| 0 <= i < cs@.len() implies tile_entry(*t, 0 + i) == #[trigger] cs@[i] by {}
    add_tile_entries(&mut ti, t, cs, 0, true);
    assert forall|i: int| 0 <= i < ns@.len() implies tile_entry(*t, cs@.len() + i) == #[trigger] ns@[i] by {}
    add_tile_entries(&mut ti, t, ns, cs.len(), false);
    let default = match t.get("default") {
        Some(d) => d.as_str().unwrap(),
        None => {
            proof {
                assert(false);
            }
            return ti;
        },
    };
    assert(ti.names().contains_key(default@)) by {
        reveal(tiles_prefix_built);
        let w = choose|i: int| 0 <= i < tile_count(*t) && (#[trigger] tile_entry(*t, i)).0@ == default@;
        assert(ti.names().contains_key(tile_entry(*t, w).0@));
    }
    let ghost before = ti;
    ti.set_default(default.as_str());
    proof {
        lemma_prefix_same(before, ti, *t, tile_count(*t));
    }
    ti
}

/// Whether the tiles of a level file check out.
pub fn check_tiles(t: &Json) -> (r: bool)
    ensures
        r == tiles_ok(*t),
{
    if t.as_object().is_none() {
        return false;
    }
    let cs = match t.get("collide") {
        Some(c) => c,
        None => return false,
    };
    let ns = match t.get("nocollide") {
        Some(c) => c,
        None => return false,
    };
    if !crate::global::all_entries_str(cs) || !crate::global::all_entries_str(ns) {
        return false;
    }
    let default = match t.get("default") {
        Some(d) => match d.as_str() {
            Some(s) => s,
            None => return false,
        },
        None => return false,
    };
    let cs = cs.as_object().unwrap();
    let ns = ns.as_object().unwrap();
    if cs.len() >= TileID::MAX as usize || ns.len() >= TileID::MAX as usize - cs.len() {
        return false;
    }
    let mut k: usize = 0;
    while k < cs.len()
        invariant
            *t is Object,
            all_str_entries(json_at(*t, "collide"@)),
            all_str_entries(json_at(*t, "nocollide"@)),
            json_at(*t, "default"@) is Str,
            str_of(json_at(*t, "default"@)) == default@,
            tile_count(*t) < TileID::MAX,
            json_at(*t, "collide"@) == Json::Object(*cs),
            json_at(*t, "nocollide"@) == Json::Object(*ns),
            k <= cs@.len(),
            forall|i: int| 0 <= i < k ==> (#[trigger] tile_entry(*t, i)).0@ != default@,
        decreases cs@.len() - k,
    {
        assert(tile_entry(*t, k as int) == cs@[k as int]);
        if str_equal(cs[k].0.as_str(), default.as_str()) {
            assert(names_tile(*t, default@));
            return true;
        }
        k += 1;
    }
    let mut k: usize = 0;
    while k < ns.len()
        invariant
            *t is Object,
            all_str_entries(json_at(*t, "collide"@)),
            all_str_entries(json_at(*t, "nocollide"@)),
            json_at(*t, "default"@) is Str,
            str_of(json_at(*t, "default"@)) == default@,
            tile_count(*t) < TileID::MAX,
            json_at(*t, "collide"@) == Json::Object(*cs),
            json_at(*t, "nocollide"@) == Json::Object(*ns),
            k <= ns@.len(),
            forall|i: int| 0 <= i < cs@.len() + k ==> (#[trigger] tile_entry(*t, i)).0@ != default@,
        decreases ns@.len() - k,
    {
        assert(tile_entry(*t, cs@.len() + k) == ns@[k as int]);
        if str_equal(ns[k].0.as_str(), default.as_str()) {
            return true;
        }
        k += 1;
    }
    false
}

/// Adding a tile kind: its name gives the next identifier, which gives the
/// kind; every other name, every kind already there and the default read as
/// before.
pub proof fn law_add_tile(before: TileInfo, after: TileInfo, name: Seq<char>, data: TileItem)
    requires
        after.last_id() == before.last_id() + 1,
        !before.items().contains_key(after.last_id()),
        after.names() == before.names().insert(name, after.last_id()),
        after.items() == before.items().insert(after.last_id(), data),
        after.default_id() == before.default_id(),
    ensures
        after.names().contains_key(name),
        after.names()[name] == before.last_id() + 1,
        after.items()[after.names()[name]] == data,
        forall|n: Seq<char>|
            n != name ==> (#[trigger] after.names().contains_key(n) == before.names().contains_key(n)) && (
            before.names().contains_key(n) ==> after.names()[n] == before.names()[n]),
        forall|i: TileID| #[trigger]
            before.items().contains_key(i) ==> after.items().contains_key(i) && after.items()[i]
                == before.items()[i],
        after.default_id() == before.default_id(),
{
}

/// Whether tile set `after` is `before` with the tile kind `data` added
/// under the name `name`, as `add_tile` does it.
pub open spec fn tile_added(before: TileInfo, after: TileInfo, name: Seq<char>, data: TileItem) -> bool {
    &&& after.last_id() == before.last_id() + 1
    &&& !before.items().contains_key(after.last_id())
    &&& after.names() == before.names().insert(name, after.last_id())
    &&& after.items() == before.items().insert(after.last_id(), data)
    &&& after.default_id() == before.default_id()
}

/// Across any run of tile kinds added under other names, a name keeps its
/// identifier and that identifier keeps its tile kind; every tile kind
/// already there, and the default, stay as they were.  `steps` are the tile
/// sets before the run and after each addition, `names` and `items` what
/// each addition adds.
pub proof fn law_tiles_kept(
    steps: Seq<TileInfo>,
    names: Seq<Seq<char>>,
    items: Seq<TileItem>,
    name: Seq<char>,
)
    requires
        steps.len() == names.len() + 1,
        items.len() == names.len(),
        forall|i: int| 0 <= i < names.len() ==> tile_added(steps[i], #[trigger] steps[i + 1], names[i], items[i]),
        forall|i: int| 0 <= i < names.len() ==> #[trigger] names[i] != name,
        steps[0].names().contains_key(name),
    ensures
        steps.last().names().contains_key(name),
        steps.last().names()[name] == steps[0].names()[name],
        forall|id: TileID| #[trigger]
            steps[0].items().contains_key(id) ==> steps.last().items().contains_key(id)
                && steps.last().items()[id] == steps[0].items()[id],
        steps[0].items().contains_key(steps[0].names()[name]) ==> steps.last().items()[steps.last().names()[name]]
            == steps[0].items()[steps[0].names()[name]],
        steps.last().default_id() == steps[0].default_id(),
    decreases names.len(),
{
    if names.len() > 0 {
        let k = names.len() - 1;
        let shorter = steps.drop_last();
        assert forall|i: int| 0 <= i < names.drop_last().len() implies tile_added(
            shorter[i],
            #[trigger] shorter[i + 1],
            names.drop_last()[i],
            items.drop_last()[i],
        ) by {
            assert(tile_added(steps[i], steps[i + 1], names[i], items[i]));
        }
        assert forall|i: int| 0 <= i < names.drop_last().len() implies #[trigger] names.drop_last()[i] != name by {
            assert(names[i] != name);
        }
        law_tiles_kept(shorter, names.drop_last(), items.drop_last(), name);
        assert(tile_added(steps[k], steps[k + 1], names[k], items[k]));
        assert(names[k] != name);
        assert(shorter.last() == steps[k]);
        assert(steps.last() == steps[k + 1]);
    }
}

} // verus!
