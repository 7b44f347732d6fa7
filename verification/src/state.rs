//! The runtime state of a game: the global object, the active layout, level
//! and entity, and the instances of levels and global entities by identifier.
//! Values that scripts keep (the global object, level and entity data) are of
//! type `V`; `null` is the value that stands for "nothing".

use std::collections::HashMap;
use vstd::prelude::*;
use crate::Coord;
use crate::entity::EntityInst;
use crate::error::EngErr;
use crate::global::Global;
use crate::level::{LevelInst, filled_grid, is_map_data, painted, on_map};
use crate::textrender::map::MapCommand;
use crate::tile::TileID;

verus! {

broadcast use vstd::std_specs::hash::group_hash_axioms;

/// The distance between two map coordinates as the engine measures it: both
/// are read as signed integers first.
pub open spec fn span(a: usize, b: usize) -> int {
    let d = (a as isize) as int - (b as isize) as int;
    if d < 0 {
        -d
    } else {
        d
    }
}

/// Whether `span(a, b)` can be computed without overflow.
pub open spec fn span_ok(a: usize, b: usize) -> bool {
    let d = (a as isize) as int - (b as isize) as int;
    isize::MIN < d <= isize::MAX
}

/// The distance between two map coordinates, both read as signed integers.
pub fn span_of(a: usize, b: usize) -> (r: usize)
    requires
        span_ok(a, b),
    ensures
        r == span(a, b),
{
    let d: isize = (a as isize) - (b as isize);
    let m: isize = if d < 0 {
        -d
    } else {
        d
    };
    m as usize
}

/// Whether an area from `a` to `b` can be measured without overflow: the
/// spans of both coordinates, and the far ends, fit.
pub open spec fn area_fits(a: Coord, b: Coord) -> bool {
    &&& span_ok(a.0, b.0)
    &&& span_ok(a.1, b.1)
    &&& min_of(a.0, b.0) + span(a.0, b.0) <= usize::MAX
    &&& min_of(a.1, b.1) + span(a.1, b.1) <= usize::MAX
}

/// Whether `span(a, b)` can be computed without overflow, and the far end
/// fits.
fn side_fits(a: usize, b: usize) -> (r: bool)
    ensures
        r == (span_ok(a, b) && min_of(a, b) + span(a, b) <= usize::MAX),
{
    let d: i128 = (a as isize) as i128 - (b as isize) as i128;
    if !(d > isize::MIN as i128 && d <= isize::MAX as i128) {
        return false;
    }
    let m: u128 = if a <= b {
        a as u128
    } else {
        b as u128
    };
    let sp: u128 = if d < 0 {
        (-d) as u128
    } else {
        d as u128
    };
    m + sp <= usize::MAX as u128
}

/// Whether an area from `a` to `b` can be measured without overflow.
pub fn area_ok(a: Coord, b: Coord) -> (r: bool)
    ensures
        r == area_fits(a, b),
{
    side_fits(a.0, b.0) && side_fits(a.1, b.1)
}

/// The row of the end of a line from `s` to `e` with the smaller x.
pub open spec fn start_row(s: Coord, e: Coord) -> usize {
    if s.0 <= e.0 {
        s.1
    } else {
        e.1
    }
}

/// The row of the end of a line from `s` to `e` with the larger x.
pub open spec fn end_row(s: Coord, e: Coord) -> usize {
    if s.0 <= e.0 {
        e.1
    } else {
        s.1
    }
}

/// Whether a line from `s` to `e` with the row offsets `steps` can be
/// drawn: the area fits; a line with width has an offset for each column,
/// none larger than the line's height; and the rows, counted from the start
/// row toward the end row, fit.
pub open spec fn line_fits(s: Coord, e: Coord, steps: Seq<usize>) -> bool {
    &&& area_fits(s, e)
    &&& span(s.0, e.0) != 0 ==> {
        &&& steps.len() == span(s.0, e.0) + 1
        &&& forall|i: int| 0 <= i < steps.len() ==> #[trigger] steps[i] <= span(s.1, e.1)
        &&& start_row(s, e) <= end_row(s, e) ==> start_row(s, e) + span(s.1, e.1) <= usize::MAX
        &&& start_row(s, e) > end_row(s, e) ==> span(s.1, e.1) <= start_row(s, e)
    }
}

/// Whether a line from `s` to `e` with row offsets `steps` can be drawn.
pub fn line_ok(s: Coord, e: Coord, steps: &Vec<usize>) -> (r: bool)
    ensures
        r == line_fits(s, e, steps@),
{
    if !area_ok(s, e) {
        return false;
    }
    let x_range = span_of(s.0, e.0);
    if x_range == 0 {
        return true;
    }
    if steps.len() != x_range as usize + 1 {
        return false;
    }
    let y_range = span_of(s.1, e.1);
    let (ya, yb) = if s.0 <= e.0 {
        (s.1, e.1)
    } else {
        (e.1, s.1)
    };
    if ya <= yb && y_range > usize::MAX - ya {
        return false;
    }
    if ya > yb && y_range > ya {
        return false;
    }
    let mut k: usize = 0;
    while k < steps.len()
        invariant
            k <= steps.len(),
            area_fits(s, e),
            x_range == span(s.0, e.0),
            x_range != 0,
            steps.len() == x_range + 1,
            y_range == span(s.1, e.1),
            ya == start_row(s, e),
            yb == end_row(s, e),
            ya <= yb ==> ya + y_range <= usize::MAX,
            ya > yb ==> y_range <= ya,
            forall|i: int| 0 <= i < k ==> #[trigger] steps[i] <= y_range,
        decreases steps.len() - k,
    {
        if steps[k] > y_range {
            return false;
        }
        k += 1;
    }
    true
}

/// The smaller of two numbers.
pub open spec fn min_of(a: usize, b: usize) -> usize {
    if a <= b {
        a
    } else {
        b
    }
}

/// Everything in the runtime state but the levels.
pub ghost struct StateFrame<V> {
    pub glob: V,
    pub null: V,
    pub layout: Seq<char>,
    pub key: Seq<char>,
    pub globals: Map<u64, EntityInst<V>>,
    pub last_id: u64,
    pub active_level: u64,
    pub active_entity: u64,
}

/// The runtime state of a game.
pub struct State<V> {
    glob_obj: V,
    null: V,
    current_layout: String,
    last_key: String,
    glob_instances: HashMap<u64, EntityInst<V>>,
    level_instances: HashMap<u64, LevelInst<V>>,
    id_count: u64,
    active_level: u64,
    active_entity: u64,
}

impl<V> State<V> {
    /// The global object.
    pub closed spec fn glob(&self) -> V {
        self.glob_obj
    }

    /// The value that stands for "nothing".
    pub closed spec fn null(&self) -> V {
        self.null
    }

    /// The name of the active layout.
    pub closed spec fn layout(&self) -> Seq<char> {
        self.current_layout@
    }

    /// The last key pressed, as text.
    pub closed spec fn key(&self) -> Seq<char> {
        self.last_key@
    }

    /// The global entities by identifier.
    pub closed spec fn globals(&self) -> Map<u64, EntityInst<V>> {
        self.glob_instances@
    }

    /// The level instances by identifier.
    pub closed spec fn levels(&self) -> Map<u64, LevelInst<V>> {
        self.level_instances@
    }

    /// The last identifier handed out (0 while none was).
    pub closed spec fn last_id(&self) -> u64 {
        self.id_count
    }

    /// The identifier of the active level (0 while none is).
    pub closed spec fn active_level_id(&self) -> u64 {
        self.active_level
    }

    /// The identifier of the active entity (0 while none is).
    pub closed spec fn active_entity_id(&self) -> u64 {
        self.active_entity
    }

    /// The active level.
    pub open spec fn active(&self) -> LevelInst<V> {
        self.levels()[self.active_level_id()]
    }

    /// Whether the active level exists.
    pub open spec fn has_active(&self) -> bool {
        self.levels().contains_key(self.active_level_id())
    }

    /// Every identifier in use was handed out, and the tile map of every
    /// level is well formed.
    pub open spec fn wf(&self) -> bool {
        &&& forall|id: u64| #[trigger]
            self.levels().contains_key(id) ==> 1 <= id <= self.last_id() && self.levels()[id].wf()
        &&& forall|id: u64| #[trigger] self.globals().contains_key(id) ==> 1 <= id <= self.last_id()
        &&& forall|lid: u64, eid: u64|
            self.levels().contains_key(lid) && #[trigger] self.levels()[lid].entities().contains_key(
                eid,
            ) ==> 1 <= eid <= self.last_id()
    }

    /// Everything but the levels.
    pub closed spec fn frame(&self) -> StateFrame<V> {
        StateFrame {
            glob: self.glob_obj,
            null: self.null,
            layout: self.current_layout@,
            key: self.last_key@,
            globals: self.glob_instances@,
            last_id: self.id_count,
            active_level: self.active_level,
            active_entity: self.active_entity,
        }
    }

    /// `s` is this state but for the active level's tiles.
    pub open spec fn same_but_active_tiles(&self, s: State<V>) -> bool {
        &&& s.frame() == self.frame()
        &&& s.levels().dom() == self.levels().dom()
        &&& forall|id: u64| #[trigger]
            self.levels().contains_key(id) && id != self.active_level_id() ==> s.levels()[id]
                == self.levels()[id]
        &&& s.active().kind() == self.active().kind()
        &&& s.active().entities() == self.active().entities()
        &&& s.active().locations() == self.active().locations()
        &&& s.active().data() == self.active().data()
    }
}

/// The state stays well formed when at most one level changes and the
/// changed level is well formed with identifiers that were handed out.
proof fn lemma_wf_update<V>(old_s: State<V>, new_s: State<V>, changed: u64)
    requires
        old_s.wf(),
        old_s.last_id() <= new_s.last_id(),
        forall|id: u64| #[trigger] new_s.globals().contains_key(id) ==> 1 <= id <= new_s.last_id(),
        forall|id: u64|
            #[trigger] new_s.levels().contains_key(id) && id != changed ==> old_s.levels().contains_key(
                id,
            ) && new_s.levels()[id] == old_s.levels()[id],
        new_s.levels().contains_key(changed) ==> {
            &&& 1 <= changed <= new_s.last_id()
            &&& new_s.levels()[changed].wf()
            &&& forall|eid: u64| #[trigger]
                new_s.levels()[changed].entities().contains_key(eid) ==> 1 <= eid <= new_s.last_id()
        },
    ensures
        new_s.wf(),
{
    assert forall|lid: u64, eid: u64|
        new_s.levels().contains_key(lid) && #[trigger] new_s.levels()[lid].entities().contains_key(
            eid,
        ) implies 1 <= eid <= new_s.last_id() by {
        if lid != changed {
            assert(old_s.levels().contains_key(lid));
            assert(old_s.levels()[lid].entities().contains_key(eid));
        }
    }
}

impl<V: Clone> State<V> {
    /// A fresh state: `null` as the global object, no layout, no levels, no
    /// entities, nothing active.
    pub fn new(null: V) -> (r: State<V>)
        ensures
            r.wf(),
            cloned(null, r.glob()),
            r.null() == null,
            r.layout().len() == 0,
            r.key().len() == 0,
            r.globals() == Map::<u64, EntityInst<V>>::empty(),
            r.levels() == Map::<u64, LevelInst<V>>::empty(),
            r.last_id() == 0,
            r.active_level_id() == 0,
            r.active_entity_id() == 0,
    {
        State {
            glob_obj: null.clone(),
            null: null,
            current_layout: String::new(),
            last_key: String::new(),
            glob_instances: HashMap::new(),
            level_instances: HashMap::new(),
            id_count: 0,
            active_level: 0,
            active_entity: 0,
        }
    }

    /// Replaces the global object.
    pub fn set_glob_obj(&mut self, val: V)
        ensures
            final(self).glob() == val,
            final(self).levels() == old(self).levels(),
            final(self).globals() == old(self).globals(),
            final(self).last_id() == old(self).last_id(),
            final(self).active_level_id() == old(self).active_level_id(),
            final(self).active_entity_id() == old(self).active_entity_id(),
            final(self).layout() == old(self).layout(),
            final(self).null() == old(self).null(),
    {
        self.glob_obj = val;
    }

    /// The global object, cloned.
    pub fn get_glob_obj(&self) -> (r: V)
        ensures
            cloned(self.glob(), r),
    {
        self.glob_obj.clone()
    }

    /// Makes `c_l` the active layout.
    pub fn set_current_layout(&mut self, c_l: &str)
        ensures
            final(self).layout() == c_l@,
            final(self).levels() == old(self).levels(),
            final(self).globals() == old(self).globals(),
            final(self).last_id() == old(self).last_id(),
            final(self).active_level_id() == old(self).active_level_id(),
            final(self).glob() == old(self).glob(),
    {
        self.current_layout = c_l.to_owned();
    }

    /// The name of the active layout.
    pub fn get_current_layout(&self) -> (r: &str)
        ensures
            r@ == self.layout(),
    {
        self.current_layout.as_str()
    }

    /// Records the last key pressed.
    pub fn set_last_key(&mut self, key: &str)
        ensures
            final(self).key() == key@,
            final(self).layout() == old(self).layout(),
            final(self).levels() == old(self).levels(),
            final(self).globals() == old(self).globals(),
            final(self).last_id() == old(self).last_id(),
            final(self).active_level_id() == old(self).active_level_id(),
            final(self).glob() == old(self).glob(),
    {
        self.last_key = key.to_owned();
    }

    /// The last key pressed, as text.
    pub fn get_last_key(&self) -> (r: String)
        ensures
            r@ == self.key(),
    {
        self.last_key.clone()
    }

    /// Makes level `id` active (none when `id` is 0).  For a level, the map
    /// renderer is told its size.
    pub fn set_active_level(&mut self, id: u64) -> (r: Option<MapCommand>)
        requires
            id == 0 || old(self).levels().contains_key(id),
        ensures
            final(self).active_level_id() == id,
            final(self).levels() == old(self).levels(),
            final(self).globals() == old(self).globals(),
            final(self).last_id() == old(self).last_id(),
            final(self).active_entity_id() == old(self).active_entity_id(),
            final(self).glob() == old(self).glob(),
            final(self).null() == old(self).null(),
            final(self).layout() == old(self).layout(),
            final(self).key() == old(self).key(),
            id == 0 ==> r is None,
            id != 0 ==> r == Some(
                MapCommand::NewLevel(
                    old(self).levels()[id].kind().width(),
                    old(self).levels()[id].kind().height(),
                ),
            ),
    {
        self.active_level = id;
        if id != 0 {
            let level = self.level_instances.get(&self.active_level).unwrap();
            Some(MapCommand::NewLevel(level.x_size(), level.y_size()))
        } else {
            None
        }
    }

    /// The identifier of the active level.
    pub fn get_active_level(&self) -> (r: u64)
        ensures
            r == self.active_level_id(),
    {
        self.active_level
    }

    /// Makes entity `id` active.
    pub fn set_active_entity(&mut self, id: u64)
        ensures
            final(self).active_entity_id() == id,
            final(self).frame() == (StateFrame { active_entity: id, ..old(self).frame() }),
            final(self).levels() == old(self).levels(),
    {
        self.active_entity = id;
    }

    /// Makes no entity active.
    pub fn clear_active_entity(&mut self)
        ensures
            final(self).active_entity_id() == 0,
            final(self).frame() == (StateFrame { active_entity: 0, ..old(self).frame() }),
            final(self).levels() == old(self).levels(),
    {
        self.active_entity = 0;
    }

    /// The identifier of the active entity.
    pub fn get_active_entity(&self) -> (r: u64)
        ensures
            r == self.active_entity_id(),
    {
        self.active_entity
    }

    /// The map data of the active level, for the renderer.
    pub fn prepare_render(&self) -> (r: Vec<MapCommand>)
        requires
            self.has_active(),
            forall|id: u64| #[trigger]
                self.active().locations().contains_key(id) ==> self.active().entities().contains_key(id)
                    || self.globals().contains_key(id),
        ensures
            is_map_data(self.active(), self.globals(), r@),
    {
        let level = self.level_instances.get(&self.active_level).unwrap();
        assert forall|id: u64| #[trigger] level.locations().contains_key(id) implies level.entities().contains_key(id)
            || self.glob_instances@.contains_key(id) by {
            assert(self.active().locations().contains_key(id));
        }
        level.send_text_map_data(&self.glob_instances)
    }

    /// Creates an instance of the level kind `name` under the next
    /// identifier, with "nothing" as its data, and hands back the identifier.
    pub fn create_level(&mut self, glob: &Global, name: &str) -> (r: Result<u64, EngErr>)
        requires
            old(self).wf(),
            old(self).last_id() < u64::MAX,
        ensures
            final(self).wf(),
            glob.levels().contains_key(name@) <==> r is Ok,
            r is Err ==> *final(self) == *old(self),
            r matches Err(e) ==> e == EngErr::RunTime(crate::error::RunCode::LevelClassNotFound),
            r matches Ok(id) ==> {
                let l = final(self).levels()[id];
                let k = glob.levels()[name@];
                &&& id == old(self).last_id() + 1
                &&& final(self).last_id() == id
                &&& !old(self).levels().contains_key(id)
                &&& final(self).levels().dom() == old(self).levels().dom().insert(id)
                &&& forall|i: u64| #[trigger]
                    old(self).levels().contains_key(i) ==> final(self).levels()[i] == old(
                        self,
                    ).levels()[i]
                &&& l.kind() == k
                &&& l.tiles() == filled_grid(
                    k.width() as nat,
                    k.height() as nat,
                    k.tiles().default_id(),
                )
                &&& l.entities() == Map::<u64, EntityInst<V>>::empty()
                &&& l.locations() == Map::<u64, Coord>::empty()
                &&& cloned(old(self).null(), l.data())
                &&& final(self).frame() == (StateFrame { last_id: id, ..old(self).frame() })
            },
    {
        let instance = glob.new_level_instance(name, self.null.clone())?;
        self.id_count += 1;
        self.level_instances.insert(self.id_count, instance);
        proof {
            assert(self.globals() == old(self).globals());
            lemma_wf_update(*old(self), *self, self.id_count);
        }
        Ok(self.id_count)
    }

    /// Deletes level instance `id`, if there is one.
    pub fn delete_level(&mut self, id: i64)
        requires
            old(self).wf(),
        ensures
            final(self).wf(),
            final(self).levels() == old(self).levels().remove(id as u64),
            final(self).frame() == old(self).frame(),
    {
        let id = id as u64;
        self.level_instances.remove(&id);
        proof {
            assert(self.globals() == old(self).globals());
            lemma_wf_update(*old(self), *self, id);
        }
    }

    /// Copies level instance `id` under the next identifier, which it hands
    /// back; the copy's data is a clone.
    pub fn clone_level(&mut self, id: i64) -> (r: u64)
        requires
            old(self).wf(),
            old(self).levels().contains_key(id as u64),
            old(self).last_id() < u64::MAX,
        ensures
            final(self).wf(),
            r == old(self).last_id() + 1,
            final(self).last_id() == r,
            !old(self).levels().contains_key(r),
            final(self).levels().dom() == old(self).levels().dom().insert(r),
            forall|i: u64| #[trigger]
                old(self).levels().contains_key(i) ==> final(self).levels()[i] == old(
                    self,
                ).levels()[i],
            ({
                let l = final(self).levels()[r];
                let o = old(self).levels()[id as u64];
                &&& l.kind() == o.kind()
                &&& l.tiles() == o.tiles()
                &&& l.entities() == o.entities()
                &&& l.locations() == o.locations()
                &&& cloned(o.data(), l.data())
            }),
            final(self).frame() == (StateFrame { last_id: r, ..old(self).frame() }),
    {
        let instance = self.level_instances.get(&(id as u64)).unwrap().duplicate();
        self.id_count += 1;
        self.level_instances.insert(self.id_count, instance);
        proof {
            assert(self.globals() == old(self).globals());
            lemma_wf_update(*old(self), *self, self.id_count);
        }
        self.id_count
    }

    /// Takes the active level out of the table.
    fn take_active(&mut self) -> (r: LevelInst<V>)
        requires
            old(self).has_active(),
        ensures
            r == old(self).active(),
            final(self).levels() == old(self).levels().remove(old(self).active_level_id()),
            final(self).frame() == old(self).frame(),
    {
        self.level_instances.remove(&self.active_level).unwrap()
    }

    /// Puts `level` back as the active level.
    fn put_active(&mut self, level: LevelInst<V>)
        ensures
            final(self).levels() == old(self).levels().insert(old(self).active_level_id(), level),
            final(self).frame() == old(self).frame(),
    {
        self.level_instances.insert(self.active_level, level);
    }

    /// Replaces the active level's data.
    pub fn set_level_obj(&mut self, val: V)
        requires
            old(self).wf(),
            old(self).has_active(),
        ensures
            final(self).wf(),
            final(self).frame() == old(self).frame(),
            final(self).levels().dom() == old(self).levels().dom(),
            forall|id: u64| #[trigger]
                old(self).levels().contains_key(id) && id != old(self).active_level_id()
                    ==> final(self).levels()[id] == old(self).levels()[id],
            final(self).active().data() == val,
            final(self).active().kind() == old(self).active().kind(),
            final(self).active().tiles() == old(self).active().tiles(),
            final(self).active().entities() == old(self).active().entities(),
            final(self).active().locations() == old(self).active().locations(),
    {
        let mut level = self.take_active();
        level.set_data(val);
        self.put_active(level);
        proof {
            assert(self.globals() == old(self).globals());
            lemma_wf_update(*old(self), *self, self.active_level);
            assert(self.levels().dom() =~= old(self).levels().dom());
        }
    }

    /// The active level's data, cloned.
    pub fn get_level_obj(&self) -> (r: V)
        requires
            self.has_active(),
        ensures
            cloned(self.active().data(), r),
    {
        self.level_instances.get(&self.active_level).unwrap().get_data()
    }

    /// An entity that stands at `at` on the active level, if any does.
    pub fn instance_at(&self, at: Coord) -> (r: Option<u64>)
        requires
            self.has_active(),
        ensures
            r matches Some(id) ==> self.active().locations().contains_key(id)
                && self.active().locations()[id] == at,
            r is None ==> forall|id: u64| #[trigger]
                self.active().locations().contains_key(id) ==> self.active().locations()[id] != at,
    {
        self.level_instances.get(&self.active_level).unwrap().instance_at(at)
    }

    /// Where entity `id` stands on the active level.
    pub fn location_of(&self, id: i64) -> (r: Option<Coord>)
        requires
            self.has_active(),
        ensures
            r == (if self.active().locations().contains_key(id as u64) {
                Some(self.active().locations()[id as u64])
            } else {
                None
            }),
    {
        self.level_instances.get(&self.active_level).unwrap().location_of(id as u64)
    }

    /// Creates a global instance of the entity kind `name` under the next
    /// identifier, with "nothing" as its data, and hands back the identifier.
    pub fn create_glob_entity(&mut self, glob: &Global, name: &str) -> (r: Result<u64, EngErr>)
        requires
            old(self).wf(),
            old(self).last_id() < u64::MAX,
        ensures
            final(self).wf(),
            glob.entities().contains_key(name@) <==> r is Ok,
            r is Err ==> *final(self) == *old(self),
            r matches Err(e) ==> e == EngErr::RunTime(crate::error::RunCode::EntityClassNotFound),
            r matches Ok(id) ==> {
                let e = final(self).globals()[id];
                &&& id == old(self).last_id() + 1
                &&& !old(self).globals().contains_key(id)
                &&& final(self).globals().dom() == old(self).globals().dom().insert(id)
                &&& forall|i: u64| #[trigger]
                    old(self).globals().contains_key(i) ==> final(self).globals()[i] == old(
                        self,
                    ).globals()[i]
                &&& e.name() == name@
                &&& e.tile()@ == glob.entities()[name@].tile()@
                &&& cloned(old(self).null(), e.data())
                &&& final(self).frame() == (StateFrame {
                    last_id: id,
                    globals: final(self).globals(),
                    ..old(self).frame()
                })
                &&& final(self).levels() == old(self).levels()
            },
    {
        let instance = glob.new_entity_instance(name, self.null.clone())?;
        self.id_count += 1;
        self.glob_instances.insert(self.id_count, instance);
        proof {
            assert forall|i: u64| #[trigger] self.globals().contains_key(i) implies 1 <= i <= self.last_id() by {
                if i != self.id_count {
                    assert(old(self).globals().contains_key(i));
                }
            }
            assert(self.levels() == old(self).levels());
            lemma_wf_update(*old(self), *self, 0);
        }
        Ok(self.id_count)
    }

    /// Creates an instance of the entity kind `name` on the active level,
    /// under the next identifier, with "nothing" as its data, and hands back
    /// the identifier.
    pub fn create_local_entity(&mut self, glob: &Global, name: &str) -> (r: Result<u64, EngErr>)
        requires
            old(self).wf(),
            old(self).has_active(),
            old(self).last_id() < u64::MAX,
        ensures
            final(self).wf(),
            glob.entities().contains_key(name@) <==> r is Ok,
            r is Err ==> *final(self) == *old(self),
            r matches Err(e) ==> e == EngErr::RunTime(crate::error::RunCode::EntityClassNotFound),
            r matches Ok(id) ==> {
                let e = final(self).active().entities()[id];
                &&& id == old(self).last_id() + 1
                &&& !old(self).active().entities().contains_key(id)
                &&& final(self).active().entities().dom() == old(self).active().entities().dom().insert(id)
                &&& forall|i: u64| #[trigger]
                    old(self).active().entities().contains_key(i) ==> final(self).active().entities()[i]
                        == old(self).active().entities()[i]
                &&& e.name() == name@
                &&& e.tile()@ == glob.entities()[name@].tile()@
                &&& cloned(old(self).null(), e.data())
                &&& final(self).frame() == (StateFrame { last_id: id, ..old(self).frame() })
                &&& final(self).levels().dom() == old(self).levels().dom()
                &&& forall|i: u64| #[trigger]
                    old(self).levels().contains_key(i) && i != old(self).active_level_id()
                        ==> final(self).levels()[i] == old(self).levels()[i]
                &&& final(self).active().kind() == old(self).active().kind()
                &&& final(self).active().tiles() == old(self).active().tiles()
                &&& final(self).active().locations() == old(self).active().locations()
                &&& final(self).active().data() == old(self).active().data()
            },
    {
        let instance = glob.new_entity_instance(name, self.null.clone())?;
        self.id_count += 1;
        let mut level = self.take_active();
        level.add_instance(self.id_count, instance);
        self.put_active(level);
        proof {
            assert(self.globals() == old(self).globals());
            lemma_wf_update(*old(self), *self, self.active_level);
            assert(self.levels().dom() =~= old(self).levels().dom());
            assert(final(self).active().entities().dom() =~= old(self).active().entities().dom().insert(self.id_count));
        }
        Ok(self.id_count)
    }

    /// Deletes entity `id`: from the global entities, from the active level's
    /// entities, and off the active level's map.
    pub fn delete_entity(&mut self, id: i64)
        requires
            old(self).wf(),
            old(self).has_active(),
        ensures
            final(self).wf(),
            final(self).globals() == old(self).globals().remove(id as u64),
            final(self).frame() == (StateFrame { globals: final(self).globals(), ..old(self).frame() }),
            final(self).levels().dom() == old(self).levels().dom(),
            forall|i: u64| #[trigger]
                old(self).levels().contains_key(i) && i != old(self).active_level_id()
                    ==> final(self).levels()[i] == old(self).levels()[i],
            final(self).active().entities() == old(self).active().entities().remove(id as u64),
            final(self).active().locations() == old(self).active().locations().remove(id as u64),
            final(self).active().kind() == old(self).active().kind(),
            final(self).active().tiles() == old(self).active().tiles(),
            final(self).active().data() == old(self).active().data(),
    {
        let id = id as u64;
        self.glob_instances.remove(&id);
        let mut level = self.take_active();
        level.remove_instance(id);
        level.despawn_instance(id);
        self.put_active(level);
        proof {
            assert forall|i: u64| #[trigger] self.globals().contains_key(i) implies 1 <= i <= self.last_id() by {
                assert(old(self).globals().contains_key(i));
            }
            lemma_wf_update(*old(self), *self, self.active_level);
            assert(self.levels().dom() =~= old(self).levels().dom());
        }
    }

    /// Replaces the data of entity `id`: the global entity with that
    /// identifier, or else the active level's.
    pub fn set_entity_obj(&mut self, id: u64, val: V)
        requires
            old(self).wf(),
            old(self).globals().contains_key(id) || (old(self).has_active()
                && old(self).active().entities().contains_key(id)),
        ensures
            final(self).wf(),
            old(self).globals().contains_key(id) ==> {
                &&& final(self).globals() == old(self).globals().insert(
                    id,
                    old(self).globals()[id].with_data(val),
                )
                &&& final(self).levels() == old(self).levels()
            },
            !old(self).globals().contains_key(id) ==> {
                &&& final(self).globals() == old(self).globals()
                &&& final(self).levels().dom() == old(self).levels().dom()
                &&& forall|i: u64| #[trigger]
                    old(self).levels().contains_key(i) && i != old(self).active_level_id()
                        ==> final(self).levels()[i] == old(self).levels()[i]
                &&& final(self).active().entities() == old(self).active().entities().insert(
                    id,
                    old(self).active().entities()[id].with_data(val),
                )
                &&& final(self).active().kind() == old(self).active().kind()
                &&& final(self).active().tiles() == old(self).active().tiles()
                &&& final(self).active().locations() == old(self).active().locations()
                &&& final(self).active().data() == old(self).active().data()
            },
            final(self).frame() == (StateFrame { globals: final(self).globals(), ..old(self).frame() }),
    {
        match self.glob_instances.remove(&id) {
            Some(e) => {
                let mut e = e;
                e.set_data(val);
                self.glob_instances.insert(id, e);
                proof {
                    assert forall|i: u64| #[trigger] self.globals().contains_key(i) implies 1 <= i <= self.last_id() by {
                        assert(old(self).globals().contains_key(i));
                    }
                    assert(self.levels() == old(self).levels());
                    lemma_wf_update(*old(self), *self, 0);
                }
            },
            None => {
                let mut level = self.take_active();
                level.set_entity_data(id, val);
                self.put_active(level);
                proof {
                    assert(self.globals() == old(self).globals());
                    lemma_wf_update(*old(self), *self, self.active_level);
                    assert(self.levels().dom() =~= old(self).levels().dom());
                }
            },
        }
    }

    /// The data of entity `id`, cloned: the global entity with that
    /// identifier, or else the active level's.
    pub fn get_entity_obj(&self, id: u64) -> (r: V)
        requires
            self.globals().contains_key(id) || (self.has_active() && self.active().entities().contains_key(id)),
        ensures
            self.globals().contains_key(id) ==> cloned(self.globals()[id].data(), r),
            !self.globals().contains_key(id) ==> cloned(self.active().entities()[id].data(), r),
    {
        match self.glob_instances.get(&id) {
            Some(e) => e.get_data(),
            None => self.level_instances.get(&self.active_level).unwrap().get_entity_data(id),
        }
    }

    /// The data of the active entity, cloned; "nothing" when no entity is
    /// active.
    pub fn active_entity_obj(&self) -> (r: V)
        requires
            self.active_entity_id() != 0 ==> (self.globals().contains_key(self.active_entity_id()) || (
            self.has_active() && self.active().entities().contains_key(self.active_entity_id()))),
        ensures
            self.active_entity_id() == 0 ==> cloned(self.null(), r),
            self.active_entity_id() != 0 && self.globals().contains_key(self.active_entity_id())
                ==> cloned(self.globals()[self.active_entity_id()].data(), r),
            self.active_entity_id() != 0 && !self.globals().contains_key(self.active_entity_id())
                ==> cloned(self.active().entities()[self.active_entity_id()].data(), r),
    {
        if self.active_entity != 0 {
            self.get_entity_obj(self.active_entity)
        } else {
            self.null.clone()
        }
    }

    /// The name of the kind of entity `id`: the global entity with that
    /// identifier, or else the active level's.
    pub fn get_entity_name(&self, id: i64) -> (r: String)
        requires
            self.globals().contains_key(id as u64) || (self.has_active()
                && self.active().entities().contains_key(id as u64)),
        ensures
            self.globals().contains_key(id as u64) ==> r@ == self.globals()[id as u64].name(),
            !self.globals().contains_key(id as u64) ==> r@ == self.active().entities()[id as u64].name(),
    {
        match self.glob_instances.get(&(id as u64)) {
            Some(e) => e.get_name(),
            None => self.level_instances.get(&self.active_level).unwrap().get_entity_name(id as u64),
        }
    }

    /// Runs the entities' actions; there are none to run yet, so the state
    /// stays as it is.
    pub fn run_actions(&mut self)
        ensures
            *final(self) == *old(self),
    {
    }

    /// Places entity `entity` at `loc` on the active level, when `loc` lies
    /// on its map and does not block movement; `true` when it was placed.
    pub fn spawn_entity(&mut self, entity: i64, loc: Coord) -> (r: bool)
        requires
            old(self).wf(),
            old(self).has_active(),
            on_map(old(self).active().tiles(), loc) ==> old(self).active().kind().tiles().items().contains_key(
                old(self).active().tiles()[loc.1 as int][loc.0 as int],
            ),
        ensures
            final(self).wf(),
            r == (on_map(old(self).active().tiles(), loc) && !old(self).active().kind().tiles().items()[old(
                self,
            ).active().tiles()[loc.1 as int][loc.0 as int]].collide),
            r ==> final(self).active().locations() == old(self).active().locations().insert(entity as u64, loc),
            !r ==> final(self).active().locations() == old(self).active().locations(),
            final(self).globals() == old(self).globals(),
            final(self).active_level_id() == old(self).active_level_id(),
            final(self).frame() == old(self).frame(),
            final(self).levels().dom() == old(self).levels().dom(),
            forall|i: u64| #[trigger]
                old(self).levels().contains_key(i) && i != old(self).active_level_id()
                    ==> final(self).levels()[i] == old(self).levels()[i],
            final(self).active().kind() == old(self).active().kind(),
            final(self).active().tiles() == old(self).active().tiles(),
            final(self).active().entities() == old(self).active().entities(),
            final(self).active().data() == old(self).active().data(),
    {
        let mut level = self.take_active();
        let spawned = level.spawn_instance(entity as u64, loc);
        self.put_active(level);
        proof {
            assert(self.globals() == old(self).globals());
            lemma_wf_update(*old(self), *self, self.active_level);
            assert(self.levels().dom() =~= old(self).levels().dom());
        }
        spawned
    }

    /// Takes entity `entity` off the active level's map; `true` when it stood
    /// on it.
    pub fn despawn_entity(&mut self, entity: i64) -> (r: bool)
        requires
            old(self).wf(),
            old(self).has_active(),
        ensures
            final(self).wf(),
            r == old(self).active().locations().contains_key(entity as u64),
            final(self).active().locations() == old(self).active().locations().remove(entity as u64),
            final(self).globals() == old(self).globals(),
            final(self).active_level_id() == old(self).active_level_id(),
            final(self).frame() == old(self).frame(),
            final(self).levels().dom() == old(self).levels().dom(),
            forall|i: u64| #[trigger]
                old(self).levels().contains_key(i) && i != old(self).active_level_id()
                    ==> final(self).levels()[i] == old(self).levels()[i],
            final(self).active().kind() == old(self).active().kind(),
            final(self).active().tiles() == old(self).active().tiles(),
            final(self).active().entities() == old(self).active().entities(),
            final(self).active().data() == old(self).active().data(),
    {
        let mut level = self.take_active();
        let despawned = level.despawn_instance(entity as u64);
        self.put_active(level);
        proof {
            assert(self.globals() == old(self).globals());
            lemma_wf_update(*old(self), *self, self.active_level);
            assert(self.levels().dom() =~= old(self).levels().dom());
        }
        despawned
    }

    /// Puts the tile kind named `tile_name` at each position of the active
    /// level from the smaller to, not including, the larger coordinate of
    /// `tl` and `br` in each direction.
    pub fn fill_tiles(&mut self, tile_name: &str, tl: Coord, br: Coord)
        requires
            old(self).wf(),
            old(self).has_active(),
            old(self).active().kind().tiles().names().contains_key(tile_name@),
            span_ok(tl.0, br.0),
            span_ok(tl.1, br.1),
            min_of(tl.0, br.0) + span(tl.0, br.0) <= usize::MAX,
            min_of(tl.1, br.1) + span(tl.1, br.1) <= usize::MAX,
        ensures
            final(self).wf(),
            old(self).same_but_active_tiles(*final(self)),
            final(self).active().tiles() == painted(
                old(self).active().tiles(),
                old(self).active().kind().tiles().names()[tile_name@],
                |x: int, y: int|
                    min_of(tl.0, br.0) <= x < min_of(tl.0, br.0) + span(tl.0, br.0) && min_of(
                        tl.1,
                        br.1,
                    ) <= y < min_of(tl.1, br.1) + span(tl.1, br.1),
            ),
    {
        let mut level = self.take_active();
        let tile = match level.get_tile_id(tile_name) {
            Some(t) => t,
            None => {
                proof {
                    assert(false);
                }
                0
            },
        };
        let y_start = if tl.1 <= br.1 {
            tl.1
        } else {
            br.1
        };
        let x_start = if tl.0 <= br.0 {
            tl.0
        } else {
            br.0
        };
        let y_range = span_of(tl.1, br.1);
        let x_range = span_of(tl.0, br.0);
        level.fill_rect(tile, x_start, x_start + x_range, y_start, y_start + y_range);
        self.put_active(level);
        proof {
            assert(self.globals() == old(self).globals());
            lemma_wf_update(*old(self), *self, self.active_level);
            assert(self.levels().dom() =~= old(self).levels().dom());
        }
    }

    /// Draws a line of the tile kind named `tile_name` on the active level
    /// from `s` to `e`.  A line with no width is the column between the two
    /// rows.  Otherwise, column by column from the end with the smaller x,
    /// each column is painted from the row the previous column reached to
    /// its own row: the start row at the first column, the end row at the
    /// last, and in between the start row moved toward the end row by the
    /// column's offset in `steps`.
    pub fn draw_line(&mut self, tile_name: &str, s: Coord, e: Coord, steps: &Vec<usize>)
        requires
            old(self).wf(),
            old(self).has_active(),
            old(self).active().kind().tiles().names().contains_key(tile_name@),
            line_fits(s, e, steps@),
        ensures
            final(self).wf(),
            old(self).same_but_active_tiles(*final(self)),
            final(self).active().tiles() == painted(
                old(self).active().tiles(),
                old(self).active().kind().tiles().names()[tile_name@],
                |x: int, y: int| line_of(s, e, steps@, x, y),
            ),
    {
        let mut level = self.take_active();
        let tile = match level.get_tile_id(tile_name) {
            Some(t) => t,
            None => {
                proof {
                    assert(false);
                }
                0
            },
        };
        let x_start = if s.0 <= e.0 {
            s.0
        } else {
            e.0
        };
        let (ya, yb) = if s.0 <= e.0 {
            (s.1, e.1)
        } else {
            (e.1, s.1)
        };
        let x_range = span_of(s.0, e.0);
        let ghost orig = level.tiles();
        let ghost xr = x_range as int;
        if x_range != 0 {
            let mut prev = ya;
            let mut i: usize = 0;
            assert(orig =~~= painted(
                orig,
                tile,
                |x: int, y: int| x < x_start + i && line_covers(x_start as int, ya as int, yb as int, xr, steps@, x, y),
            ));
            while i < steps.len()
                invariant
                    level.wf(),
                    i <= steps.len(),
                    steps.len() == x_range + 1,
                    xr == x_range,
                    x_range != 0,
                    x_start + x_range <= usize::MAX,
                    forall|j: int| 0 <= j < steps.len() ==> #[trigger] steps[j] <= span(s.1, e.1),
                    ya <= yb ==> ya + span(s.1, e.1) <= usize::MAX,
                    ya > yb ==> span(s.1, e.1) <= ya,
                    prev == (if i == 0 {
                        ya as int
                    } else {
                        line_row(ya as int, yb as int, xr, steps@, i - 1)
                    }),
                    level.tiles() == painted(
                        orig,
                        tile,
                        |x: int, y: int|
                            x < x_start + i && line_covers(x_start as int, ya as int, yb as int, xr, steps@, x, y),
                    ),
                    level.kind() == old(self).active().kind(),
                    level.entities() == old(self).active().entities(),
                    level.locations() == old(self).active().locations(),
                    level.data() == old(self).active().data(),
                decreases steps.len() - i,
            {
                let cur: usize = if i == 0 {
                    ya
                } else if i == x_range {
                    yb
                } else if ya <= yb {
                    ya + steps[i]
                } else {
                    ya - steps[i]
                };
                assert(cur == line_row(ya as int, yb as int, xr, steps@, i as int));
                let (lo, hi) = if prev <= cur {
                    (prev, cur)
                } else {
                    (cur, prev)
                };
                level.paint_column(tile, x_start + i, lo, hi);
                prev = cur;
                i += 1;
                assert(level.tiles() =~~= painted(
                    orig,
                    tile,
                    |x: int, y: int|
                        x < x_start + i && line_covers(x_start as int, ya as int, yb as int, xr, steps@, x, y),
                ));
            }
            assert(level.tiles() =~~= painted(
                orig,
                tile,
                |x: int, y: int| line_covers(x_start as int, ya as int, yb as int, xr, steps@, x, y),
            ));
        } else {
            let (lo, hi) = if ya <= yb {
                (ya, yb)
            } else {
                (yb, ya)
            };
            level.paint_column(tile, x_start, lo, hi);
            assert(level.tiles() =~~= painted(
                orig,
                tile,
                |x: int, y: int| line_covers(x_start as int, ya as int, yb as int, xr, steps@, x, y),
            ));
        }
        self.put_active(level);
        proof {
            assert(self.globals() == old(self).globals());
            lemma_wf_update(*old(self), *self, self.active_level);
            assert(self.levels().dom() =~= old(self).levels().dom());
            assert(self.active().tiles() =~~= painted(
                old(self).active().tiles(),
                tile,
                |x: int, y: int| line_of(s, e, steps@, x, y),
            ));
        }
    }

}

/// The row that a line reaches at column offset `i`: the start row at the
/// first column, the end row at the last, and in between the start row
/// moved toward the end row by the offset `steps[i]`.
pub open spec fn line_row(ya: int, yb: int, xr: int, steps: Seq<usize>, i: int) -> int {
    if i == 0 {
        ya
    } else if i == xr {
        yb
    } else if ya <= yb {
        ya + steps[i]
    } else {
        ya - steps[i]
    }
}

/// The smaller of two integers.
pub open spec fn imin(a: int, b: int) -> int {
    if a <= b {
        a
    } else {
        b
    }
}

/// The larger of two integers.
pub open spec fn imax(a: int, b: int) -> int {
    if a <= b {
        b
    } else {
        a
    }
}

/// Whether a line from column `xa`, row `ya` to column `xa + xr`, row `yb`,
/// with row offsets `steps`, covers `(x, y)`.  A line with no width is the
/// column between its two rows; otherwise each column runs from the row the
/// previous column reached to its own.
pub open spec fn line_covers(xa: int, ya: int, yb: int, xr: int, steps: Seq<usize>, x: int, y: int) -> bool {
    if xr == 0 {
        x == xa && imin(ya, yb) <= y <= imax(ya, yb)
    } else {
        let i = x - xa;
        let prev = if i == 0 {
            ya
        } else {
            line_row(ya, yb, xr, steps, i - 1)
        };
        let cur = line_row(ya, yb, xr, steps, i);
        &&& 0 <= i <= xr
        &&& imin(prev, cur) <= y <= imax(prev, cur)
    }
}

/// The cells that `draw_line` covers for a line from `s` to `e`.
pub open spec fn line_of(s: Coord, e: Coord, steps: Seq<usize>, x: int, y: int) -> bool {
    line_covers(
        min_of(s.0, e.0) as int,
        start_row(s, e) as int,
        end_row(s, e) as int,
        span(s.0, e.0),
        steps,
        x,
        y,
    )
}

/// Whether column `x` of a line shares a row with column `x + 1`.
pub open spec fn columns_link(s: Coord, e: Coord, steps: Seq<usize>, x: int) -> bool {
    exists|y: int| line_of(s, e, steps, x, y) && #[trigger] line_of(s, e, steps, x + 1, y)
}

/// A line joins its ends: it covers both given points, and each of its
/// columns shares a row with the next, so that the line has no gap.
pub proof fn law_line_joins(s: Coord, e: Coord, steps: Seq<usize>)
    requires
        s.0 <= isize::MAX,
        s.1 <= isize::MAX,
        e.0 <= isize::MAX,
        e.1 <= isize::MAX,
    ensures
        line_of(s, e, steps, s.0 as int, s.1 as int),
        line_of(s, e, steps, e.0 as int, e.1 as int),
        forall|x: int|
            min_of(s.0, e.0) <= x < min_of(s.0, e.0) + span(s.0, e.0) ==> #[trigger] columns_link(
                s,
                e,
                steps,
                x,
            ),
{
    let xa = min_of(s.0, e.0) as int;
    let ya = start_row(s, e) as int;
    let yb = end_row(s, e) as int;
    let xr = span(s.0, e.0);
    assert(xr == if s.0 <= e.0 { e.0 - s.0 } else { s.0 - e.0 });
    assert forall|x: int| xa <= x < xa + xr implies #[trigger] columns_link(s, e, steps, x) by {
        let y = line_row(ya, yb, xr, steps, x - xa);
        assert(line_of(s, e, steps, x, y));
        assert(line_of(s, e, steps, x + 1, y));
    }
}

impl<V: Clone> State<V> {
    /// Whether the active level exists.
    pub fn active_level_exists(&self) -> (r: bool)
        ensures
            r == self.has_active(),
    {
        self.level_instances.contains_key(&self.active_level)
    }

    /// Whether level instance `id` exists.
    pub fn level_exists(&self, id: u64) -> (r: bool)
        ensures
            r == self.levels().contains_key(id),
    {
        self.level_instances.contains_key(&id)
    }

    /// Whether entity `id` exists: as a global entity, or on the active
    /// level.
    pub fn entity_exists(&self, id: u64) -> (r: bool)
        ensures
            r == (self.globals().contains_key(id) || (self.has_active()
                && self.active().entities().contains_key(id))),
    {
        if self.glob_instances.contains_key(&id) {
            return true;
        }
        match self.level_instances.get(&self.active_level) {
            Some(level) => level.has_entity(id),
            None => false,
        }
    }

    /// Whether each entity on the active level's map is an entity of that
    /// level or a global one, so that its sprite can be drawn.
    pub fn sprites_known(&self) -> (r: bool)
        requires
            self.has_active(),
        ensures
            r == forall|id: u64| #[trigger]
                self.active().locations().contains_key(id) ==> self.active().entities().contains_key(id)
                    || self.globals().contains_key(id),
    {
        let level = self.level_instances.get(&self.active_level).unwrap();
        assert(*level == self.active());
        level.locations_known(&self.glob_instances)
    }

    /// Whether another identifier can be handed out.
    pub fn has_id_room(&self) -> (r: bool)
        ensures
            r == (self.last_id() < u64::MAX),
    {
        self.id_count < u64::MAX
    }

    /// Whether the active level's tile set names `tile_name`.
    pub fn tile_known(&self, tile_name: &str) -> (r: bool)
        requires
            self.has_active(),
        ensures
            r == self.active().kind().tiles().names().contains_key(tile_name@),
    {
        self.level_instances.get(&self.active_level).unwrap().get_tile_id(tile_name).is_some()
    }

    /// Whether the tile at `loc` of the active level, when `loc` lies on its
    /// map, is a kind of its tile set.
    pub fn tile_kind_known_at(&self, loc: Coord) -> (r: bool)
        requires
            self.wf(),
            self.has_active(),
        ensures
            r == (on_map(self.active().tiles(), loc) ==> self.active().kind().tiles().items().contains_key(
                self.active().tiles()[loc.1 as int][loc.0 as int],
            )),
    {
        self.level_instances.get(&self.active_level).unwrap().tile_kind_known_at(loc)
    }

    /// The first half of creating a level from a script: creates an instance
    /// of the level kind `name` and makes it active, handing back its
    /// identifier, the identifier of the level that was active, and what the
    /// map renderer is told.  The kind's init script runs next, and its
    /// result goes to `finish_level_create`.
    pub fn begin_level_create(&mut self, glob: &Global, name: &str) -> (r: Result<
        (u64, u64, Option<MapCommand>),
        EngErr,
    >)
        requires
            old(self).wf(),
            old(self).last_id() < u64::MAX,
        ensures
            final(self).wf(),
            glob.levels().contains_key(name@) <==> r is Ok,
            r is Err ==> *final(self) == *old(self),
            r matches Err(e) ==> e == EngErr::RunTime(crate::error::RunCode::LevelClassNotFound),
            r matches Ok((id, prev, cmd)) ==> {
                let k = glob.levels()[name@];
                &&& id == old(self).last_id() + 1
                &&& prev == old(self).active_level_id()
                &&& final(self).active_level_id() == id
                &&& final(self).has_active()
                &&& final(self).last_id() == id
                &&& !old(self).levels().contains_key(id)
                &&& final(self).levels().dom() == old(self).levels().dom().insert(id)
                &&& forall|i: u64| #[trigger]
                    old(self).levels().contains_key(i) ==> final(self).levels()[i] == old(
                        self,
                    ).levels()[i]
                &&& final(self).active().kind() == k
                &&& final(self).active().tiles() == filled_grid(
                    k.width() as nat,
                    k.height() as nat,
                    k.tiles().default_id(),
                )
                &&& final(self).active().entities() == Map::<u64, EntityInst<V>>::empty()
                &&& final(self).active().locations() == Map::<u64, Coord>::empty()
                &&& cmd == Some(MapCommand::NewLevel(k.width(), k.height()))
                &&& final(self).globals() == old(self).globals()
            },
    {
        let prev = self.get_active_level();
        let id = self.create_level(glob, name)?;
        let cmd = self.set_active_level(id);
        Ok((id, prev, cmd))
    }

    /// The second half of creating a level from a script: gives the created,
    /// active level `obj` as its data and makes level `prev` active again,
    /// handing back what the map renderer is told.
    pub fn finish_level_create(&mut self, prev: u64, obj: V) -> (r: Option<MapCommand>)
        requires
            old(self).wf(),
            old(self).has_active(),
            prev == 0 || old(self).levels().contains_key(prev),
        ensures
            final(self).wf(),
            final(self).active_level_id() == prev,
            final(self).levels().dom() == old(self).levels().dom(),
            forall|i: u64| #[trigger]
                old(self).levels().contains_key(i) && i != old(self).active_level_id()
                    ==> final(self).levels()[i] == old(self).levels()[i],
            final(self).levels()[old(self).active_level_id()].data() == obj,
            final(self).levels()[old(self).active_level_id()].kind() == old(self).active().kind(),
            final(self).levels()[old(self).active_level_id()].tiles() == old(self).active().tiles(),
            final(self).levels()[old(self).active_level_id()].entities() == old(
                self,
            ).active().entities(),
            final(self).levels()[old(self).active_level_id()].locations() == old(
                self,
            ).active().locations(),
            final(self).globals() == old(self).globals(),
            final(self).last_id() == old(self).last_id(),
            prev == 0 ==> r is None,
            prev != 0 ==> r == Some(
                MapCommand::NewLevel(
                    final(self).levels()[prev].kind().width(),
                    final(self).levels()[prev].kind().height(),
                ),
            ),
    {
        self.set_level_obj(obj);
        self.set_active_level(prev)
    }

    /// The first half of creating an entity from a script: creates an
    /// instance of the entity kind `name`, a global one when `global` is set
    /// and else one on the active level, and makes it the active entity,
    /// handing back its identifier and that of the entity that was active.
    /// The kind's init script runs next, and its result goes to
    /// `finish_entity_create`.
    pub fn begin_entity_create(&mut self, glob: &Global, name: &str, global: bool) -> (r: Result<
        (u64, u64),
        EngErr,
    >)
        requires
            old(self).wf(),
            old(self).last_id() < u64::MAX,
            !global ==> old(self).has_active(),
        ensures
            final(self).wf(),
            glob.entities().contains_key(name@) <==> r is Ok,
            r is Err ==> *final(self) == *old(self),
            r matches Err(e) ==> e == EngErr::RunTime(crate::error::RunCode::EntityClassNotFound),
            r matches Ok((id, prev)) ==> {
                &&& id == old(self).last_id() + 1
                &&& prev == old(self).active_entity_id()
                &&& final(self).active_entity_id() == id
                &&& final(self).last_id() == id
                &&& final(self).active_level_id() == old(self).active_level_id()
                &&& global ==> {
                    &&& final(self).globals().dom() == old(self).globals().dom().insert(id)
                    &&& final(self).globals()[id].name() == name@
                    &&& cloned(old(self).null(), final(self).globals()[id].data())
                    &&& forall|i: u64| #[trigger]
                        old(self).globals().contains_key(i) ==> final(self).globals()[i] == old(
                            self,
                        ).globals()[i]
                    &&& final(self).levels() == old(self).levels()
                }
                &&& !global ==> {
                    &&& final(self).globals() == old(self).globals()
                    &&& !final(self).globals().contains_key(id)
                    &&& final(self).has_active()
                    &&& final(self).active().entities().dom() == old(self).active().entities().dom().insert(id)
                    &&& final(self).active().entities()[id].name() == name@
                    &&& cloned(old(self).null(), final(self).active().entities()[id].data())
                    &&& forall|i: u64| #[trigger]
                        old(self).active().entities().contains_key(i) ==> final(self).active().entities()[i]
                            == old(self).active().entities()[i]
                    &&& final(self).levels().dom() == old(self).levels().dom()
                    &&& forall|i: u64| #[trigger]
                        old(self).levels().contains_key(i) && i != old(self).active_level_id()
                            ==> final(self).levels()[i] == old(self).levels()[i]
                    &&& final(self).active().kind() == old(self).active().kind()
                    &&& final(self).active().tiles() == old(self).active().tiles()
                    &&& final(self).active().locations() == old(self).active().locations()
                    &&& final(self).active().data() == old(self).active().data()
                }
                &&& final(self).frame() == (StateFrame {
                    last_id: id,
                    active_entity: id,
                    globals: final(self).globals(),
                    ..old(self).frame()
                })
            },
    {
        let prev = self.get_active_entity();
        let id = if global {
            self.create_glob_entity(glob, name)?
        } else {
            let id = self.create_local_entity(glob, name)?;
            proof {
                assert(!old(self).globals().contains_key(id));
            }
            id
        };
        self.set_active_entity(id);
        Ok((id, prev))
    }

    /// The second half of creating an entity from a script: gives entity
    /// `id` `obj` as its data and makes entity `prev` active again.
    pub fn finish_entity_create(&mut self, id: u64, prev: u64, obj: V)
        requires
            old(self).wf(),
            old(self).globals().contains_key(id) || (old(self).has_active()
                && old(self).active().entities().contains_key(id)),
        ensures
            final(self).wf(),
            final(self).active_entity_id() == prev,
            old(self).globals().contains_key(id) ==> {
                &&& final(self).globals() == old(self).globals().insert(
                    id,
                    old(self).globals()[id].with_data(obj),
                )
                &&& final(self).globals()[id].data() == obj
                &&& final(self).globals()[id].name() == old(self).globals()[id].name()
                &&& final(self).levels() == old(self).levels()
            },
            !old(self).globals().contains_key(id) ==> {
                &&& final(self).globals() == old(self).globals()
                &&& final(self).levels().dom() == old(self).levels().dom()
                &&& forall|i: u64| #[trigger]
                    old(self).levels().contains_key(i) && i != old(self).active_level_id()
                        ==> final(self).levels()[i] == old(self).levels()[i]
                &&& final(self).active().entities() == old(self).active().entities().insert(
                    id,
                    old(self).active().entities()[id].with_data(obj),
                )
                &&& final(self).active().entities()[id].data() == obj
                &&& final(self).active().entities()[id].name() == old(self).active().entities()[id].name()
                &&& final(self).active().kind() == old(self).active().kind()
                &&& final(self).active().tiles() == old(self).active().tiles()
                &&& final(self).active().locations() == old(self).active().locations()
                &&& final(self).active().data() == old(self).active().data()
            },
            final(self).frame() == (StateFrame {
                active_entity: prev,
                globals: final(self).globals(),
                ..old(self).frame()
            }),
    {
        self.set_entity_obj(id, obj);
        proof {
            if old(self).globals().contains_key(id) {
                old(self).globals()[id].lemma_with_data(obj);
            } else {
                old(self).active().entities()[id].lemma_with_data(obj);
            }
        }
        self.set_active_entity(prev);
    }
}

/// States with the same frame agree on everything but their levels: the
/// global object, the null value, the layout, the last key, the global
/// entities, the last identifier and the active level and entity.
pub proof fn lemma_frame_parts<V>(a: State<V>, b: State<V>)
    requires
        a.frame() == b.frame(),
    ensures
        a.glob() == b.glob(),
        a.null() == b.null(),
        a.layout() == b.layout(),
        a.key() == b.key(),
        a.globals() == b.globals(),
        a.last_id() == b.last_id(),
        a.active_level_id() == b.active_level_id(),
        a.active_entity_id() == b.active_entity_id(),
{
}

/// Identifiers are never handed out twice: in a well-formed state, the next
/// identifier names no level, no global entity and no entity of any level.
pub proof fn law_next_id_unused<V>(s: State<V>)
    requires
        s.wf(),
        s.last_id() < u64::MAX,
    ensures
        !s.levels().contains_key((s.last_id() + 1) as u64),
        !s.globals().contains_key((s.last_id() + 1) as u64),
        forall|lid: u64| #[trigger]
            s.levels().contains_key(lid) ==> !s.levels()[lid].entities().contains_key(
                (s.last_id() + 1) as u64,
            ),
{
    assert forall|lid: u64| #[trigger]
        s.levels().contains_key(lid) implies !s.levels()[lid].entities().contains_key(
        (s.last_id() + 1) as u64,
    ) by {
        if s.levels()[lid].entities().contains_key((s.last_id() + 1) as u64) {
            assert(1 <= (s.last_id() + 1) as u64 <= s.last_id());
        }
    }
}

/// The data that an entity is given is the data that reading it gives back
/// a clone of: after `set_entity_obj(id, val)`, `get_entity_obj(id)` reads
/// `val`.
pub proof fn law_entity_data_read_after_write<V>(before: State<V>, after: State<V>, id: u64, val: V)
    requires
        before.globals().contains_key(id) || (before.has_active() && before.active().entities().contains_key(
            id,
        )),
        before.globals().contains_key(id) ==> after.globals() == before.globals().insert(
            id,
            before.globals()[id].with_data(val),
        ),
        !before.globals().contains_key(id) ==> {
            &&& after.globals() == before.globals()
            &&& after.levels().dom() == before.levels().dom()
            &&& after.active_level_id() == before.active_level_id()
            &&& after.active().entities() == before.active().entities().insert(
                id,
                before.active().entities()[id].with_data(val),
            )
        },
    ensures
        after.globals().contains_key(id) || (after.has_active() && after.active().entities().contains_key(
            id,
        )),
        after.globals().contains_key(id) ==> after.globals()[id].data() == val,
        !after.globals().contains_key(id) ==> after.active().entities()[id].data() == val,
{
    if before.globals().contains_key(id) {
        before.globals()[id].lemma_with_data(val);
    } else {
        before.active().entities()[id].lemma_with_data(val);
    }
}

/// Deleting a level just created gives back the levels as they were: the
/// new level took an identifier that no level had.
pub proof fn law_delete_undoes_create<V>(before: State<V>, after: State<V>, id: u64)
    requires
        before.wf(),
        !before.levels().contains_key(id),
        after.levels().dom() == before.levels().dom().insert(id),
        forall|i: u64| #[trigger] before.levels().contains_key(i) ==> after.levels()[i] == before.levels()[i],
    ensures
        after.levels().remove(id) == before.levels(),
{
    assert(after.levels().remove(id) =~= before.levels());
}

} // verus!
