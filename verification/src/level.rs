//! Levels: their kinds, as the configuration gives them, and their instances,
//! each with its own tile map, entities and their locations.

use std::collections::HashMap;
use std::rc::Rc;
use vstd::prelude::*;
use crate::Coord;
use crate::entity::EntityInst;
use crate::snippet::Snippet;
use crate::textitem::TextItem;
use crate::textrender::map::{MapCommand, rows_of};
use crate::tile::{TileInfo, TileID};

verus! {

broadcast use vstd::std_specs::hash::group_hash_axioms;

/// A kind of level: its size, its tile set and its scripts.
pub struct Level {
    x: usize,
    y: usize,
    tile_info: Rc<TileInfo>,
    init: Snippet,
    delete: Snippet,
}

impl Level {
    /// A level kind of `x_size` columns and `y_size` rows.
    pub fn new(x_size: u64, y_size: u64, tile_info: Rc<TileInfo>, init: Snippet, delete: Snippet) -> (r:
        Level)
        ensures
            r.width() == x_size as usize,
            r.height() == y_size as usize,
            r.tiles() == tile_info,
            r.init_script() == init,
            r.delete_script() == delete,
    {
        Level { x: x_size as usize, y: y_size as usize, tile_info: tile_info, init: init, delete: delete }
    }

    /// The number of columns.
    pub closed spec fn width(&self) -> usize {
        self.x
    }

    /// The number of rows.
    pub closed spec fn height(&self) -> usize {
        self.y
    }

    /// The tile set.
    pub closed spec fn tiles(&self) -> Rc<TileInfo> {
        self.tile_info
    }

    /// The script run when an instance is created.
    pub closed spec fn init_script(&self) -> Snippet {
        self.init
    }

    /// The script run when an instance is deleted.
    pub closed spec fn delete_script(&self) -> Snippet {
        self.delete
    }

    /// The number of columns.
    pub fn x_size(&self) -> (r: usize)
        ensures
            r == self.width(),
    {
        self.x
    }

    /// The number of rows.
    pub fn y_size(&self) -> (r: usize)
        ensures
            r == self.height(),
    {
        self.y
    }

    /// The script run when an instance is created.
    pub fn init(&self) -> (r: &Snippet)
        ensures
            *r == self.init_script(),
    {
        &self.init
    }

    /// The script run when an instance is deleted.
    pub fn delete(&self) -> (r: &Snippet)
        ensures
            *r == self.delete_script(),
    {
        &self.delete
    }
}

/// A copy of a grid of tiles.
pub fn copy_grid(grid: &Vec<Vec<TileID>>) -> (r: Vec<Vec<TileID>>)
    ensures
        rows_of(r@) == rows_of(grid@),
{
    let mut out: Vec<Vec<TileID>> = Vec::new();
    let mut i: usize = 0;
    while i < grid.len()
        invariant
            i <= grid@.len(),
            out@.len() == i,
            forall|k: int| 0 <= k < i ==> #[trigger] out@[k]@ == grid@[k]@,
        decreases grid@.len() - i,
    {
        let mut row: Vec<TileID> = Vec::new();
        let mut j: usize = 0;
        while j < grid[i].len()
            invariant
                i < grid@.len(),
                j <= grid@[i as int]@.len(),
                row@ == grid@[i as int]@.take(j as int),
            decreases grid@[i as int]@.len() - j,
        {
            row.push(grid[i][j]);
            j += 1;
            assert(row@ =~= grid@[i as int]@.take(j as int));
        }
        assert(row@ =~= grid@[i as int]@);
        out.push(row);
        i += 1;
    }
    assert(rows_of(out@) =~= rows_of(grid@));
    out
}

/// A grid of `height` rows of `width` copies of `tile`.
pub open spec fn filled_grid(width: nat, height: nat, tile: TileID) -> Seq<Seq<TileID>> {
    Seq::new(height, |y: int| Seq::new(width, |x: int| tile))
}

/// An instance of a level: its tile map, the entities that belong to it, where
/// entities stand on it, and the data that its scripts keep (of type `V`).
pub struct LevelInst<V> {
    level: Rc<Level>,
    tile_map: Vec<Vec<TileID>>,
    local_instances: HashMap<u64, EntityInst<V>>,
    instance_locs: HashMap<u64, Coord>,
    data: V,
}

impl<V> LevelInst<V> {
    /// The level kind.
    pub closed spec fn kind(&self) -> Rc<Level> {
        self.level
    }

    /// The tile map, by row.
    pub closed spec fn tiles(&self) -> Seq<Seq<TileID>> {
        rows_of(self.tile_map@)
    }

    /// The entities that belong to the level, by identifier.
    pub closed spec fn entities(&self) -> Map<u64, EntityInst<V>> {
        self.local_instances@
    }

    /// Where entities stand on the level, by identifier.
    pub closed spec fn locations(&self) -> Map<u64, Coord> {
        self.instance_locs@
    }

    /// The level's data.
    pub closed spec fn data(&self) -> V {
        self.data
    }

    /// The tile map has the level kind's number of rows, all of its width.
    pub open spec fn wf(&self) -> bool {
        &&& self.tiles().len() == self.kind().height()
        &&& forall|y: int| 0 <= y < self.tiles().len() ==> #[trigger] self.tiles()[y].len()
            == self.kind().width()
    }

    /// A fresh instance of `level`: every tile is the default tile, no
    /// entities, `data` as its data.
    pub fn new(level: Rc<Level>, data: V) -> (r: LevelInst<V>)
        ensures
            r.wf(),
            r.kind() == level,
            r.tiles() == filled_grid(
                level.width() as nat,
                level.height() as nat,
                level.tiles().default_id(),
            ),
            r.entities() == Map::<u64, EntityInst<V>>::empty(),
            r.locations() == Map::<u64, Coord>::empty(),
            r.data() == data,
    {
        let default = level.tile_info.get_default();
        let mut grid: Vec<Vec<TileID>> = Vec::new();
        let mut i: usize = 0;
        while i < level.y
            invariant
                i <= level.height(),
                grid@.len() == i,
                forall|k: int| 0 <= k < i ==> #[trigger] grid@[k]@ == Seq::new(level.width() as nat, |x: int| default),
            decreases level.height() - i,
        {
            let mut row: Vec<TileID> = Vec::new();
            let mut j: usize = 0;
            while j < level.x
                invariant
                    j <= level.width(),
                    row@ == Seq::new(j as nat, |x: int| default),
                decreases level.width() - j,
            {
                row.push(default);
                j += 1;
                assert(row@ =~= Seq::new(j as nat, |x: int| default));
            }
            grid.push(row);
            i += 1;
        }
        let r = LevelInst {
            level: level,
            tile_map: grid,
            local_instances: HashMap::new(),
            instance_locs: HashMap::new(),
            data: data,
        };
        assert(r.tiles() =~= filled_grid(level.width() as nat, level.height() as nat, default));
        r
    }

    /// The level kind.
    pub fn level(&self) -> (r: &Rc<Level>)
        ensures
            *r == self.kind(),
    {
        &self.level
    }

    /// The number of columns of the level.
    pub fn x_size(&self) -> (r: usize)
        ensures
            r == self.kind().width(),
    {
        self.level.x_size()
    }

    /// The number of rows of the level.
    pub fn y_size(&self) -> (r: usize)
        ensures
            r == self.kind().height(),
    {
        self.level.y_size()
    }

    /// The identifier of the tile kind named `tile_name` in the level's tile
    /// set.
    pub fn get_tile_id(&self, tile_name: &str) -> (r: Option<TileID>)
        ensures
            r == (if self.kind().tiles().names().contains_key(tile_name@) {
                Some(self.kind().tiles().names()[tile_name@])
            } else {
                None
            }),
    {
        self.level.tile_info.get_id(tile_name)
    }

    /// The tile at `loc`, if `loc` lies on the map.
    pub fn tile_at(&self, loc: Coord) -> (r: Option<TileID>)
        ensures
            r == (if loc.1 < self.tiles().len() && loc.0 < self.tiles()[loc.1 as int].len() {
                Some(self.tiles()[loc.1 as int][loc.0 as int])
            } else {
                None
            }),
    {
        if loc.1 < self.tile_map.len() && loc.0 < self.tile_map[loc.1].len() {
            Some(self.tile_map[loc.1][loc.0])
        } else {
            None
        }
    }

    /// Puts `tile` at `loc`; `false`, and no change, when `loc` is off the
    /// map.
    pub fn set_tile(&mut self, tile: TileID, loc: Coord) -> (r: bool)
        requires
            old(self).wf(),
        ensures
            final(self).wf(),
            r == on_map(old(self).tiles(), loc),
            r ==> final(self).tiles() == old(self).tiles().update(
                loc.1 as int,
                old(self).tiles()[loc.1 as int].update(loc.0 as int, tile),
            ),
            !r ==> final(self).tiles() == old(self).tiles(),
            final(self).kind() == old(self).kind(),
            final(self).entities() == old(self).entities(),
            final(self).locations() == old(self).locations(),
            final(self).data() == old(self).data(),
    {
        let (x, y) = loc;
        if y >= self.tile_map.len() {
            false
        } else if x >= self.tile_map[0].len() {
            false
        } else {
            assert(old(self).tiles()[0].len() == old(self).kind().width());
            assert(old(self).tiles()[y as int].len() == old(self).kind().width());
            let mut row: Vec<TileID> = Vec::new();
            self.tile_map.set_and_swap(y, &mut row);
            assert(row@ == old(self).tiles()[y as int]);
            row.set(x, tile);
            self.tile_map.set_and_swap(y, &mut row);
            assert(self.tiles() =~= old(self).tiles().update(
                y as int,
                old(self).tiles()[y as int].update(x as int, tile),
            ));
            true
        }
    }

    /// Puts `tile` at each position of the map from column `x0` up to, not
    /// including, `x_end` and from row `y0` up to, not including, `y_end`.
    pub fn fill_rect(&mut self, tile: TileID, x0: usize, x_end: usize, y0: usize, y_end: usize)
        requires
            old(self).wf(),
        ensures
            final(self).wf(),
            final(self).tiles() == painted(
                old(self).tiles(),
                tile,
                |x: int, y: int| x0 <= x < x_end && y0 <= y < y_end,
            ),
            final(self).kind() == old(self).kind(),
            final(self).entities() == old(self).entities(),
            final(self).locations() == old(self).locations(),
            final(self).data() == old(self).data(),
    {
        let ghost orig = self.tiles();
        let h = self.tile_map.len();
        let mut y = y0;
        assert(orig =~~= painted(
            orig,
            tile,
            |x: int, yy: int| x0 <= x < x_end && y0 <= yy < y_end && yy < y,
        ));
        while y < y_end && y < h
            invariant
                self.wf(),
                h == orig.len(),
                y0 <= y,
                self.tiles() == painted(
                    orig,
                    tile,
                    |x: int, yy: int| x0 <= x < x_end && y0 <= yy < y_end && yy < y,
                ),
                self.kind() == old(self).kind(),
                self.entities() == old(self).entities(),
                self.locations() == old(self).locations(),
                self.data() == old(self).data(),
            decreases h - y,
        {
            let mut x = x0;
            let w = self.tile_map[0].len();
            assert(self.tiles()[0].len() == self.kind().width());
            assert(self.tiles() =~~= painted(
                orig,
                tile,
                |xx: int, yy: int|
                    x0 <= xx < x_end && y0 <= yy < y_end && (yy < y || (yy == y && xx < x)),
            ));
            while x < x_end && x < w
                invariant
                    self.wf(),
                    h == orig.len(),
                    y0 <= y < h,
                    y < y_end,
                    x0 <= x,
                    w == self.kind().width(),
                    self.tiles() == painted(
                        orig,
                        tile,
                        |xx: int, yy: int|
                            x0 <= xx < x_end && y0 <= yy < y_end && (yy < y || (yy == y && xx < x)),
                    ),
                    self.kind() == old(self).kind(),
                    self.entities() == old(self).entities(),
                    self.locations() == old(self).locations(),
                    self.data() == old(self).data(),
                decreases w - x,
            {
                self.set_tile(tile, (x, y));
                x += 1;
                assert(self.tiles() =~~= painted(
                    orig,
                    tile,
                    |xx: int, yy: int|
                        x0 <= xx < x_end && y0 <= yy < y_end && (yy < y || (yy == y && xx < x)),
                ));
            }
            assert forall|yy: int| 0 <= yy < h implies #[trigger] orig[yy].len() == w by {
                assert(self.tiles()[yy].len() == self.kind().width());
            }
            y += 1;
            assert(self.tiles() =~~= painted(
                orig,
                tile,
                |x: int, yy: int| x0 <= x < x_end && y0 <= yy < y_end && yy < y,
            ));
        }
        assert(self.tiles() =~~= painted(
            orig,
            tile,
            |x: int, y: int| x0 <= x < x_end && y0 <= y < y_end,
        ));
    }

    /// Puts `tile` at each position of column `x` from row `y_from` to row
    /// `y_to`, both included.
    pub fn paint_column(&mut self, tile: TileID, x: usize, y_from: usize, y_to: usize)
        requires
            old(self).wf(),
        ensures
            final(self).wf(),
            final(self).tiles() == painted(
                old(self).tiles(),
                tile,
                |xx: int, y: int| xx == x && y_from <= y <= y_to,
            ),
            final(self).kind() == old(self).kind(),
            final(self).entities() == old(self).entities(),
            final(self).locations() == old(self).locations(),
            final(self).data() == old(self).data(),
    {
        let ghost orig = self.tiles();
        let h = self.tile_map.len();
        let mut y = y_from;
        assert(orig =~~= painted(orig, tile, |xx: int, yy: int| xx == x && y_from <= yy <= y_to && yy < y));
        while y <= y_to && y < h
            invariant
                self.wf(),
                h == orig.len(),
                y_from <= y,
                self.tiles() == painted(
                    orig,
                    tile,
                    |xx: int, yy: int| xx == x && y_from <= yy <= y_to && yy < y,
                ),
                self.kind() == old(self).kind(),
                self.entities() == old(self).entities(),
                self.locations() == old(self).locations(),
                self.data() == old(self).data(),
            decreases h - y,
        {
            assert(self.tiles()[0].len() == self.kind().width());
            assert forall|yy: int| 0 <= yy < h implies #[trigger] orig[yy].len() == self.kind().width() by {
                assert(self.tiles()[yy].len() == self.kind().width());
            }
            self.set_tile(tile, (x, y));
            y += 1;
            assert(self.tiles() =~~= painted(
                orig,
                tile,
                |xx: int, yy: int| xx == x && y_from <= yy <= y_to && yy < y,
            ));
        }
        assert(self.tiles() =~~= painted(orig, tile, |xx: int, yy: int| xx == x && y_from <= yy <= y_to));
    }

    /// Makes entity `id` belong to the level.
    pub fn add_instance(&mut self, id: u64, instance: EntityInst<V>)
        ensures
            final(self).entities() == old(self).entities().insert(id, instance),
            final(self).kind() == old(self).kind(),
            final(self).tiles() == old(self).tiles(),
            final(self).locations() == old(self).locations(),
            final(self).data() == old(self).data(),
    {
        self.local_instances.insert(id, instance);
    }

    /// Removes entity `id` from the level's entities, handing it back.
    pub fn remove_instance(&mut self, id: u64) -> (r: Option<EntityInst<V>>)
        ensures
            final(self).entities() == old(self).entities().remove(id),
            r == (if old(self).entities().contains_key(id) {
                Some(old(self).entities()[id])
            } else {
                None
            }),
            final(self).kind() == old(self).kind(),
            final(self).tiles() == old(self).tiles(),
            final(self).locations() == old(self).locations(),
            final(self).data() == old(self).data(),
    {
        self.local_instances.remove(&id)
    }

    /// Places entity `id` at `loc`: `true` when `loc` lies on the map and its
    /// tile does not block movement, `false`, and no change, otherwise.
    pub fn spawn_instance(&mut self, id: u64, loc: Coord) -> (r: bool)
        requires
            old(self).wf(),
            on_map(old(self).tiles(), loc) ==> old(self).kind().tiles().items().contains_key(
                old(self).tiles()[loc.1 as int][loc.0 as int],
            ),
        ensures
            r == (on_map(old(self).tiles(), loc) && !old(self).kind().tiles().items()[old(
                self,
            ).tiles()[loc.1 as int][loc.0 as int]].collide),
            r ==> final(self).locations() == old(self).locations().insert(id, loc),
            !r ==> final(self).locations() == old(self).locations(),
            final(self).kind() == old(self).kind(),
            final(self).tiles() == old(self).tiles(),
            final(self).entities() == old(self).entities(),
            final(self).data() == old(self).data(),
    {
        let (x, y) = loc;
        if y >= self.tile_map.len() {
            false
        } else if x >= self.tile_map[0].len() {
            false
        } else if self.level.tile_info.get_item(self.tile_map[y][x]).unwrap().collide {
            false
        } else {
            self.instance_locs.insert(id, loc);
            true
        }
    }

    /// Takes entity `id` off the map; `true` when it stood on it.
    pub fn despawn_instance(&mut self, id: u64) -> (r: bool)
        ensures
            r == old(self).locations().contains_key(id),
            final(self).locations() == old(self).locations().remove(id),
            final(self).kind() == old(self).kind(),
            final(self).tiles() == old(self).tiles(),
            final(self).entities() == old(self).entities(),
            final(self).data() == old(self).data(),
    {
        self.instance_locs.remove(&id).is_some()
    }

    /// An entity that stands at `loc`, if any does.
    pub fn instance_at(&self, loc: Coord) -> (r: Option<u64>)
        ensures
            r matches Some(id) ==> self.locations().contains_key(id) && self.locations()[id] == loc,
            r is None ==> forall|id: u64| #[trigger]
                self.locations().contains_key(id) ==> self.locations()[id] != loc,
    {
        let ghost m = self.instance_locs@;
        for (k, v) in it: self.instance_locs.iter()
            invariant
                m == self.instance_locs@,
                forall|j: int| 0 <= j < it.index() ==> *it.seq()[j].1 != loc,
        {
            if v.0 == loc.0 && v.1 == loc.1 {
                return Some(*k);
            }
        }
        None
    }

    /// Whether the tile at `loc`, when `loc` lies on the map, is a kind of
    /// the level's tile set.
    pub fn tile_kind_known_at(&self, loc: Coord) -> (r: bool)
        requires
            self.wf(),
        ensures
            r == (on_map(self.tiles(), loc) ==> self.kind().tiles().items().contains_key(
                self.tiles()[loc.1 as int][loc.0 as int],
            )),
    {
        let (x, y) = loc;
        if y >= self.tile_map.len() || x >= self.tile_map[0].len() {
            true
        } else {
            assert(self.tiles()[0].len() == self.kind().width());
            assert(self.tiles()[y as int].len() == self.kind().width());
            self.level.tile_info.get_item(self.tile_map[y][x]).is_some()
        }
    }

    /// Whether each entity on the map belongs to the level or is among
    /// `glob_instances`.
    pub fn locations_known(&self, glob_instances: &HashMap<u64, EntityInst<V>>) -> (r: bool)
        ensures
            r == forall|id: u64| #[trigger]
                self.locations().contains_key(id) ==> self.entities().contains_key(id)
                    || glob_instances@.contains_key(id),
    {
        let ghost m = self.instance_locs@;
        for (k, v) in it: self.instance_locs.iter()
            invariant
                m == self.instance_locs@,
                forall|j: int|
                    0 <= j < it.index() ==> self.entities().contains_key(*it.seq()[j].0)
                        || glob_instances@.contains_key(*it.seq()[j].0),
        {
            if !(self.local_instances.contains_key(k) || glob_instances.contains_key(k)) {
                assert(self.locations().contains_key(*k));
                return false;
            }
        }
        true
    }

    /// Whether entity `id` belongs to the level.
    pub fn has_entity(&self, id: u64) -> (r: bool)
        ensures
            r == self.entities().contains_key(id),
    {
        self.local_instances.contains_key(&id)
    }

    /// Where entity `id` stands.
    pub fn location_of(&self, id: u64) -> (r: Option<Coord>)
        ensures
            r == (if self.locations().contains_key(id) {
                Some(self.locations()[id])
            } else {
                None
            }),
    {
        match self.instance_locs.get(&id) {
            Some(i) => Some(*i),
            None => None,
        }
    }

    /// Replaces the level's data.
    pub fn set_data(&mut self, data: V)
        ensures
            final(self).data() == data,
            final(self).kind() == old(self).kind(),
            final(self).tiles() == old(self).tiles(),
            final(self).entities() == old(self).entities(),
            final(self).locations() == old(self).locations(),
    {
        self.data = data;
    }

    /// The level's data, cloned.
    pub fn get_data(&self) -> (r: V) where V: Clone
        ensures
            cloned(self.data(), r),
    {
        self.data.clone()
    }

    /// The data of entity `id`, cloned.
    pub fn get_entity_data(&self, id: u64) -> (r: V) where V: Clone
        requires
            self.entities().contains_key(id),
        ensures
            cloned(self.entities()[id].data(), r),
    {
        self.local_instances.get(&id).unwrap().get_data()
    }

    /// Replaces the data of entity `id`.
    pub fn set_entity_data(&mut self, id: u64, val: V)
        requires
            old(self).entities().contains_key(id),
        ensures
            final(self).entities() == old(self).entities().insert(id, old(self).entities()[id].with_data(val)),
            final(self).kind() == old(self).kind(),
            final(self).tiles() == old(self).tiles(),
            final(self).locations() == old(self).locations(),
            final(self).data() == old(self).data(),
    {
        let mut e = self.local_instances.remove(&id).unwrap();
        e.set_data(val);
        self.local_instances.insert(id, e);
        assert(self.entities() =~= old(self).entities().insert(id, old(self).entities()[id].with_data(val)));
    }

    /// The name of the kind of entity `id`.
    pub fn get_entity_name(&self, id: u64) -> (r: String)
        requires
            self.entities().contains_key(id),
        ensures
            r@ == self.entities()[id].name(),
    {
        self.local_instances.get(&id).unwrap().get_name()
    }

    /// The map data that the renderer needs for this level: its tile set, its
    /// tile map, then a sprite for each entity that stands on it, drawn as the
    /// entity of the level, or else the global entity, with that identifier.
    /// The sprites come in the order in which the location table is walked.
    pub fn send_text_map_data(&self, glob_instances: &HashMap<u64, EntityInst<V>>) -> (r: Vec<
        MapCommand,
    >)
        requires
            forall|id: u64| #[trigger]
                self.locations().contains_key(id) ==> self.entities().contains_key(id)
                    || glob_instances@.contains_key(id),
        ensures
            is_map_data(*self, glob_instances@, r@),
    {
        let mut out: Vec<MapCommand> = Vec::new();
        out.push(MapCommand::TileInfo(self.level.tile_info.clone()));
        out.push(MapCommand::TileData(copy_grid(&self.tile_map)));
        let ghost mm = self.instance_locs@;
        let ghost mut order: Seq<u64> = Seq::empty();
        for (k, v) in it: self.instance_locs.iter()
            invariant
                mm == self.instance_locs@,
                forall|id: u64| #[trigger]
                    self.locations().contains_key(id) ==> self.entities().contains_key(id)
                        || glob_instances@.contains_key(id),
                forall|k: u64| #[trigger] mm.contains_key(k) ==> it.seq().contains((&k, &mm[k])),
                it.seq().no_duplicates(),
                forall|j: int|
                    0 <= j < it.seq().len() ==> mm.contains_key(*#[trigger] it.seq()[j].0) && mm[*it.seq()[j].0]
                        == *it.seq()[j].1,
                order.len() == it.index(),
                order.no_duplicates(),
                forall|k: u64| #[trigger]
                    mm.contains_key(k) ==> order.contains(k) || exists|j: int|
                        it.index() <= j < it.seq().len() && *it.seq()[j].0 == k,
                out@.len() == 2 + it.index(),
                out@[0] == MapCommand::TileInfo(self.kind().tiles()),
                out@[1] matches MapCommand::TileData(td) && rows_of(td@) == self.tiles(),
                forall|j: int| 0 <= j < it.index() ==> order[j] == *#[trigger] it.seq()[j].0,
                forall|j: int|
                    0 <= j < order.len() ==> {
                        &&& mm.contains_key(#[trigger] order[j])
                        &&& out@[2 + j] matches MapCommand::Sprite(c, t) && c == mm[order[j]] && t@
                            == sprite_tile(self.entities(), glob_instances@, order[j])@
                    },
        {
            proof {
                let ghost idx = it.index();
                assert(*k == *it.seq()[idx].0 && *v == *it.seq()[idx].1);
                assert(mm.contains_key(*k) && mm[*k] == *v);
                assert(self.locations().contains_key(*k));
            }
            let tile = match self.local_instances.get(k) {
                Some(e) => e.get_tile(),
                None => glob_instances.get(k).unwrap().get_tile(),
            };
            out.push(MapCommand::Sprite(*v, tile));
            proof {
                let ghost idx = it.index();
                let ghost old_order = order;
                assert forall|j: int| 0 <= j < order.len() implies order[j] != *k by {
                    assert(order[j] == *it.seq()[j].0);
                    assert(it.seq()[j] != it.seq()[idx]);
                }
                order = order.push(*k);
                assert forall|kk: u64| #[trigger] mm.contains_key(kk) implies order.contains(kk)
                    || exists|j: int| idx + 1 <= j < it.seq().len() && *it.seq()[j].0 == kk by {
                    if kk == *k {
                        assert(order[order.len() - 1] == kk);
                    } else if old_order.contains(kk) {
                        let i = choose|i: int| 0 <= i < old_order.len() && old_order[i] == kk;
                        assert(order[i] == kk);
                    } else {
                        let j = choose|j: int| idx <= j < it.seq().len() && *it.seq()[j].0 == kk;
                        assert(j != idx);
                    }
                }
            }
        }
        assert(order.len() == self.locations().dom().len());
        assert(forall|id: u64| #[trigger] self.locations().contains_key(id) ==> order.contains(id));
        out
    }

    /// A copy of the instance whose data is a clone.
    pub fn duplicate(&self) -> (r: LevelInst<V>) where V: Clone
        requires
            self.wf(),
        ensures
            r.wf(),
            r.kind() == self.kind(),
            r.tiles() == self.tiles(),
            r.locations() == self.locations(),
            r.entities() == self.entities(),
            cloned(self.data(), r.data()),
    {
        LevelInst {
            level: self.level.clone(),
            tile_map: copy_grid(&self.tile_map),
            local_instances: self.local_instances.clone(),
            instance_locs: self.instance_locs.clone(),
            data: self.data.clone(),
        }
    }
}

/// Whether `r` is the map data of level `l`: its tile set, its tile map, then
/// a sprite for each entity that stands on it, each once, in some order.
pub open spec fn is_map_data<V>(l: LevelInst<V>, glob: Map<u64, EntityInst<V>>, r: Seq<MapCommand>) -> bool {
    &&& r.len() == 2 + l.locations().dom().len()
    &&& r[0] == MapCommand::TileInfo(l.kind().tiles())
    &&& r[1] matches MapCommand::TileData(td) && rows_of(td@) == l.tiles()
    &&& exists|order: Seq<u64>|
        {
            &&& order.len() == l.locations().dom().len()
            &&& order.no_duplicates()
            &&& forall|id: u64| #[trigger] l.locations().contains_key(id) ==> order.contains(id)
            &&& forall|i: int|
                0 <= i < order.len() ==> {
                    &&& l.locations().contains_key(#[trigger] order[i])
                    &&& r[2 + i] matches MapCommand::Sprite(c, t) && c == l.locations()[order[i]]
                        && t@ == sprite_tile(l.entities(), glob, order[i])@
                }
        }
}

/// `tiles` with `tile` put at each position `(x, y)` of the grid that `covers`
/// holds of.
pub open spec fn painted(tiles: Seq<Seq<TileID>>, tile: TileID, covers: spec_fn(int, int) -> bool) -> Seq<
    Seq<TileID>,
> {
    Seq::new(
        tiles.len(),
        |y: int|
            Seq::new(
                tiles[y].len(),
                |x: int|
                    if covers(x, y) {
                        tile
                    } else {
                        tiles[y][x]
                    },
            ),
    )
}

/// How the sprite of entity `id` is drawn: as the level's entity with that
/// identifier, or else as the global one.
pub open spec fn sprite_tile<V>(
    local: Map<u64, EntityInst<V>>,
    glob: Map<u64, EntityInst<V>>,
    id: u64,
) -> TextItem {
    if local.contains_key(id) {
        local[id].tile()
    } else {
        glob[id].tile()
    }
}

/// Whether `loc` lies on a map whose rows are all as wide as the first one.
pub open spec fn on_map(tiles: Seq<Seq<TileID>>, loc: Coord) -> bool {
    loc.1 < tiles.len() && loc.0 < tiles[0].len()
}

/// A tile put on the map reads back at its position, and every other
/// position keeps its tile.
pub proof fn law_tile_read_after_write<V>(before: LevelInst<V>, after: LevelInst<V>, tile: TileID, loc: Coord)
    requires
        before.wf(),
        on_map(before.tiles(), loc),
        after.tiles() == before.tiles().update(
            loc.1 as int,
            before.tiles()[loc.1 as int].update(loc.0 as int, tile),
        ),
    ensures
        after.tiles()[loc.1 as int][loc.0 as int] == tile,
        forall|x: int, y: int|
            0 <= y < before.tiles().len() && 0 <= x < before.tiles()[y].len() && (x != loc.0 || y
                != loc.1) ==> #[trigger] after.tiles()[y][x] == before.tiles()[y][x],
{
    assert(before.tiles()[loc.1 as int].len() == before.kind().width());
}

/// An entity placed on the map is found where it was placed, by its
/// identifier and by its position.
pub proof fn law_located_after_spawn<V>(after: LevelInst<V>, before: LevelInst<V>, id: u64, loc: Coord)
    requires
        after.locations() == before.locations().insert(id, loc),
    ensures
        after.locations().contains_key(id),
        after.locations()[id] == loc,
        exists|e: u64| #[trigger] after.locations().contains_key(e) && after.locations()[e] == loc,
{
    assert(after.locations().contains_key(id) && after.locations()[id] == loc);
}

/// An entity taken off the map is nowhere on it, and the others stay where
/// they were.
pub proof fn law_gone_after_despawn<V>(after: LevelInst<V>, before: LevelInst<V>, id: u64)
    requires
        after.locations() == before.locations().remove(id),
    ensures
        !after.locations().contains_key(id),
        forall|e: u64|
            e != id && #[trigger] before.locations().contains_key(e) ==> after.locations().contains_key(e)
                && after.locations()[e] == before.locations()[e],
{
}

/// Taking off the map an entity that was just placed on it, where it was
/// not before, gives back the locations as they were.
pub proof fn law_despawn_undoes_spawn(locations: Map<u64, Coord>, id: u64, loc: Coord)
    requires
        !locations.contains_key(id),
    ensures
        locations.insert(id, loc).remove(id) == locations,
{
    assert(locations.insert(id, loc).remove(id) =~= locations);
}

} // verus!
