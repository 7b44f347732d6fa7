//! The level map as the renderer sees it: the tiles of the active level, the
//! part of it that is revealed, the sprites of the entities on it, and the map
//! coordinate shown at the top left of the map area.

use std::rc::Rc;
use vstd::prelude::*;
use crate::Coord;
use crate::textitem::{TextItem, item_char};
use crate::tile::{TileInfo, TileID};

verus! {

/// Commands that the engine and the scripts send to the map renderer.
pub enum MapCommand {
    /// A level of the given width and height was made active: all of it is
    /// revealed.
    NewLevel(usize, usize),
    /// The map coordinate to show at the top left of the map area.
    Display(Coord),
    /// Reveals (`true`) or hides (`false`) the tiles from the first coordinate
    /// up to, not including, the second.
    SetShowArea(Coord, Coord, bool),
    /// The tile set of the active level.
    TileInfo(Rc<TileInfo>),
    /// The tiles of the active level, by row.
    TileData(Vec<Vec<TileID>>),
    /// An entity drawn at a map coordinate.
    Sprite(Coord, TextItem),
}

/// What the map renderer holds.
pub ghost struct MapModel {
    pub top_left: Coord,
    pub show_area: Seq<Seq<bool>>,
    pub tile_info: Rc<TileInfo>,
    pub tile_data: Seq<Seq<TileID>>,
    pub sprites: Seq<(Coord, TextItem)>,
}

/// The rows of a grid, each by its contents.
pub open spec fn rows_of<T>(rows: Seq<Vec<T>>) -> Seq<Seq<T>> {
    Seq::new(rows.len(), |i: int| rows[i]@)
}

/// `area` with the cells from `tl` up to, not including, `br` set to `v`.
pub open spec fn area_set(area: Seq<Seq<bool>>, tl: Coord, br: Coord, v: bool) -> Seq<Seq<bool>> {
    Seq::new(
        area.len(),
        |y: int|
            Seq::new(
                area[y].len(),
                |x: int|
                    if tl.1 <= y < br.1 && tl.0 <= x < br.0 {
                        v
                    } else {
                        area[y][x]
                    },
            ),
    )
}

/// Whether the cells from `tl` up to `br` lie within `area`.
pub open spec fn area_covers(area: Seq<Seq<bool>>, tl: Coord, br: Coord) -> bool {
    &&& tl.1 <= br.1 <= area.len()
    &&& forall|y: int| tl.1 <= y < br.1 ==> tl.0 <= br.0 <= #[trigger] area[y].len()
}

/// Whether a command can be applied to the map without panicking.
pub open spec fn map_command_ok(m: MapModel, cmd: MapCommand) -> bool {
    match cmd {
        MapCommand::SetShowArea(tl, br, _) => area_covers(m.show_area, tl, br),
        _ => true,
    }
}

/// The map after one command.
pub open spec fn map_step(m: MapModel, cmd: MapCommand) -> MapModel {
    match cmd {
        MapCommand::NewLevel(x, y) => MapModel {
            show_area: Seq::new(y as nat, |i: int| Seq::new(x as nat, |j: int| true)),
            ..m
        },
        MapCommand::Display(tl) => MapModel { top_left: tl, ..m },
        MapCommand::SetShowArea(tl, br, v) => MapModel {
            show_area: area_set(m.show_area, tl, br, v),
            ..m
        },
        MapCommand::TileInfo(ti) => MapModel { tile_info: ti, ..m },
        MapCommand::TileData(td) => MapModel { tile_data: rows_of(td@), ..m },
        MapCommand::Sprite(c, t) => MapModel { sprites: m.sprites.push((c, t)), ..m },
    }
}

/// Whether a list of commands can be applied in order without panicking.
pub open spec fn map_commands_ok(m: MapModel, cmds: Seq<MapCommand>) -> bool
    decreases cmds.len(),
{
    cmds.len() == 0 || (map_command_ok(m, cmds[0]) && map_commands_ok(
        map_step(m, cmds[0]),
        cmds.drop_first(),
    ))
}

/// The map after a list of commands, applied in order.
pub open spec fn map_steps(m: MapModel, cmds: Seq<MapCommand>) -> MapModel
    decreases cmds.len(),
{
    if cmds.len() == 0 {
        m
    } else {
        map_steps(map_step(m, cmds[0]), cmds.drop_first())
    }
}

/// A character drawn at a screen position: `(row, column, character)`.
pub type Cell = (usize, usize, char);

/// The last map row plus one that the map area shows.
pub open spec fn y_bound(m: MapModel, tl: Coord, br: Coord) -> int {
    (br.1 - tl.1) + m.top_left.1
}

/// The last map column plus one that the map area shows.
pub open spec fn x_bound(m: MapModel, tl: Coord, br: Coord) -> int {
    (br.0 - tl.0) + m.top_left.0
}

/// The map rows that are drawn end before this one.
pub open spec fn rows_end(m: MapModel, tl: Coord, br: Coord) -> int {
    if y_bound(m, tl, br) < m.tile_data.len() {
        y_bound(m, tl, br)
    } else {
        m.tile_data.len() as int
    }
}

/// The map columns of row `y` that are drawn end before this one.
pub open spec fn row_end(m: MapModel, tl: Coord, br: Coord, y: int) -> int {
    if x_bound(m, tl, br) < m.tile_data[y].len() {
        x_bound(m, tl, br)
    } else {
        m.tile_data[y].len() as int
    }
}

/// Whether the tile at `(x, y)` is visited when the map is drawn.
pub open spec fn in_grid(m: MapModel, tl: Coord, br: Coord, y: int, x: int) -> bool {
    m.top_left.1 <= y < rows_end(m, tl, br) && m.top_left.0 <= x < row_end(m, tl, br, y)
}

/// Whether the tile at `(x, y)` can be drawn without panicking.
pub open spec fn grid_cell_ok(m: MapModel, tl: Coord, y: int, x: int) -> bool {
    &&& y < m.show_area.len()
    &&& x < m.show_area[y].len()
    &&& m.show_area[y][x] ==> m.tile_info.items().contains_key(m.tile_data[y][x])
}

/// The character drawn for the tile at `(x, y)`.
pub open spec fn tile_char(m: MapModel, y: int, x: int) -> char {
    if m.show_area[y][x] {
        item_char(m.tile_info.items()[m.tile_data[y][x]].text.text@)
    } else {
        ' '
    }
}

/// What is drawn for the tile at `(x, y)`: its character at the top left of
/// the area moved by how far `(x, y)` lies from the map coordinate shown at
/// the top left.
pub open spec fn grid_cell(m: MapModel, tl: Coord, br: Coord, y: int, x: int) -> Seq<Cell> {
    seq![((tl.1 + y - m.top_left.1) as usize, (tl.0 + x - m.top_left.0) as usize, tile_char(m, y, x))]
}

/// What is drawn for row `y`, for the columns before `x_end`.
pub open spec fn row_cells(m: MapModel, tl: Coord, br: Coord, y: int, x_end: int) -> Seq<Cell>
    decreases x_end - m.top_left.0,
{
    if x_end <= m.top_left.0 {
        seq![]
    } else {
        row_cells(m, tl, br, y, x_end - 1) + grid_cell(m, tl, br, y, x_end - 1)
    }
}

/// What is drawn for the rows before `y_end`.
pub open spec fn grid_cells(m: MapModel, tl: Coord, br: Coord, y_end: int) -> Seq<Cell>
    decreases y_end - m.top_left.1,
{
    if y_end <= m.top_left.1 {
        seq![]
    } else {
        grid_cells(m, tl, br, y_end - 1) + row_cells(
            m,
            tl,
            br,
            y_end - 1,
            row_end(m, tl, br, y_end - 1),
        )
    }
}

/// Whether a sprite at `c` lies in the part of the map that is shown.
pub open spec fn sprite_shown(m: MapModel, tl: Coord, br: Coord, c: Coord) -> bool {
    m.top_left.0 <= c.0 < x_bound(m, tl, br) && m.top_left.1 <= c.1 < y_bound(m, tl, br)
}

/// Whether a sprite at `c` can be drawn without panicking.
pub open spec fn sprite_ok(m: MapModel, tl: Coord, c: Coord) -> bool {
    &&& c.1 < m.show_area.len()
    &&& c.0 < m.show_area[c.1 as int].len()
}

/// What is drawn for a sprite.
pub open spec fn sprite_cell(m: MapModel, tl: Coord, br: Coord, s: (Coord, TextItem)) -> Seq<Cell> {
    let c = s.0;
    if sprite_shown(m, tl, br, c) {
        let ch = if m.show_area[c.1 as int][c.0 as int] {
            item_char(s.1.text@)
        } else {
            ' '
        };
        seq![((tl.1 + c.1 - m.top_left.1) as usize, (tl.0 + c.0 - m.top_left.0) as usize, ch)]
    } else {
        seq![]
    }
}

/// What is drawn for the first `k` sprites.
pub open spec fn sprite_cells(m: MapModel, tl: Coord, br: Coord, k: int) -> Seq<Cell>
    decreases k,
{
    if k <= 0 {
        seq![]
    } else {
        sprite_cells(m, tl, br, k - 1) + sprite_cell(m, tl, br, m.sprites[k - 1])
    }
}

/// Whether the map can be drawn between `tl` and `br` without panicking.
pub open spec fn render_ok(m: MapModel, tl: Coord, br: Coord) -> bool {
    &&& tl.0 <= br.0
    &&& tl.1 <= br.1
    &&& x_bound(m, tl, br) <= usize::MAX
    &&& y_bound(m, tl, br) <= usize::MAX
    &&& forall|y: int, x: int| in_grid(m, tl, br, y, x) ==> #[trigger] grid_cell_ok(m, tl, y, x)
    &&& forall|k: int|
        0 <= k < m.sprites.len() && sprite_shown(m, tl, br, m.sprites[k].0) ==> #[trigger] sprite_ok(
            m,
            tl,
            m.sprites[k].0,
        )
}

/// What is drawn for the map between `tl` and `br`: the shown tiles row by
/// row, then the shown sprites in the order they were sent.
pub open spec fn map_cells(m: MapModel, tl: Coord, br: Coord) -> Seq<Cell> {
    grid_cells(m, tl, br, rows_end(m, tl, br)) + sprite_cells(m, tl, br, m.sprites.len() as int)
}

/// The level map renderer.
pub struct TextMap {
    display_top_left: Coord,
    show_area: Vec<Vec<bool>>,
    tile_info: Rc<TileInfo>,
    tile_data: Vec<Vec<TileID>>,
    instance_data: Vec<(Coord, TextItem)>,
}

/// Sets the cells of `area` from `tl` up to, not including, `br` to `v`.
fn set_area(area: &mut Vec<Vec<bool>>, tl: Coord, br: Coord, v: bool)
    requires
        area_covers(rows_of(old(area)@), tl, br),
    ensures
        rows_of(final(area)@) == area_set(rows_of(old(area)@), tl, br, v),
{
    let ghost orig = rows_of(area@);
    let mut y = tl.1;
    while y < br.1
        invariant
            tl.1 <= y <= br.1,
            area_covers(orig, tl, br),
            area@.len() == orig.len(),
            forall|i: int|
                0 <= i < orig.len() ==> #[trigger] area@[i]@ == (if tl.1 <= i < y {
                    area_set(orig, tl, br, v)[i]
                } else {
                    orig[i]
                }),
        decreases br.1 - y,
    {
        let mut row: Vec<bool> = Vec::new();
        area.set_and_swap(y, &mut row);
        assert(row@ == orig[y as int]);
        assert(tl.0 <= br.0 <= orig[y as int].len());
        let mut x = tl.0;
        while x < br.0
            invariant
                tl.0 <= x <= br.0,
                tl.1 <= y < br.1,
                br.1 <= orig.len(),
                br.0 <= orig[y as int].len(),
                row@.len() == orig[y as int].len(),
                forall|j: int|
                    0 <= j < row@.len() ==> #[trigger] row@[j] == (if tl.0 <= j < x {
                        v
                    } else {
                        orig[y as int][j]
                    }),
            decreases br.0 - x,
        {
            row.set(x, v);
            x += 1;
        }
        area.set_and_swap(y, &mut row);
        assert(area@[y as int]@ =~= area_set(orig, tl, br, v)[y as int]);
        y += 1;
    }
    assert forall|i: int| 0 <= i < orig.len() implies #[trigger] rows_of(area@)[i] =~= area_set(
        orig,
        tl,
        br,
        v,
    )[i] by {
        if !(tl.1 <= i < br.1) {
            assert(area@[i]@ == orig[i]);
        }
    }
    assert(rows_of(area@) =~= area_set(orig, tl, br, v));
}

impl TextMap {
    /// What the renderer holds.
    pub closed spec fn model(&self) -> MapModel {
        MapModel {
            top_left: self.display_top_left,
            show_area: rows_of(self.show_area@),
            tile_info: self.tile_info,
            tile_data: rows_of(self.tile_data@),
            sprites: self.instance_data@,
        }
    }

    /// A renderer with no level: nothing revealed, no tiles, no sprites, the
    /// top left of the map shown.
    pub fn new() -> (r: TextMap)
        ensures
            r.model().top_left == (0usize, 0usize),
            r.model().show_area == Seq::<Seq<bool>>::empty(),
            r.model().tile_data == Seq::<Seq<TileID>>::empty(),
            r.model().sprites == Seq::<(Coord, TextItem)>::empty(),
            r.model().tile_info.names() == Map::<Seq<char>, TileID>::empty(),
            r.model().tile_info.items() == Map::<TileID, crate::tile::TileItem>::empty(),
    {
        TextMap {
            display_top_left: (0, 0),
            show_area: Vec::new(),
            tile_info: Rc::new(TileInfo::new()),
            tile_data: Vec::new(),
            instance_data: Vec::new(),
        }
    }

    /// The map coordinate shown at the top left of the map area.
    pub fn display_top_left(&self) -> (r: Coord)
        ensures
            r == self.model().top_left,
    {
        self.display_top_left
    }

    /// Whether the tile at `c` is revealed; `None` outside the map.
    pub fn is_shown(&self, c: Coord) -> (r: Option<bool>)
        ensures
            r == (if c.1 < self.model().show_area.len() && c.0 < self.model().show_area[c.1 as int].len() {
                Some(self.model().show_area[c.1 as int][c.0 as int])
            } else {
                None
            }),
    {
        if c.1 < self.show_area.len() && c.0 < self.show_area[c.1].len() {
            Some(self.show_area[c.1][c.0])
        } else {
            None
        }
    }

    /// Whether the tiles of map row `y` that are drawn between `tl` and `br`
    /// can be drawn without panicking.
    fn row_safe(&self, tl: Coord, br: Coord, y: usize, xb: usize) -> (r: bool)
        requires
            xb == x_bound(self.model(), tl, br),
            y < self.model().tile_data.len(),
        ensures
            r == forall|x: int|
                self.model().top_left.0 <= x < row_end(self.model(), tl, br, y as int) ==> #[trigger] grid_cell_ok(
                    self.model(),
                    tl,
                    y as int,
                    x,
                ),
    {
        let ghost m = self.model();
        let len = self.tile_data[y].len();
        let end = if xb < len {
            xb
        } else {
            len
        };
        let mut x = self.display_top_left.0;
        while x < end
            invariant
                m == self.model(),
                end == row_end(m, tl, br, y as int),
                y < m.tile_data.len(),
                m.top_left.0 <= x || end <= x,
                forall|x2: int| m.top_left.0 <= x2 < x ==> #[trigger] grid_cell_ok(m, tl, y as int, x2),
            decreases end - x,
        {
            let ok = y < self.show_area.len() && x < self.show_area[y].len() && (!self.show_area[y][x]
                || self.tile_info.get_item(self.tile_data[y][x]).is_some());
            if !ok {
                assert(!grid_cell_ok(m, tl, y as int, x as int));
                return false;
            }
            x += 1;
        }
        true
    }

    /// Whether the map can be drawn between `top_left` and `bottom_right`
    /// without panicking.
    pub fn render_safe(&self, top_left: Coord, bottom_right: Coord) -> (r: bool)
        ensures
            r == render_ok(self.model(), top_left, bottom_right),
    {
        let ghost m = self.model();
        let tl = top_left;
        let br = bottom_right;
        if tl.0 > br.0 || tl.1 > br.1 {
            return false;
        }
        if br.0 - tl.0 > usize::MAX - self.display_top_left.0 || br.1 - tl.1 > usize::MAX
            - self.display_top_left.1 {
            return false;
        }
        let xb = (br.0 - tl.0) + self.display_top_left.0;
        let yb = (br.1 - tl.1) + self.display_top_left.1;
        let rows = if yb < self.tile_data.len() {
            yb
        } else {
            self.tile_data.len()
        };
        let mut y = self.display_top_left.1;
        while y < rows
            invariant
                m == self.model(),
                tl == top_left,
                br == bottom_right,
                xb == x_bound(m, tl, br),
                rows == rows_end(m, tl, br),
                m.top_left.1 <= y || rows <= y,
                forall|y2: int, x2: int|
                    m.top_left.1 <= y2 < y && in_grid(m, tl, br, y2, x2) ==> #[trigger] grid_cell_ok(
                        m,
                        tl,
                        y2,
                        x2,
                    ),
            decreases rows - y,
        {
            if !self.row_safe(tl, br, y, xb) {
                assert(exists|x2: int|
                    m.top_left.0 <= x2 < row_end(m, tl, br, y as int) && !#[trigger] grid_cell_ok(
                        m,
                        tl,
                        y as int,
                        x2,
                    ));
                return false;
            }
            y += 1;
        }
        assert forall|y2: int, x2: int| in_grid(m, tl, br, y2, x2) implies #[trigger] grid_cell_ok(
            m,
            tl,
            y2,
            x2,
        ) by {
            assert(m.top_left.1 <= y2 < y);
        }
        let mut k: usize = 0;
        while k < self.instance_data.len()
            invariant
                m == self.model(),
                tl == top_left,
                br == bottom_right,
                xb == x_bound(m, tl, br),
                yb == y_bound(m, tl, br),
                k <= m.sprites.len(),
                forall|k2: int|
                    0 <= k2 < k && sprite_shown(m, tl, br, m.sprites[k2].0) ==> #[trigger] sprite_ok(
                        m,
                        tl,
                        m.sprites[k2].0,
                    ),
            decreases m.sprites.len() - k,
        {
            let c = self.instance_data[k].0;
            let shown = self.display_top_left.0 <= c.0 && c.0 < xb && self.display_top_left.1 <= c.1
                && c.1 < yb;
            if shown {
                let ok = c.1 < self.show_area.len() && c.0 < self.show_area[c.1].len();
                if !ok {
                    assert(!sprite_ok(m, tl, m.sprites[k as int].0));
                    return false;
                }
            }
            k += 1;
        }
        true
    }

    /// The number of sprites held.
    pub fn sprite_count(&self) -> (r: usize)
        ensures
            r == self.model().sprites.len(),
    {
        self.instance_data.len()
    }

    fn apply(&mut self, cmd: MapCommand)
        requires
            map_command_ok(old(self).model(), cmd),
        ensures
            final(self).model() == map_step(old(self).model(), cmd),
    {
        match cmd {
            MapCommand::NewLevel(x, y) => {
                let mut area: Vec<Vec<bool>> = Vec::new();
                let mut i: usize = 0;
                while i < y
                    invariant
                        i <= y,
                        area@.len() == i,
                        forall|k: int| 0 <= k < i ==> #[trigger] area@[k]@ == Seq::new(x as nat, |j: int| true),
                    decreases y - i,
                {
                    let mut row: Vec<bool> = Vec::new();
                    let mut j: usize = 0;
                    while j < x
                        invariant
                            j <= x,
                            row@ == Seq::new(j as nat, |k: int| true),
                        decreases x - j,
                    {
                        row.push(true);
                        j += 1;
                        assert(row@ =~= Seq::new(j as nat, |k: int| true));
                    }
                    area.push(row);
                    i += 1;
                }
                self.show_area = area;
                assert(rows_of(self.show_area@) =~= Seq::new(y as nat, |i: int| Seq::new(x as nat, |j: int| true)));
            },
            MapCommand::Display(tl) => {
                self.display_top_left = tl;
            },
            MapCommand::SetShowArea(tl, br, v) => {
                set_area(&mut self.show_area, tl, br, v);
            },
            MapCommand::TileInfo(ti) => {
                self.tile_info = ti;
            },
            MapCommand::TileData(td) => {
                self.tile_data = td;
            },
            MapCommand::Sprite(c, t) => {
                self.instance_data.push((c, t));
            },
        }
    }

    /// Forgets the sprites of the last frame, then applies the commands in
    /// order.
    pub fn process_commands(&mut self, cmds: Vec<MapCommand>)
        requires
            map_commands_ok(MapModel { sprites: seq![], ..old(self).model() }, cmds@),
        ensures
            final(self).model() == map_steps(MapModel { sprites: seq![], ..old(self).model() }, cmds@),
    {
        self.instance_data.clear();
        assert(self.model() == MapModel { sprites: seq![], ..old(self).model() });
        let ghost start = self.model();
        let ghost init = cmds@;
        let mut rest = cmds;
        while rest.len() > 0
            invariant
                map_commands_ok(self.model(), rest@),
                map_steps(start, init) == map_steps(self.model(), rest@),
            decreases rest@.len(),
        {
            let ghost before = rest@;
            let c = rest.remove(0);
            assert(rest@ =~= before.drop_first());
            self.apply(c);
        }
    }

    /// Whether `c` lies from the map coordinate shown at the top left up to,
    /// not including, `br`.
    pub fn in_range(&self, br: &Coord, c: &Coord) -> (r: bool)
        ensures
            r == (self.model().top_left.0 <= c.0 < br.0 && self.model().top_left.1 <= c.1 < br.1),
    {
        (c.0 >= self.display_top_left.0) && (c.0 < br.0) && (c.1 >= self.display_top_left.1) && (c.1
            < br.1)
    }

    /// The characters to draw for the map area between `top_left` and
    /// `bottom_right`.
    pub fn render(&self, top_left: Coord, bottom_right: Coord) -> (r: Vec<Cell>)
        requires
            render_ok(self.model(), top_left, bottom_right),
        ensures
            r@ == map_cells(self.model(), top_left, bottom_right),
    {
        let ghost m = self.model();
        let tl = top_left;
        let br = bottom_right;
        let y_bnd = (br.1 - tl.1) + self.display_top_left.1;
        let x_bnd = (br.0 - tl.0) + self.display_top_left.0;
        let mut out: Vec<Cell> = Vec::new();
        let mut y = self.display_top_left.1;
        while y < y_bnd
            invariant_except_break
                m == self.model(),
                render_ok(m, tl, br),
                y_bnd == y_bound(m, tl, br),
                x_bnd == x_bound(m, tl, br),
                m.top_left.1 <= y <= y_bnd,
                y == m.top_left.1 || y <= m.tile_data.len(),
                out@ == grid_cells(m, tl, br, y as int),
            ensures
                out@ == grid_cells(m, tl, br, rows_end(m, tl, br)),
            decreases y_bnd - y,
        {
            if y >= self.tile_data.len() {
                break;
            }
            let mut x = self.display_top_left.0;
            let ghost before_row = out@;
            while x < x_bnd
                invariant_except_break
                    m == self.model(),
                    render_ok(m, tl, br),
                    x_bnd == x_bound(m, tl, br),
                    m.top_left.0 <= x <= x_bnd,
                    m.top_left.1 <= y < rows_end(m, tl, br),
                    x == m.top_left.0 || x <= m.tile_data[y as int].len(),
                    out@ == before_row + row_cells(m, tl, br, y as int, x as int),
                ensures
                    out@ == before_row + row_cells(m, tl, br, y as int, row_end(m, tl, br, y as int)),
                decreases x_bnd - x,
            {
                if x >= self.tile_data[y].len() {
                    break;
                }
                assert(in_grid(m, tl, br, y as int, x as int));
                assert(grid_cell_ok(m, tl, y as int, x as int));
                let shown = self.show_area[y][x];
                let ch = if shown {
                    self.tile_info.get_item(self.tile_data[y][x]).unwrap().text.as_char()
                } else {
                    ' '
                };
                out.push((tl.1 + (y - self.display_top_left.1), tl.0 + (x - self.display_top_left.0), ch));
                x += 1;
                assert(out@ =~= before_row + row_cells(m, tl, br, y as int, x as int));
            }
            y += 1;
        }
        let ghost before_sprites = out@;
        let mut k: usize = 0;
        while k < self.instance_data.len()
            invariant
                m == self.model(),
                render_ok(m, tl, br),
                y_bnd == y_bound(m, tl, br),
                x_bnd == x_bound(m, tl, br),
                k <= m.sprites.len(),
                out@ == before_sprites + sprite_cells(m, tl, br, k as int),
            decreases m.sprites.len() - k,
        {
            let c = self.instance_data[k].0;
            if self.in_range(&(x_bnd, y_bnd), &c) {
                assert(sprite_ok(m, tl, m.sprites[k as int].0));
                let ch = if self.show_area[c.1][c.0] {
                    self.instance_data[k].1.as_char()
                } else {
                    ' '
                };
                out.push((tl.1 + (c.1 - self.display_top_left.1), tl.0 + (c.0 - self.display_top_left.0), ch));
            }
            k += 1;
            assert(out@ =~= before_sprites + sprite_cells(m, tl, br, k as int));
        }
        out
    }
}

/// Applying two lists of commands one after the other is applying the two
/// lists joined, and the joined list can be applied exactly when the first
/// can and the second can after it.
pub proof fn law_map_batches(m: MapModel, a: Seq<MapCommand>, b: Seq<MapCommand>)
    ensures
        map_steps(m, a + b) == map_steps(map_steps(m, a), b),
        map_commands_ok(m, a + b) == (map_commands_ok(m, a) && map_commands_ok(map_steps(m, a), b)),
    decreases a.len(),
{
    if a.len() > 0 {
        assert((a + b).drop_first() =~= a.drop_first() + b);
        assert((a + b)[0] == a[0]);
        law_map_batches(map_step(m, a[0]), a.drop_first(), b);
    } else {
        assert(a + b =~= b);
    }
}

/// Whether a drawn cell lies in the area from `tl` up to, not including,
/// `br`.
pub open spec fn cell_inside(c: Cell, tl: Coord, br: Coord) -> bool {
    tl.1 <= c.0 < br.1 && tl.0 <= c.1 < br.0
}

proof fn lemma_row_inside(m: MapModel, tl: Coord, br: Coord, y: int, x_end: int)
    requires
        tl.0 <= br.0,
        tl.1 <= br.1,
        m.top_left.1 <= y < y_bound(m, tl, br),
        x_end <= x_bound(m, tl, br),
    ensures
        forall|i: int| 0 <= i < row_cells(m, tl, br, y, x_end).len() ==> cell_inside(
            #[trigger] row_cells(m, tl, br, y, x_end)[i],
            tl,
            br,
        ),
    decreases x_end - m.top_left.0,
{
    if x_end > m.top_left.0 {
        lemma_row_inside(m, tl, br, y, x_end - 1);
        let a = row_cells(m, tl, br, y, x_end - 1);
        let b = grid_cell(m, tl, br, y, x_end - 1);
        assert forall|i: int| 0 <= i < (a + b).len() implies cell_inside(#[trigger] (a + b)[i], tl, br) by {
            if i >= a.len() {
                assert((a + b)[i] == b[i - a.len()]);
            } else {
                assert((a + b)[i] == a[i]);
            }
        }
    }
}

proof fn lemma_grid_inside(m: MapModel, tl: Coord, br: Coord, y_end: int)
    requires
        tl.0 <= br.0,
        tl.1 <= br.1,
        y_end <= rows_end(m, tl, br),
    ensures
        forall|i: int| 0 <= i < grid_cells(m, tl, br, y_end).len() ==> cell_inside(
            #[trigger] grid_cells(m, tl, br, y_end)[i],
            tl,
            br,
        ),
    decreases y_end - m.top_left.1,
{
    if y_end > m.top_left.1 {
        lemma_grid_inside(m, tl, br, y_end - 1);
        lemma_row_inside(m, tl, br, y_end - 1, row_end(m, tl, br, y_end - 1));
        let a = grid_cells(m, tl, br, y_end - 1);
        let b = row_cells(m, tl, br, y_end - 1, row_end(m, tl, br, y_end - 1));
        assert forall|i: int| 0 <= i < (a + b).len() implies cell_inside(#[trigger] (a + b)[i], tl, br) by {
            if i >= a.len() {
                assert((a + b)[i] == b[i - a.len()]);
            } else {
                assert((a + b)[i] == a[i]);
            }
        }
    }
}

proof fn lemma_sprites_inside(m: MapModel, tl: Coord, br: Coord, k: int)
    requires
        tl.0 <= br.0,
        tl.1 <= br.1,
        k <= m.sprites.len(),
    ensures
        forall|i: int| 0 <= i < sprite_cells(m, tl, br, k).len() ==> cell_inside(
            #[trigger] sprite_cells(m, tl, br, k)[i],
            tl,
            br,
        ),
    decreases k,
{
    if k > 0 {
        lemma_sprites_inside(m, tl, br, k - 1);
        let a = sprite_cells(m, tl, br, k - 1);
        let b = sprite_cell(m, tl, br, m.sprites[k - 1]);
        assert forall|i: int| 0 <= i < (a + b).len() implies cell_inside(#[trigger] (a + b)[i], tl, br) by {
            if i >= a.len() {
                assert((a + b)[i] == b[i - a.len()]);
            } else {
                assert((a + b)[i] == a[i]);
            }
        }
    }
}

/// The map draws nothing outside its area: every cell lies from the top left
/// up to, not including, the bottom right.
pub proof fn law_cells_inside(m: MapModel, tl: Coord, br: Coord)
    requires
        tl.0 <= br.0,
        tl.1 <= br.1,
    ensures
        forall|i: int| 0 <= i < map_cells(m, tl, br).len() ==> cell_inside(
            #[trigger] map_cells(m, tl, br)[i],
            tl,
            br,
        ),
{
    lemma_grid_inside(m, tl, br, rows_end(m, tl, br));
    lemma_sprites_inside(m, tl, br, m.sprites.len() as int);
    let a = grid_cells(m, tl, br, rows_end(m, tl, br));
    let b = sprite_cells(m, tl, br, m.sprites.len() as int);
    assert forall|i: int| 0 <= i < (a + b).len() implies cell_inside(#[trigger] (a + b)[i], tl, br) by {
        if i >= a.len() {
            assert((a + b)[i] == b[i - a.len()]);
        } else {
            assert((a + b)[i] == a[i]);
        }
    }
}

/// Whether drawn cell `c` is blank when the map tile under it is hidden: the
/// map coordinate under a screen position is the position moved back from
/// the top left of the area to the map coordinate shown there.
pub open spec fn blank_if_hidden(m: MapModel, tl: Coord, c: Cell) -> bool {
    let y = c.0 - tl.1 + m.top_left.1;
    let x = c.1 - tl.0 + m.top_left.0;
    !m.show_area[y][x] ==> c.2 == ' '
}

proof fn lemma_row_blank(m: MapModel, tl: Coord, br: Coord, y: int, x_end: int)
    requires
        m.top_left.1 <= y < y_bound(m, tl, br),
        x_end <= x_bound(m, tl, br),
    ensures
        forall|i: int| 0 <= i < row_cells(m, tl, br, y, x_end).len() ==> blank_if_hidden(
            m,
            tl,
            #[trigger] row_cells(m, tl, br, y, x_end)[i],
        ),
    decreases x_end - m.top_left.0,
{
    if x_end > m.top_left.0 {
        lemma_row_blank(m, tl, br, y, x_end - 1);
        let a = row_cells(m, tl, br, y, x_end - 1);
        let b = grid_cell(m, tl, br, y, x_end - 1);
        assert(b[0].0 == tl.1 + y - m.top_left.1);
        assert(b[0].1 == tl.0 + (x_end - 1) - m.top_left.0);
        assert forall|i: int| 0 <= i < (a + b).len() implies blank_if_hidden(m, tl, #[trigger] (a + b)[i]) by {
            if i >= a.len() {
                assert((a + b)[i] == b[i - a.len()]);
            } else {
                assert((a + b)[i] == a[i]);
            }
        }
    }
}

proof fn lemma_grid_blank(m: MapModel, tl: Coord, br: Coord, y_end: int)
    requires
        y_end <= rows_end(m, tl, br),
    ensures
        forall|i: int| 0 <= i < grid_cells(m, tl, br, y_end).len() ==> blank_if_hidden(
            m,
            tl,
            #[trigger] grid_cells(m, tl, br, y_end)[i],
        ),
    decreases y_end - m.top_left.1,
{
    if y_end > m.top_left.1 {
        lemma_grid_blank(m, tl, br, y_end - 1);
        lemma_row_blank(m, tl, br, y_end - 1, row_end(m, tl, br, y_end - 1));
        let a = grid_cells(m, tl, br, y_end - 1);
        let b = row_cells(m, tl, br, y_end - 1, row_end(m, tl, br, y_end - 1));
        assert forall|i: int| 0 <= i < (a + b).len() implies blank_if_hidden(m, tl, #[trigger] (a + b)[i]) by {
            if i >= a.len() {
                assert((a + b)[i] == b[i - a.len()]);
            } else {
                assert((a + b)[i] == a[i]);
            }
        }
    }
}

proof fn lemma_sprites_blank(m: MapModel, tl: Coord, br: Coord, k: int)
    requires
        k <= m.sprites.len(),
    ensures
        forall|i: int| 0 <= i < sprite_cells(m, tl, br, k).len() ==> blank_if_hidden(
            m,
            tl,
            #[trigger] sprite_cells(m, tl, br, k)[i],
        ),
    decreases k,
{
    if k > 0 {
        lemma_sprites_blank(m, tl, br, k - 1);
        let a = sprite_cells(m, tl, br, k - 1);
        let b = sprite_cell(m, tl, br, m.sprites[k - 1]);
        let c = m.sprites[k - 1].0;
        if sprite_shown(m, tl, br, c) {
            assert(b[0].0 == tl.1 + c.1 - m.top_left.1);
            assert(b[0].1 == tl.0 + c.0 - m.top_left.0);
        }
        assert forall|i: int| 0 <= i < (a + b).len() implies blank_if_hidden(m, tl, #[trigger] (a + b)[i]) by {
            if i >= a.len() {
                assert((a + b)[i] == b[i - a.len()]);
            } else {
                assert((a + b)[i] == a[i]);
            }
        }
    }
}

/// The map shows nothing of what is hidden: every cell drawn over a map
/// coordinate whose tile is hidden, be it the tile or an entity standing on
/// it, is a blank.
pub proof fn law_hidden_drawn_blank(m: MapModel, tl: Coord, br: Coord)
    ensures
        forall|i: int| 0 <= i < map_cells(m, tl, br).len() ==> {
            let c = #[trigger] map_cells(m, tl, br)[i];
            !m.show_area[c.0 - tl.1 + m.top_left.1][c.1 - tl.0 + m.top_left.0] ==> c.2 == ' '
        },
{
    lemma_grid_blank(m, tl, br, rows_end(m, tl, br));
    lemma_sprites_blank(m, tl, br, m.sprites.len() as int);
    let a = grid_cells(m, tl, br, rows_end(m, tl, br));
    let b = sprite_cells(m, tl, br, m.sprites.len() as int);
    assert forall|i: int| 0 <= i < (a + b).len() implies blank_if_hidden(m, tl, #[trigger] (a + b)[i]) by {
        if i >= a.len() {
            assert((a + b)[i] == b[i - a.len()]);
        } else {
            assert((a + b)[i] == a[i]);
        }
    }
}

/// Whether drawn cell `c`, over a map tile that is revealed, shows the
/// tile's own character or that of an entity standing on the tile.
pub open spec fn true_if_shown(m: MapModel, tl: Coord, c: Cell) -> bool {
    let y = c.0 - tl.1 + m.top_left.1;
    let x = c.1 - tl.0 + m.top_left.0;
    m.show_area[y][x] ==> {
        ||| c.2 == item_char(m.tile_info.items()[m.tile_data[y][x]].text.text@)
        ||| exists|k: int|
            0 <= k < m.sprites.len() && m.sprites[k].0.0 == x && m.sprites[k].0.1 == y && c.2
                == item_char((#[trigger] m.sprites[k]).1.text@)
    }
}

proof fn lemma_row_true(m: MapModel, tl: Coord, br: Coord, y: int, x_end: int)
    requires
        m.top_left.1 <= y < y_bound(m, tl, br),
        x_end <= x_bound(m, tl, br),
    ensures
        forall|i: int| 0 <= i < row_cells(m, tl, br, y, x_end).len() ==> true_if_shown(
            m,
            tl,
            #[trigger] row_cells(m, tl, br, y, x_end)[i],
        ),
    decreases x_end - m.top_left.0,
{
    if x_end > m.top_left.0 {
        lemma_row_true(m, tl, br, y, x_end - 1);
        let a = row_cells(m, tl, br, y, x_end - 1);
        let b = grid_cell(m, tl, br, y, x_end - 1);
        assert(b[0].0 == tl.1 + y - m.top_left.1);
        assert(b[0].1 == tl.0 + (x_end - 1) - m.top_left.0);
        assert forall|i: int| 0 <= i < (a + b).len() implies true_if_shown(m, tl, #[trigger] (a + b)[i]) by {
            if i >= a.len() {
                assert((a + b)[i] == b[i - a.len()]);
            } else {
                assert((a + b)[i] == a[i]);
            }
        }
    }
}

proof fn lemma_grid_true(m: MapModel, tl: Coord, br: Coord, y_end: int)
    requires
        y_end <= rows_end(m, tl, br),
    ensures
        forall|i: int| 0 <= i < grid_cells(m, tl, br, y_end).len() ==> true_if_shown(
            m,
            tl,
            #[trigger] grid_cells(m, tl, br, y_end)[i],
        ),
    decreases y_end - m.top_left.1,
{
    if y_end > m.top_left.1 {
        lemma_grid_true(m, tl, br, y_end - 1);
        lemma_row_true(m, tl, br, y_end - 1, row_end(m, tl, br, y_end - 1));
        let a = grid_cells(m, tl, br, y_end - 1);
        let b = row_cells(m, tl, br, y_end - 1, row_end(m, tl, br, y_end - 1));
        assert forall|i: int| 0 <= i < (a + b).len() implies true_if_shown(m, tl, #[trigger] (a + b)[i]) by {
            if i >= a.len() {
                assert((a + b)[i] == b[i - a.len()]);
            } else {
                assert((a + b)[i] == a[i]);
            }
        }
    }
}

proof fn lemma_sprites_true(m: MapModel, tl: Coord, br: Coord, k: int)
    requires
        k <= m.sprites.len(),
    ensures
        forall|i: int| 0 <= i < sprite_cells(m, tl, br, k).len() ==> true_if_shown(
            m,
            tl,
            #[trigger] sprite_cells(m, tl, br, k)[i],
        ),
    decreases k,
{
    if k > 0 {
        lemma_sprites_true(m, tl, br, k - 1);
        let a = sprite_cells(m, tl, br, k - 1);
        let b = sprite_cell(m, tl, br, m.sprites[k - 1]);
        let c = m.sprites[k - 1].0;
        if sprite_shown(m, tl, br, c) {
            assert(b[0].0 == tl.1 + c.1 - m.top_left.1);
            assert(b[0].1 == tl.0 + c.0 - m.top_left.0);
            let s = m.sprites[k - 1];
            if m.show_area[c.1 as int][c.0 as int] {
                assert(b[0].2 == item_char(s.1.text@));
            }
        }
        assert forall|i: int| 0 <= i < (a + b).len() implies true_if_shown(m, tl, #[trigger] (a + b)[i]) by {
            if i >= a.len() {
                assert((a + b)[i] == b[i - a.len()]);
            } else {
                assert((a + b)[i] == a[i]);
            }
        }
    }
}

/// Over a revealed map tile the map draws what is there: the tile's own
/// character, or the character of an entity standing on the tile.
pub proof fn law_shown_drawn_truly(m: MapModel, tl: Coord, br: Coord)
    ensures
        forall|i: int| 0 <= i < map_cells(m, tl, br).len() ==> {
            let c = #[trigger] map_cells(m, tl, br)[i];
            let y = c.0 - tl.1 + m.top_left.1;
            let x = c.1 - tl.0 + m.top_left.0;
            m.show_area[y][x] ==> {
                ||| c.2 == item_char(m.tile_info.items()[m.tile_data[y][x]].text.text@)
                ||| exists|k: int|
                    0 <= k < m.sprites.len() && m.sprites[k].0.0 == x && m.sprites[k].0.1 == y
                        && c.2 == item_char((#[trigger] m.sprites[k]).1.text@)
            }
        },
{
    lemma_grid_true(m, tl, br, rows_end(m, tl, br));
    lemma_sprites_true(m, tl, br, m.sprites.len() as int);
    let a = grid_cells(m, tl, br, rows_end(m, tl, br));
    let b = sprite_cells(m, tl, br, m.sprites.len() as int);
    assert forall|i: int| 0 <= i < (a + b).len() implies true_if_shown(m, tl, #[trigger] (a + b)[i]) by {
        if i >= a.len() {
            assert((a + b)[i] == b[i - a.len()]);
        } else {
            assert((a + b)[i] == a[i]);
        }
    }
}

} // verus!
