//! The dungeon map: the tile grid, the fog-of-war grids, the per-tile
//! blocking flags and occupancy lists, and the room list.

use vstd::prelude::*;
use crate::ecs::EntityId;
use crate::rect::Rect;

verus! {

pub const MAPWIDTH: usize = 80;
pub const MAPHEIGHT: usize = 50;
pub const MAPCOUNT: usize = MAPHEIGHT * MAPWIDTH;

#[derive(Clone, Copy, PartialEq, Eq, Structural, Debug)]
pub enum TileType {
    Wall,
    Floor,
    DownStairs,
}

/// The linear index of tile (x, y), as a mathematical value.
pub open spec fn idx_of(x: int, y: int) -> int {
    y * (MAPWIDTH as int) + x
}

/// True when (x, y) is a coordinate of the grid.
pub open spec fn on_map(x: int, y: int) -> bool {
    0 <= x < MAPWIDTH as int && 0 <= y < MAPHEIGHT as int
}

/// True when (x, y) lies strictly inside the map's border.
pub open spec fn in_interior(x: int, y: int) -> bool {
    0 < x < MAPWIDTH as int - 1 && 0 < y < MAPHEIGHT as int - 1
}

pub struct GameMap {
    pub tiles: Vec<TileType>,
    pub revealed: Vec<bool>,
    pub visible: Vec<bool>,
    pub blocked: Vec<bool>,
    pub rooms: Vec<Rect>,
    pub width: i32,
    pub height: i32,
    pub depth: i32,
    /// Entities occupying each tile; a derived cache rebuilt every turn.
    pub contents: Vec<Vec<EntityId>>,
}

impl GameMap {
    /// The grids all cover exactly the fixed-size tile grid.
    pub open spec fn wf(self) -> bool {
        &&& self.tiles@.len() == MAPCOUNT as int
        &&& self.revealed@.len() == MAPCOUNT as int
        &&& self.visible@.len() == MAPCOUNT as int
        &&& self.blocked@.len() == MAPCOUNT as int
        &&& self.contents@.len() == MAPCOUNT as int
        &&& self.width == MAPWIDTH as i32
        &&& self.height == MAPHEIGHT as i32
    }

    /// Converts coordinates into a linear index.
    pub fn xy_idx(x: i32, y: i32) -> (r: usize)
        requires
            on_map(x as int, y as int),
        ensures
            r == idx_of(x as int, y as int),
            r < MAPCOUNT,
    {
        (y as usize) * MAPWIDTH + (x as usize)
    }

    /// Generates an empty map consisting entirely of solid walls.
    pub fn new(depth: i32) -> (m: GameMap)
        ensures
            m.wf(),
            m.depth == depth,
            m.rooms@.len() == 0,
            forall|i: int| 0 <= i < MAPCOUNT as int ==> m.tiles@[i] is Wall,
            forall|i: int| 0 <= i < MAPCOUNT as int ==> !m.revealed@[i] && !m.visible@[i],
            forall|i: int| 0 <= i < MAPCOUNT as int ==> !m.blocked@[i],
            forall|i: int| 0 <= i < MAPCOUNT as int ==> m.contents@[i]@.len() == 0,
    {
        GameMap {
            tiles: fill(TileType::Wall, MAPCOUNT),
            revealed: fill(false, MAPCOUNT),
            visible: fill(false, MAPCOUNT),
            blocked: fill(false, MAPCOUNT),
            rooms: Vec::new(),
            width: MAPWIDTH as i32,
            height: MAPHEIGHT as i32,
            depth,
            contents: fill_empty_lists(MAPCOUNT),
        }
    }

    /// True when a step onto (x, y) is possible: inside the border and not
    /// blocked.
    pub fn is_exit_valid(&self, x: i32, y: i32) -> (r: bool)
        requires
            self.wf(),
        ensures
            r == (in_interior(x as int, y as int)
                && !self.blocked@[idx_of(x as int, y as int)]),
    {
        if x < 1 || x > self.width - 2 || y < 1 || y > self.height - 2 {
            return false;
        }
        let idx = GameMap::xy_idx(x, y);
        !self.blocked[idx]
    }

    /// Walls stop sight.
    pub fn is_opaque(&self, idx: usize) -> (r: bool)
        requires
            self.wf(),
            idx < MAPCOUNT,
        ensures
            r == (self.tiles@[idx as int] is Wall),
    {
        self.tiles[idx] == TileType::Wall
    }

    /// Seeds the blocking grid from the tiles alone: walls block.
    pub fn populate_blocked(&mut self)
        requires
            old(self).wf(),
        ensures
            final(self).wf(),
            forall|i: int| 0 <= i < MAPCOUNT as int
                ==> final(self).blocked@[i] == (final(self).tiles@[i] is Wall),
            final(self).tiles@ == old(self).tiles@,
            final(self).revealed@ == old(self).revealed@,
            final(self).visible@ == old(self).visible@,
            final(self).rooms@ == old(self).rooms@,
            final(self).contents@ == old(self).contents@,
            final(self).depth == old(self).depth,
    {
        let mut i: usize = 0;
        while i < MAPCOUNT
            invariant
                self.wf(),
                i <= MAPCOUNT,
                forall|j: int| 0 <= j < i ==> self.blocked@[j] == (self.tiles@[j] is Wall),
                self.tiles@ == old(self).tiles@,
                self.revealed@ == old(self).revealed@,
                self.visible@ == old(self).visible@,
                self.rooms@ == old(self).rooms@,
                self.contents@ == old(self).contents@,
                self.depth == old(self).depth,
                self.width == old(self).width,
                self.height == old(self).height,
            decreases MAPCOUNT - i,
        {
            let w: bool = self.tiles[i] == TileType::Wall;
            self.blocked.set(i, w);
            i = i + 1;
        }
    }

    /// Empties every tile's occupancy list.
    pub fn clear_contents(&mut self)
        requires
            old(self).wf(),
        ensures
            final(self).wf(),
            forall|i: int| 0 <= i < MAPCOUNT as int ==> final(self).contents@[i]@.len() == 0,
            final(self).tiles@ == old(self).tiles@,
            final(self).revealed@ == old(self).revealed@,
            final(self).visible@ == old(self).visible@,
            final(self).blocked@ == old(self).blocked@,
            final(self).rooms@ == old(self).rooms@,
            final(self).depth == old(self).depth,
    {
        let mut i: usize = 0;
        while i < MAPCOUNT
            invariant
                self.wf(),
                i <= MAPCOUNT,
                forall|j: int| 0 <= j < i ==> self.contents@[j]@.len() == 0,
                self.tiles@ == old(self).tiles@,
                self.revealed@ == old(self).revealed@,
                self.visible@ == old(self).visible@,
                self.blocked@ == old(self).blocked@,
                self.rooms@ == old(self).rooms@,
                self.depth == old(self).depth,
                self.width == old(self).width,
                self.height == old(self).height,
            decreases MAPCOUNT - i,
        {
            self.contents.set(i, Vec::new());
            i = i + 1;
        }
    }
}

/// A vector of `n` copies of `val`.
pub fn fill<T: Copy>(val: T, n: usize) -> (v: Vec<T>)
    ensures
        v@.len() == n,
        forall|i: int| 0 <= i < n ==> v@[i] == val,
{
    let mut v: Vec<T> = Vec::new();
    let mut k: usize = 0;
    while k < n
        invariant
            k <= n,
            v@.len() == k,
            forall|i: int| 0 <= i < k ==> v@[i] == val,
        decreases n - k,
    {
        v.push(val);
        k = k + 1;
    }
    v
}

/// A vector of `n` empty occupancy lists.
fn fill_empty_lists(n: usize) -> (v: Vec<Vec<EntityId>>)
    ensures
        v@.len() == n,
        forall|i: int| 0 <= i < n ==> v@[i]@.len() == 0,
{
    let mut v: Vec<Vec<EntityId>> = Vec::new();
    let mut k: usize = 0;
    while k < n
        invariant
            k <= n,
            v@.len() == k,
            forall|i: int| 0 <= i < k ==> v@[i]@.len() == 0,
        decreases n - k,
    {
        v.push(Vec::new());
        k = k + 1;
    }
    v
}

/// The wall glyph that matches a bitmask of revealed wall neighbours, as a
/// mathematical table.
pub open spec fn spec_mask_glyph(mask: u8) -> u8 {
    if mask == 0 { 9 }
    else if mask == 1 { 186 }
    else if mask == 2 { 186 }
    else if mask == 3 { 186 }
    else if mask == 4 { 205 }
    else if mask == 5 { 188 }
    else if mask == 6 { 187 }
    else if mask == 7 { 185 }
    else if mask == 8 { 205 }
    else if mask == 9 { 200 }
    else if mask == 10 { 201 }
    else if mask == 11 { 204 }
    else if mask == 12 { 205 }
    else if mask == 13 { 202 }
    else if mask == 14 { 203 }
    else { 35 }
}

/// Maps a neighbour bitmask to the box-drawing glyph for a wall tile.
pub fn mask_to_glyph(mask: u8) -> (r: u8)
    ensures
        r == spec_mask_glyph(mask),
{
    match mask {
        0 => 9,
        1 => 186,
        2 => 186,
        3 => 186,
        4 => 205,
        5 => 188,
        6 => 187,
        7 => 185,
        8 => 205,
        9 => 200,
        10 => 201,
        11 => 204,
        12 => 205,
        13 => 202,
        14 => 203,
        _ => 35,
    }
}

/// True when (x, y) is on the map, is a wall, and has been revealed.
pub fn is_revealed_and_wall(map: &GameMap, x: i32, y: i32) -> (r: bool)
    requires
        map.wf(),
    ensures
        r == (on_map(x as int, y as int) && map.tiles@[idx_of(x as int, y as int)] is Wall
            && map.revealed@[idx_of(x as int, y as int)]),
{
    if x < 0 || x >= map.width || y < 0 || y >= map.height {
        return false;
    }
    let idx = GameMap::xy_idx(x, y);
    tile_is_wall(map, idx) && map.revealed[idx]
}

fn tile_is_wall(map: &GameMap, idx: usize) -> (r: bool)
    requires
        map.wf(),
        idx < MAPCOUNT,
    ensures
        r == (map.tiles@[idx as int] is Wall),
{
    map.tiles[idx] == TileType::Wall
}

/// True in the spec when (x, y) holds a revealed wall.
pub open spec fn spec_revealed_wall(map: GameMap, x: int, y: int) -> bool {
    on_map(x, y) && map.tiles@[idx_of(x, y)] is Wall && map.revealed@[idx_of(x, y)]
}

/// The bitmask of revealed wall neighbours of (x, y).
pub open spec fn spec_wall_mask(map: GameMap, x: int, y: int) -> int {
    (if spec_revealed_wall(map, x, y - 1) { 1int } else { 0int })
        + (if spec_revealed_wall(map, x, y + 1) { 2int } else { 0int })
        + (if spec_revealed_wall(map, x - 1, y) { 4int } else { 0int })
        + (if spec_revealed_wall(map, x + 1, y) { 8int } else { 0int })
}

/// The glyph for a revealed wall at (x, y): picks a box-drawing character
/// from which of the four neighbours are revealed walls.
pub fn wall_glyph(map: &GameMap, x: i32, y: i32) -> (r: u8)
    requires
        map.wf(),
        0 < x < map.width - 1,
        0 < y < map.height - 1,
    ensures
        r == spec_mask_glyph(spec_wall_mask(*map, x as int, y as int) as u8),
{
    let mut mask: u8 = 0;
    if is_revealed_and_wall(map, x, y - 1) { mask += 1; }
    if is_revealed_and_wall(map, x, y + 1) { mask += 2; }
    if is_revealed_and_wall(map, x - 1, y) { mask += 4; }
    if is_revealed_and_wall(map, x + 1, y) { mask += 8; }
    mask_to_glyph(mask)
}

} // verus!
