//! Dungeon generation: randomly placed non-degenerate rooms joined by
//! L-shaped corridors, a single staircase down, and a start position in the
//! first room.

use vstd::prelude::*;
use crate::components::Position;
use crate::map::{GameMap, TileType, idx_of, on_map, MAPWIDTH, MAPHEIGHT};
use crate::rect::Rect;
use crate::rng::{rng_range, rng_roll_dice};
use crate::damage::suffer_nonneg;
use crate::ecs::EntityId;
use crate::inventory_system::{aoe_ok, heal_ok, inflict_ok};
use crate::spawner;
use crate::visibility::{positions_on_map, ranges_ok};
use crate::world::World;


verus! {

const MAX_ROOMS: i32 = 30;
const MIN_SIZE: i32 = 6;
const MAX_SIZE: i32 = 10;

/// The room's tiles all lie on the map, off the north and west border.
pub open spec fn room_in_bounds(r: Rect) -> bool {
    1 <= r.x1 <= r.x2 < MAPWIDTH as int && 1 <= r.y1 <= r.y2 < MAPHEIGHT as int
}

pub open spec fn center_x(r: Rect) -> int {
    (r.x1 + r.x2) / 2
}

pub open spec fn center_y(r: Rect) -> int {
    (r.y1 + r.y2) / 2
}

/// Every tile of every accepted room has been carved to floor.
pub open spec fn rooms_carved(m: GameMap) -> bool {
    forall|k: int, x: int, y: int|
        0 <= k < m.rooms@.len() && #[trigger] m.rooms@[k].spec_contains(x, y)
            ==> m.tiles@[idx_of(x, y)] is Floor
}

/// No tile of the map is a staircase.
pub open spec fn no_stairs(m: GameMap) -> bool {
    forall|x: int, y: int| on_map(x, y) ==> !(#[trigger] m.tiles@[idx_of(x, y)] is DownStairs)
}

/// Two distinct on-map coordinates never share a linear index.
pub proof fn lemma_idx_inj(ax: int, ay: int, bx: int, by: int)
    requires
        on_map(ax, ay),
        on_map(bx, by),
        idx_of(ax, ay) == idx_of(bx, by),
    ensures
        ax == bx && ay == by,
{
}

/// Carves the room's tiles (borders included) to floor and touches nothing
/// else.
pub fn apply_room_to_map(map: &mut GameMap, room: &Rect)
    requires
        old(map).wf(),
        room_in_bounds(*room),
    ensures
        final(map).wf(),
        forall|x: int, y: int| on_map(x, y)
            ==> #[trigger] final(map).tiles@[idx_of(x, y)] == (if room.spec_contains(x, y) {
                TileType::Floor
            } else {
                old(map).tiles@[idx_of(x, y)]
            }),
        final(map).rooms@ == old(map).rooms@,
        final(map).revealed@ == old(map).revealed@,
        final(map).visible@ == old(map).visible@,
        final(map).blocked@ == old(map).blocked@,
        final(map).contents@ == old(map).contents@,
        final(map).depth == old(map).depth,
{
    let mut x: i32 = room.x1;
    while x <= room.x2
        invariant
            map.wf(),
            room_in_bounds(*room),
            room.x1 <= x <= room.x2 + 1,
            forall|a: int, b: int| on_map(a, b)
                ==> #[trigger] map.tiles@[idx_of(a, b)]
                    == (if room.spec_contains(a, b) && a < x {
                        TileType::Floor
                    } else {
                        old(map).tiles@[idx_of(a, b)]
                    }),
            map.rooms@ == old(map).rooms@,
            map.revealed@ == old(map).revealed@,
            map.visible@ == old(map).visible@,
            map.blocked@ == old(map).blocked@,
            map.contents@ == old(map).contents@,
            map.depth == old(map).depth,
        decreases room.x2 + 1 - x,
    {
        let mut y: i32 = room.y1;
        while y <= room.y2
            invariant
                map.wf(),
                room_in_bounds(*room),
                room.x1 <= x <= room.x2,
                room.y1 <= y <= room.y2 + 1,
                forall|a: int, b: int| on_map(a, b)
                    ==> #[trigger] map.tiles@[idx_of(a, b)]
                        == (if room.spec_contains(a, b) && (a < x || (a == x && b < y)) {
                            TileType::Floor
                        } else {
                            old(map).tiles@[idx_of(a, b)]
                        }),
                map.rooms@ == old(map).rooms@,
                map.revealed@ == old(map).revealed@,
                map.visible@ == old(map).visible@,
                map.blocked@ == old(map).blocked@,
                map.contents@ == old(map).contents@,
                map.depth == old(map).depth,
            decreases room.y2 + 1 - y,
        {
            let idx = GameMap::xy_idx(x, y);
            carve_floor(map, idx);
            proof {
                assert forall|a: int, b: int|
                    on_map(a, b) && idx_of(a, b) == idx_of(x as int, y as int)
                    implies a == x as int && b == y as int by {
                    lemma_idx_inj(a, b, x as int, y as int);
                }
            }
            y = y + 1;
        }
        x = x + 1;
    }
}

/// Sets one tile to floor, keeping every other field of the map intact.
fn carve_floor(map: &mut GameMap, idx: usize)
    requires
        old(map).wf(),
        idx < old(map).tiles@.len(),
    ensures
        final(map).wf(),
        final(map).tiles@ == old(map).tiles@.update(idx as int, TileType::Floor),
        final(map).rooms@ == old(map).rooms@,
        final(map).revealed@ == old(map).revealed@,
        final(map).visible@ == old(map).visible@,
        final(map).blocked@ == old(map).blocked@,
        final(map).contents@ == old(map).contents@,
        final(map).depth == old(map).depth,
{
    map.tiles.set(idx, TileType::Floor);
}

/// Carves a west-east corridor at row `y` between columns `x1` and `x2`.
pub fn apply_horizontal_tunnel(map: &mut GameMap, x1: i32, x2: i32, y: i32)
    requires
        old(map).wf(),
        0 <= x1 < MAPWIDTH as int,
        0 <= x2 < MAPWIDTH as int,
        0 <= y < MAPHEIGHT as int,
    ensures
        final(map).wf(),
        forall|a: int, b: int| on_map(a, b)
            ==> #[trigger] final(map).tiles@[idx_of(a, b)]
                == (if b == y && spec_min(x1 as int, x2 as int) <= a
                        <= spec_max(x1 as int, x2 as int) {
                    TileType::Floor
                } else {
                    old(map).tiles@[idx_of(a, b)]
                }),
        final(map).rooms@ == old(map).rooms@,
        final(map).revealed@ == old(map).revealed@,
        final(map).visible@ == old(map).visible@,
        final(map).blocked@ == old(map).blocked@,
        final(map).contents@ == old(map).contents@,
        final(map).depth == old(map).depth,
{
    let lo: i32 = if x1 < x2 { x1 } else { x2 };
    let hi: i32 = if x1 < x2 { x2 } else { x1 };
    let mut x: i32 = lo;
    while x <= hi
        invariant
            map.wf(),
            lo == spec_min(x1 as int, x2 as int),
            hi == spec_max(x1 as int, x2 as int),
            0 <= lo,
            hi < MAPWIDTH as int,
            0 <= y < MAPHEIGHT as int,
            lo <= x <= hi + 1,
            forall|a: int, b: int| on_map(a, b)
                ==> #[trigger] map.tiles@[idx_of(a, b)]
                    == (if b == y && lo <= a < x {
                        TileType::Floor
                    } else {
                        old(map).tiles@[idx_of(a, b)]
                    }),
            map.rooms@ == old(map).rooms@,
            map.revealed@ == old(map).revealed@,
            map.visible@ == old(map).visible@,
            map.blocked@ == old(map).blocked@,
            map.contents@ == old(map).contents@,
            map.depth == old(map).depth,
        decreases hi + 1 - x,
    {
        let idx = GameMap::xy_idx(x, y);
        carve_floor(map, idx);
        proof {
            assert forall|a: int, b: int|
                on_map(a, b) && idx_of(a, b) == idx_of(x as int, y as int)
                implies a == x as int && b == y as int by {
                lemma_idx_inj(a, b, x as int, y as int);
            }
        }
        x = x + 1;
    }
}

/// Carves a north-south corridor at column `x` between rows `y1` and `y2`.
pub fn apply_vertical_tunnel(map: &mut GameMap, x: i32, y1: i32, y2: i32)
    requires
        old(map).wf(),
        0 <= x < MAPWIDTH as int,
        0 <= y1 < MAPHEIGHT as int,
        0 <= y2 < MAPHEIGHT as int,
    ensures
        final(map).wf(),
        forall|a: int, b: int| on_map(a, b)
            ==> #[trigger] final(map).tiles@[idx_of(a, b)]
                == (if a == x && spec_min(y1 as int, y2 as int) <= b
                        <= spec_max(y1 as int, y2 as int) {
                    TileType::Floor
                } else {
                    old(map).tiles@[idx_of(a, b)]
                }),
        final(map).rooms@ == old(map).rooms@,
        final(map).revealed@ == old(map).revealed@,
        final(map).visible@ == old(map).visible@,
        final(map).blocked@ == old(map).blocked@,
        final(map).contents@ == old(map).contents@,
        final(map).depth == old(map).depth,
{
    let lo: i32 = if y1 < y2 { y1 } else { y2 };
    let hi: i32 = if y1 < y2 { y2 } else { y1 };
    let mut y: i32 = lo;
    while y <= hi
        invariant
            map.wf(),
            lo == spec_min(y1 as int, y2 as int),
            hi == spec_max(y1 as int, y2 as int),
            0 <= lo,
            hi < MAPHEIGHT as int,
            0 <= x < MAPWIDTH as int,
            lo <= y <= hi + 1,
            forall|a: int, b: int| on_map(a, b)
                ==> #[trigger] map.tiles@[idx_of(a, b)]
                    == (if a == x && lo <= b < y {
                        TileType::Floor
                    } else {
                        old(map).tiles@[idx_of(a, b)]
                    }),
            map.rooms@ == old(map).rooms@,
            map.revealed@ == old(map).revealed@,
            map.visible@ == old(map).visible@,
            map.blocked@ == old(map).blocked@,
            map.contents@ == old(map).contents@,
            map.depth == old(map).depth,
        decreases hi + 1 - y,
    {
        let idx = GameMap::xy_idx(x, y);
        carve_floor(map, idx);
        proof {
            assert forall|a: int, b: int|
                on_map(a, b) && idx_of(a, b) == idx_of(x as int, y as int)
                implies a == x as int && b == y as int by {
                lemma_idx_inj(a, b, x as int, y as int);
            }
        }
        y = y + 1;
    }
}

pub open spec fn spec_min(a: int, b: int) -> int {
    if a < b { a } else { b }
}

pub open spec fn spec_max(a: int, b: int) -> int {
    if a < b { b } else { a }
}

/// What dungeon generation promises: at least one room, every room inside
/// the border with its tiles carved to floor (except the one staircase), a
/// single staircase at the last room's centre, and the start position at the
/// centre of the first room.
pub open spec fn generated_dungeon(m: GameMap, start: Position) -> bool {
    &&& m.wf()
    &&& 1 <= m.rooms@.len() <= 30
    &&& forall|k: int| 0 <= k < m.rooms@.len() ==> room_in_bounds(#[trigger] m.rooms@[k])
    &&& forall|k: int| 0 <= k < m.rooms@.len()
        ==> 6 <= (#[trigger] m.rooms@[k]).x2 - m.rooms@[k].x1 <= 9
            && 6 <= m.rooms@[k].y2 - m.rooms@[k].y1 <= 9
    &&& forall|k1: int, k2: int|
        #![trigger m.rooms@[k1].spec_overlaps(m.rooms@[k2])]
        0 <= k1 < k2 < m.rooms@.len()
            ==> !m.rooms@[k1].spec_overlaps(m.rooms@[k2])
    &&& forall|k: int, x: int, y: int|
        0 <= k < m.rooms@.len() && #[trigger] m.rooms@[k].spec_contains(x, y)
            ==> m.tiles@[idx_of(x, y)] is Floor
                || (x == center_x(m.rooms@.last()) && y == center_y(m.rooms@.last()))
    &&& m.tiles@[idx_of(center_x(m.rooms@.last()), center_y(m.rooms@.last()))] is DownStairs
    &&& forall|x: int, y: int|
        on_map(x, y) && !(x == center_x(m.rooms@.last()) && y == center_y(m.rooms@.last()))
            ==> !(#[trigger] m.tiles@[idx_of(x, y)] is DownStairs)
    &&& start.x == center_x(m.rooms@[0]) && start.y == center_y(m.rooms@[0])
    &&& m.rooms@[0].spec_contains(start.x as int, start.y as int)
}

pub struct SimpleMapBuilder {
    pub map: GameMap,
    pub starting_pos: Position,
    pub depth: i32,
}

impl SimpleMapBuilder {
    pub fn new(depth: i32) -> (b: SimpleMapBuilder)
        ensures
            b.map.wf(),
            b.map.rooms@.len() == 0,
            no_stairs(b.map),
            b.depth == depth,
            b.map.depth == depth,
    {
        SimpleMapBuilder { map: GameMap::new(depth), starting_pos: Position { x: 0, y: 0 }, depth }
    }

    /// Places up to `MAX_ROOMS` random non-intersecting rooms, joins each new
    /// room to the previous one with an L-shaped corridor (the bend direction
    /// decided by a coin flip), marks the last room's centre as the stairs
    /// down, and starts the player at the first room's centre.  The first
    /// sampled room never intersects anything, so at least one room is always
    /// accepted and the bounded attempt count cannot leave the map degenerate.
    #[verifier::rlimit(60)]
    pub fn rooms_and_corridors(&mut self, rng: &mut rltk::RandomNumberGenerator)
        requires
            old(self).map.wf(),
            old(self).map.rooms@.len() == 0,
            no_stairs(old(self).map),
        ensures
            generated_dungeon(final(self).map, final(self).starting_pos),
            final(self).map.depth == old(self).map.depth,
            final(self).depth == old(self).depth,
    {
        let mut i: i32 = 0;
        while i < MAX_ROOMS
            invariant
                self.map.wf(),
                0 <= i <= MAX_ROOMS,
                i >= 1 ==> self.map.rooms@.len() >= 1,
                self.map.rooms@.len() <= i,
                no_stairs(self.map),
                rooms_carved(self.map),
                forall|k: int| 0 <= k < self.map.rooms@.len()
                    ==> room_in_bounds(#[trigger] self.map.rooms@[k]),
                forall|k: int| 0 <= k < self.map.rooms@.len()
                    ==> 6 <= (#[trigger] self.map.rooms@[k]).x2 - self.map.rooms@[k].x1 <= 9
                        && 6 <= self.map.rooms@[k].y2 - self.map.rooms@[k].y1 <= 9,
                forall|k1: int, k2: int|
                    #![trigger self.map.rooms@[k1].spec_overlaps(self.map.rooms@[k2])]
                    0 <= k1 < k2 < self.map.rooms@.len()
                        ==> !self.map.rooms@[k1].spec_overlaps(self.map.rooms@[k2]),
                self.map.depth == old(self).map.depth,
                self.depth == old(self).depth,
            decreases MAX_ROOMS - i,
        {
            let w = rng_range(rng, MIN_SIZE, MAX_SIZE);
            let h = rng_range(rng, MIN_SIZE, MAX_SIZE);
            let x = rng_range(rng, 1, self.map.width - w);
            let y = rng_range(rng, 1, self.map.height - h);
            let room = Rect::new(x, y, w, h);
            let mut ok = true;
            let mut j: usize = 0;
            let nrooms: usize = self.map.rooms.len();
            while j < nrooms
                invariant
                    nrooms == self.map.rooms@.len(),
                    j <= nrooms,
                    nrooms == 0 ==> ok,
                    ok ==> forall|j2: int| 0 <= j2 < j
                        ==> !room.spec_overlaps(#[trigger] self.map.rooms@[j2]),
                decreases nrooms - j,
            {
                if room.intersect(&self.map.rooms[j]) {
                    ok = false;
                }
                j = j + 1;
            }
            if ok {
                apply_room_to_map(&mut self.map, &room);
                if self.map.rooms.len() != 0 {
                    let (nx, ny) = room.center();
                    let prev = self.map.rooms[self.map.rooms.len() - 1];
                    let (px, py) = prev.center();
                    if rng_range(rng, 0, 2) == 1 {
                        // east-west first along the previous centre's row,
                        // then north-south up to the new centre
                        apply_horizontal_tunnel(&mut self.map, px, nx, py);
                        apply_vertical_tunnel(&mut self.map, nx, py, ny);
                    } else {
                        // north-south first along the previous centre's
                        // column, then east-west along the new centre's row
                        apply_vertical_tunnel(&mut self.map, px, py, ny);
                        apply_horizontal_tunnel(&mut self.map, px, nx, ny);
                    }
                }
                self.map.rooms.push(room);
                proof {
                    assert forall|k1: int, k2: int|
                        #![trigger self.map.rooms@[k1].spec_overlaps(self.map.rooms@[k2])]
                        0 <= k1 < k2 < self.map.rooms@.len()
                        implies !self.map.rooms@[k1].spec_overlaps(
                            self.map.rooms@[k2]) by {
                        if k2 == self.map.rooms@.len() - 1 {
                            assert(!room.spec_overlaps(self.map.rooms@[k1]));
                        }
                    }
                }
            }
            i = i + 1;
        }

        let last = self.map.rooms[self.map.rooms.len() - 1];
        let stairs = last.center();
        let stairs_idx = GameMap::xy_idx(stairs.0, stairs.1);
        self.map.tiles.set(stairs_idx, TileType::DownStairs);
        let start = self.map.rooms[0].center();
        self.starting_pos = Position { x: start.0, y: start.1 };
        proof {
            assert forall|x: int, y: int|
                on_map(x, y) && idx_of(x, y) == idx_of(stairs.0 as int, stairs.1 as int)
                implies x == stairs.0 as int && y == stairs.1 as int by {
                lemma_idx_inj(x, y, stairs.0 as int, stairs.1 as int);
            }
        }
    }
}

/// Makes a map of solid rock with extra random wall placements: the oldest
/// map shape, kept for its exact, if spartan, character — every tile ends up
/// a wall.
pub fn new_map_random(depth: i32, rng: &mut rltk::RandomNumberGenerator) -> (m: GameMap)
    ensures
        m.wf(),
        m.depth == depth,
        m.rooms@.len() == 0,
        forall|i: int| 0 <= i < crate::map::MAPCOUNT as int ==> m.tiles@[i] is Wall,
        forall|i: int| 0 <= i < crate::map::MAPCOUNT as int
            ==> !m.revealed@[i] && !m.visible@[i] && !m.blocked@[i],
        forall|i: int| 0 <= i < crate::map::MAPCOUNT as int ==> m.contents@[i]@.len() == 0,
{
    let mut map = GameMap::new(depth);
    let mut i: i32 = 0;
    while i < 400
        invariant
            map.wf(),
            map.depth == depth,
            0 <= i <= 400,
            map.rooms@.len() == 0,
            forall|j: int| 0 <= j < crate::map::MAPCOUNT as int ==> map.tiles@[j] is Wall,
            forall|j: int| 0 <= j < crate::map::MAPCOUNT as int
                ==> !map.revealed@[j] && !map.visible@[j] && !map.blocked@[j],
            forall|j: int| 0 <= j < crate::map::MAPCOUNT as int
                ==> map.contents@[j]@.len() == 0,
        decreases 400 - i,
    {
        let x = rng_roll_dice(rng, 1, map.width - 1);
        let y = rng_roll_dice(rng, 1, map.height - 1);
        if x < map.width - 1 && y < map.height - 1 {
            let idx = GameMap::xy_idx(x, y);
            let center = GameMap::xy_idx(map.width / 2, map.height / 2);
            if idx != center {
                map.tiles.set(idx, TileType::Wall);
            }
        }
        i = i + 1;
    }
    map
}

/// Generates the dungeon for `depth` from `seed`: the map, and the start
/// position at the centre of the first room.
pub fn build_random_map(depth: i32, seed: u64) -> (r: (GameMap, Position))
    ensures
        generated_dungeon(r.0, r.1),
        r.0.depth == depth,
{
    let mut rng = crate::rng::rng_seeded(seed);
    let mut builder = SimpleMapBuilder::new(depth);
    builder.rooms_and_corridors(&mut rng);
    (builder.map, builder.starting_pos)
}

/// Scatters monsters over every room but the first, which belongs to the
/// player.
pub fn spawn(world: &mut World, rng: &mut rltk::RandomNumberGenerator, map: &GameMap)
    requires
        old(world).wf(),
        map.wf(),
        old(world).cap() <= 0x0800_0000 - 0x1000,
        map.rooms@.len() <= 30,
        forall|k: int| 0 <= k < map.rooms@.len()
            ==> room_in_bounds(#[trigger] map.rooms@[k]),
        positions_on_map(old(world).positions@),
        ranges_ok(old(world).viewsheds@),
        suffer_nonneg(old(world).suffer_damage@),
        heal_ok(old(world).provides_healing@),
        inflict_ok(old(world).inflicts_damage@),
        aoe_ok(old(world).area_of_effects@),
    ensures
        final(world).wf(),
        final(world).cap() <= old(world).cap() + 0x1000,
        final(world).pending@ == old(world).pending@,
        positions_on_map(final(world).positions@),
        ranges_ok(final(world).viewsheds@),
        suffer_nonneg(final(world).suffer_damage@),
        heal_ok(final(world).provides_healing@),
        inflict_ok(final(world).inflicts_damage@),
        aoe_ok(final(world).area_of_effects@),
        spawner::no_new_players(*old(world), *final(world)),
        forall|e: EntityId| old(world).spec_valid(e) ==> final(world).spec_valid(e),
        forall|i: int|
            0 <= i < old(world).cap() && #[trigger] old(world).alive@[i]
                ==> final(world).alive@[i]
                    && final(world).gens@[i] == old(world).gens@[i]
                    && final(world).record(i) == old(world).record(i),
        forall|i: int| 0 <= i < old(world).cap()
            ==> final(world).gens@[i] == #[trigger] old(world).gens@[i],
        forall|i: int|
            0 <= i < old(world).cap() && !(#[trigger] old(world).alive@[i])
                && old(world).gens@[i] == u64::MAX
                ==> !final(world).alive@[i],
        forall|i: int|
            0 <= i < final(world).cap() && #[trigger] final(world).wants_to_melee@[i] is Some
                ==> 0 <= i < old(world).cap()
                    && old(world).wants_to_melee@[i] == final(world).wants_to_melee@[i],
        forall|i: int|
            0 <= i < final(world).cap() && #[trigger] final(world).wants_to_use@[i] is Some
                ==> 0 <= i < old(world).cap()
                    && old(world).wants_to_use@[i] == final(world).wants_to_use@[i],
        forall|i: int|
            0 <= i < final(world).cap() && #[trigger] final(world).wants_to_pickup@[i] is Some
                ==> 0 <= i < old(world).cap()
                    && old(world).wants_to_pickup@[i] == final(world).wants_to_pickup@[i],
        forall|i: int|
            0 <= i < final(world).cap() && #[trigger] final(world).wants_to_drop@[i] is Some
                ==> 0 <= i < old(world).cap()
                    && old(world).wants_to_drop@[i] == final(world).wants_to_drop@[i],
        forall|i: int|
            0 <= i < final(world).cap() && #[trigger] final(world).hunger_clocks@[i] is Some
                ==> 0 <= i < old(world).cap()
                    && old(world).hunger_clocks@[i] == final(world).hunger_clocks@[i],
{
    let mut k: usize = 1;
    let nrooms: usize = map.rooms.len();
    proof {
        spawner::lemma_spawn_preserves_refl(*world);
    }
    while k < nrooms
        invariant
            world.wf(),
            map.wf(),
            k <= 30,
            1 <= k,
            nrooms == map.rooms@.len(),
            nrooms <= 30,
            world.cap() <= old(world).cap() + 16 * k,
            old(world).cap() <= world.cap(),
            old(world).cap() <= 0x0800_0000 - 0x1000,
            world.pending@ == old(world).pending@,
            forall|k2: int| 0 <= k2 < map.rooms@.len()
                ==> room_in_bounds(#[trigger] map.rooms@[k2]),
            positions_on_map(world.positions@),
            ranges_ok(world.viewsheds@),
            suffer_nonneg(world.suffer_damage@),
            heal_ok(world.provides_healing@),
            inflict_ok(world.inflicts_damage@),
            aoe_ok(world.area_of_effects@),
            spawner::no_new_players(*old(world), *world),
            forall|e: EntityId| old(world).spec_valid(e) ==> world.spec_valid(e),
            forall|i: int|
                0 <= i < old(world).cap() && #[trigger] old(world).alive@[i]
                    ==> world.alive@[i] && world.gens@[i] == old(world).gens@[i]
                        && world.record(i) == old(world).record(i),
            forall|i: int| 0 <= i < old(world).cap()
                ==> world.gens@[i] == #[trigger] old(world).gens@[i],
            forall|i: int|
                0 <= i < old(world).cap() && !(#[trigger] old(world).alive@[i])
                    && old(world).gens@[i] == u64::MAX
                    ==> !world.alive@[i],
            forall|i: int|
                0 <= i < world.cap() && #[trigger] world.wants_to_melee@[i] is Some
                    ==> 0 <= i < old(world).cap()
                        && old(world).wants_to_melee@[i] == world.wants_to_melee@[i],
            forall|i: int|
                0 <= i < world.cap() && #[trigger] world.wants_to_use@[i] is Some
                    ==> 0 <= i < old(world).cap()
                        && old(world).wants_to_use@[i] == world.wants_to_use@[i],
            forall|i: int|
                0 <= i < world.cap() && #[trigger] world.wants_to_pickup@[i] is Some
                    ==> 0 <= i < old(world).cap()
                        && old(world).wants_to_pickup@[i] == world.wants_to_pickup@[i],
            forall|i: int|
                0 <= i < world.cap() && #[trigger] world.wants_to_drop@[i] is Some
                    ==> 0 <= i < old(world).cap()
                        && old(world).wants_to_drop@[i] == world.wants_to_drop@[i],
            forall|i: int|
                0 <= i < world.cap() && #[trigger] world.hunger_clocks@[i] is Some
                    ==> 0 <= i < old(world).cap()
                        && old(world).hunger_clocks@[i] == world.hunger_clocks@[i],
        decreases nrooms - k,
    {
        let room = map.rooms[k];
        if room.x1 < room.x2 && room.y1 < room.y2 {
            let ghost pre = *world;
            spawner::spawn_room(world, rng, &room);
            proof {
                crate::state::lemma_spawn_wf(pre, *world);
                spawner::lemma_no_new_players_trans(*old(world), pre, *world);
                assert forall|i: int|
                    0 <= i < old(world).cap() && old(world).alive@[i]
                    implies world.alive@[i] && world.gens@[i] == old(world).gens@[i]
                        && world.record(i) == old(world).record(i) by {
                    assert(old(world).alive@[i]);
                    assert(0 <= i < pre.cap());
                    assert(pre.alive@[i]);
                    assert(pre.gens@[i] == old(world).gens@[i]);
                    assert(pre.record(i) == old(world).record(i));
                    assert(world.alive@[i]);
                    assert(world.gens@[i] == pre.gens@[i]);
                    assert(world.record(i) == pre.record(i));
                }
                assert forall|i: int| 0 <= i < old(world).cap()
                    implies world.gens@[i] == old(world).gens@[i] by {
                    assert(pre.gens@[i] == old(world).gens@[i]);
                    assert(world.gens@[i] == pre.gens@[i]);
                }
                assert forall|i: int|
                    0 <= i < old(world).cap() && !old(world).alive@[i]
                        && old(world).gens@[i] == u64::MAX
                    implies !world.alive@[i] by {
                    assert(!pre.alive@[i]);
                    assert(pre.gens@[i] == u64::MAX);
                    assert(!world.alive@[i]);
                }
            }
        }
        k = k + 1;
    }
}


} // verus!
