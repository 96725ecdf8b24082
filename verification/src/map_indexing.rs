//! The spatial index: rebuilds, once per turn, the map's blocking flags and
//! per-tile occupancy lists from the entities' current positions.

use vstd::prelude::*;
use crate::components::{BlocksTile, Position};
use crate::ecs::{Column, EntityId};
use crate::map::{GameMap, idx_of, on_map, MAPCOUNT};
use crate::visibility::positions_on_map;

verus! {

/// The tile index on which entity `i` stands.
pub open spec fn tile_of(ps: Seq<Option<Position>>, i: int) -> int {
    idx_of(ps[i]->Some_0.x as int, ps[i]->Some_0.y as int)
}

/// Entity slot `i` is live and stands on tile `j`.
pub open spec fn occupant(alive: Seq<bool>, ps: Seq<Option<Position>>, i: int, j: int) -> bool {
    0 <= i < alive.len() && alive[i] && ps[i] is Some && tile_of(ps, i) == j
}

/// The spatial index is in step with the entities: a tile is blocked exactly
/// when it is a wall or a live blocking entity stands on it; the occupancy
/// list of each tile holds exactly the live entities standing there, under
/// their current generation.
pub open spec fn spatial_ok(
    m: GameMap,
    alive: Seq<bool>,
    gens: Seq<u64>,
    ps: Seq<Option<Position>>,
    bl: Seq<Option<BlocksTile>>,
) -> bool {
    &&& forall|j: int| 0 <= j < MAPCOUNT as int
        ==> #[trigger] m.blocked@[j] == (m.tiles@[j] is Wall
            || exists|i: int| #[trigger] occupant(alive, ps, i, j) && bl[i] is Some)
    &&& forall|j: int, k: int|
        0 <= j < MAPCOUNT as int && 0 <= k < m.contents@[j]@.len()
            ==> occupant(alive, ps, (#[trigger] m.contents@[j]@[k]).idx as int, j)
                && gens[m.contents@[j]@[k].idx as int] == m.contents@[j]@[k].gen
    &&& forall|i: int|
        0 <= i < alive.len() && #[trigger] alive[i] && ps[i] is Some
            ==> m.contents@[tile_of(ps, i)]@.contains(
                EntityId { idx: i as usize, gen: gens[i] },
            )
    &&& forall|j: int, k1: int, k2: int|
        0 <= j < MAPCOUNT as int && 0 <= k1 < k2 < m.contents@[j]@.len()
            ==> (#[trigger] m.contents@[j]@[k1]).idx < (#[trigger] m.contents@[j]@[k2]).idx
}

/// No entity slot appears twice anywhere in the occupancy lists.
pub open spec fn contents_disjoint(m: GameMap) -> bool {
    forall|j1: int, k1: int, j2: int, k2: int|
        0 <= j1 < MAPCOUNT as int && 0 <= k1 < m.contents@[j1]@.len()
            && 0 <= j2 < MAPCOUNT as int && 0 <= k2 < m.contents@[j2]@.len()
            && !(j1 == j2 && k1 == k2)
            ==> (#[trigger] m.contents@[j1]@[k1]).idx != (#[trigger] m.contents@[j2]@[k2]).idx
}

/// A map whose spatial index is in step lists each entity at most once over
/// all its occupancy lists.
pub proof fn lemma_contents_disjoint(
    m: GameMap,
    alive: Seq<bool>,
    gens: Seq<u64>,
    ps: Seq<Option<Position>>,
    bl: Seq<Option<BlocksTile>>,
)
    requires
        spatial_ok(m, alive, gens, ps, bl),
    ensures
        contents_disjoint(m),
{
    assert forall|j1: int, k1: int, j2: int, k2: int|
        0 <= j1 < MAPCOUNT as int && 0 <= k1 < m.contents@[j1]@.len()
            && 0 <= j2 < MAPCOUNT as int && 0 <= k2 < m.contents@[j2]@.len()
            && !(j1 == j2 && k1 == k2)
        implies (#[trigger] m.contents@[j1]@[k1]).idx != (#[trigger] m.contents@[j2]@[k2]).idx by {
        let i1 = m.contents@[j1]@[k1].idx as int;
        let i2 = m.contents@[j2]@[k2].idx as int;
        assert(occupant(alive, ps, i1, j1));
        assert(occupant(alive, ps, i2, j2));
        if i1 == i2 {
            assert(j1 == j2);
            if k1 < k2 {
                assert(m.contents@[j1]@[k1].idx < m.contents@[j1]@[k2].idx);
            } else {
                assert(m.contents@[j1]@[k2].idx < m.contents@[j1]@[k1].idx);
            }
        }
    }
}

/// The spatial index.
pub struct MapIndexingSystem {}

impl MapIndexingSystem {
    /// Rebuilds the blocking flags and the occupancy lists from scratch so
    /// that `spatial_ok` holds of the result; tiles, fog of war, rooms and
    /// depth are untouched.
    pub fn run(
        map: &mut GameMap,
        alive: &Vec<bool>,
        gens: &Vec<u64>,
        positions: &Column<Position>,
        blockers: &Column<BlocksTile>,
    )
        requires
            old(map).wf(),
            alive@.len() == positions@.len(),
            gens@.len() == positions@.len(),
            blockers@.len() == positions@.len(),
            positions_on_map(positions@),
        ensures
            final(map).wf(),
            final(map).tiles@ == old(map).tiles@,
            final(map).revealed@ == old(map).revealed@,
            final(map).visible@ == old(map).visible@,
            final(map).rooms@ == old(map).rooms@,
            final(map).depth == old(map).depth,
            spatial_ok(*final(map), alive@, gens@, positions@, blockers@),
    {
        map.populate_blocked();
        map.clear_contents();
        let n: usize = positions.len();
        let mut i: usize = 0;
        while i < n
            invariant
                map.wf(),
                n == positions@.len(),
                alive@.len() == n,
                gens@.len() == n,
                blockers@.len() == n,
                i <= n,
                positions_on_map(positions@),
                map.tiles@ == old(map).tiles@,
                map.revealed@ == old(map).revealed@,
                map.visible@ == old(map).visible@,
                map.rooms@ == old(map).rooms@,
                map.depth == old(map).depth,
                forall|j: int| 0 <= j < MAPCOUNT as int
                    ==> #[trigger] map.blocked@[j] == (map.tiles@[j] is Wall
                        || exists|k: int|
                            k < i && #[trigger] occupant(alive@, positions@, k, j)
                                && blockers@[k] is Some),
                forall|j: int, k: int|
                    0 <= j < MAPCOUNT as int && 0 <= k < map.contents@[j]@.len()
                        ==> occupant(alive@, positions@,
                                (#[trigger] map.contents@[j]@[k]).idx as int, j)
                            && map.contents@[j]@[k].idx < i
                            && gens@[map.contents@[j]@[k].idx as int]
                                == map.contents@[j]@[k].gen,
                forall|k: int|
                    0 <= k < i && #[trigger] alive@[k] && positions@[k] is Some
                        ==> map.contents@[tile_of(positions@, k)]@.contains(
                            EntityId { idx: k as usize, gen: gens@[k] },
                        ),
                forall|j: int, k1: int, k2: int|
                    0 <= j < MAPCOUNT as int && 0 <= k1 < k2 < map.contents@[j]@.len()
                        ==> (#[trigger] map.contents@[j]@[k1]).idx
                            < (#[trigger] map.contents@[j]@[k2]).idx,
            decreases n - i,
        {
            let ghost pre = *map;
            let process: bool = alive[i] && positions.contains(i);
            if process {
                match positions.get(i) {
                    Some(p) => {
                        let idx = GameMap::xy_idx(p.x, p.y);
                        if blockers.contains(i) {
                            map.blocked.set(idx, true);
                        }
                        let e = EntityId { idx: i, gen: gens[i] };
                        map.contents[idx].push(e);
                        proof {
                            assert(map.contents@ == pre.contents@.update(idx as int,
                                map.contents@[idx as int]));
                            assert(map.contents@[idx as int]@
                                == pre.contents@[idx as int]@.push(e));
                            assert(tile_of(positions@, i as int) == idx as int);
                            assert(map.contents@[idx as int]@.last() == e);
                            assert(map.contents@[tile_of(positions@, i as int)]@.contains(e));
                            assert forall|k: int|
                                0 <= k < i && alive@[k] && positions@[k] is Some
                                implies map.contents@[tile_of(positions@, k)]@.contains(
                                    EntityId { idx: k as usize, gen: gens@[k] },
                                ) by {
                                let e2 = (EntityId { idx: k as usize, gen: gens@[k] });
                                let t = tile_of(positions@, k);
                                assert(pre.contents@[t]@.contains(e2));
                                let m2 = choose|m2: int|
                                    0 <= m2 < pre.contents@[t]@.len()
                                        && pre.contents@[t]@[m2] == e2;
                                assert(map.contents@[t]@[m2] == e2);
                            }
                            assert forall|j: int| 0 <= j < MAPCOUNT as int implies
                                #[trigger] map.blocked@[j] == (map.tiles@[j] is Wall
                                    || exists|k: int|
                                        k < i + 1 && #[trigger] occupant(alive@, positions@,
                                            k, j) && blockers@[k] is Some) by {
                                if map.blocked@[j] {
                                    if !pre.blocked@[j] {
                                        assert(j == idx as int);
                                        assert(occupant(alive@, positions@, i as int, j)
                                            && blockers@[i as int] is Some);
                                    } else {
                                        if !(pre.tiles@[j] is Wall) {
                                            let k = choose|k: int|
                                                k < i && #[trigger] occupant(alive@,
                                                    positions@, k, j)
                                                    && blockers@[k] is Some;
                                            assert(occupant(alive@, positions@, k, j)
                                                && blockers@[k] is Some);
                                        }
                                    }
                                } else {
                                    assert(!(map.tiles@[j] is Wall));
                                    if exists|k: int|
                                        k < i + 1 && #[trigger] occupant(alive@, positions@,
                                            k, j) && blockers@[k] is Some {
                                        let k = choose|k: int|
                                            k < i + 1 && #[trigger] occupant(alive@,
                                                positions@, k, j) && blockers@[k] is Some;
                                        if k < i {
                                            assert(pre.blocked@[j]);
                                        } else {
                                            assert(k == i);
                                            assert(j == idx as int);
                                        }
                                        assert(false);
                                    }
                                }
                            }
                        }
                    }
                    None => {}
                }
            } else {
                proof {
                    assert forall|j: int| 0 <= j < MAPCOUNT as int implies
                        #[trigger] map.blocked@[j] == (map.tiles@[j] is Wall
                            || exists|k: int|
                                k < i + 1 && #[trigger] occupant(alive@, positions@, k, j)
                                    && blockers@[k] is Some) by {
                        if exists|k: int|
                            k < i + 1 && #[trigger] occupant(alive@, positions@, k, j)
                                && blockers@[k] is Some {
                            let k = choose|k: int|
                                k < i + 1 && #[trigger] occupant(alive@, positions@, k, j)
                                    && blockers@[k] is Some;
                            assert(k < i);
                        }
                    }
                }
            }
            i = i + 1;
        }
    }
}

} // verus!
