//! Monster decisions: a monster that can see the player walks one step along
//! a cheapest-first search path over the map's traversability graph
//! (8-directional, diagonals half again as dear); an adjacent monster stays
//! put and leaves the attack to the combat system.

use vstd::prelude::*;
use crate::components::{Monster, Point, Position, Viewshed};
use crate::ecs::Column;
use crate::map::{GameMap, idx_of, in_interior, on_map, MAPCOUNT, MAPWIDTH};
use crate::visibility::{positions_on_map, ranges_ok};

verus! {

/// Tiles `a` and `b` are distinct neighbours, diagonals included.
pub open spec fn tiles_adjacent(a: int, b: int) -> bool {
    exists|ax: int, ay: int, bx: int, by: int|
        on_map(ax, ay) && on_map(bx, by) && #[trigger] idx_of(ax, ay) == a
            && #[trigger] idx_of(bx, by) == b && !(ax == bx && ay == by)
            && -1 <= ax - bx <= 1 && -1 <= ay - by <= 1
}

/// A walkable path: it starts at `start`, ends at `goal`, moves one
/// neighbouring tile at a time, and after the first tile steps only on
/// interior tiles that are not blocked.
pub open spec fn valid_path(m: GameMap, steps: Seq<usize>, start: int, goal: int) -> bool {
    &&& steps.len() >= 1
    &&& steps[0] == start
    &&& steps.last() == goal
    &&& forall|k: int| 0 <= k < steps.len() - 1
        ==> tiles_adjacent(#[trigger] steps[k] as int, steps[k + 1] as int)
    &&& forall|k: int| 1 <= k < steps.len()
        ==> (#[trigger] steps[k]) < MAPCOUNT && !m.blocked@[steps[k] as int]
            && in_interior(steps[k] as int % MAPWIDTH as int, steps[k] as int / MAPWIDTH as int)
}

/// The result of a path search.
pub struct NavigationPath {
    pub success: bool,
    pub steps: Vec<usize>,
}

/// The search bookkeeping stays sound: every reached tile other than the
/// start has a strictly cheaper reached predecessor one walkable step away,
/// and is itself an unblocked interior tile.
pub open spec fn search_inv(m: GameMap, dist: Seq<u64>, pred: Seq<usize>, start: int) -> bool {
    forall|v: int|
        0 <= v < MAPCOUNT as int && v != start && #[trigger] dist[v] < u64::MAX
            ==> pred[v] < MAPCOUNT && dist[pred[v] as int] < u64::MAX
                && tiles_adjacent(pred[v] as int, v)
                && !m.blocked@[v]
                && in_interior(v % MAPWIDTH as int, v / MAPWIDTH as int)
                && dist[pred[v] as int] < dist[v]
}

/// Every settled tile has offered a route to each of its walkable
/// neighbours, so those neighbours are reached too.
pub open spec fn frontier_closed(
    m: GameMap, dist: Seq<u64>, visited: Seq<bool>,
) -> bool {
    forall|a: int, b: int|
        0 <= a < MAPCOUNT as int && visited[a] && 0 <= b < MAPCOUNT as int
            && #[trigger] tiles_adjacent(a, b) && !m.blocked@[b]
            && in_interior(b % MAPWIDTH as int, b / MAPWIDTH as int)
            ==> dist[b] < u64::MAX
}

/// Offers tile (ux + dx, uy + dy) a cheaper route through `u`.
fn relax(
    map: &GameMap,
    dist: &mut Vec<u64>,
    pred: &mut Vec<usize>,
    u: usize,
    ux: i32,
    uy: i32,
    dx: i32,
    dy: i32,
    cost: u64,
    start: usize,
)
    requires
        map.wf(),
        old(dist)@.len() == MAPCOUNT as int,
        old(pred)@.len() == MAPCOUNT as int,
        u < MAPCOUNT,
        start < MAPCOUNT,
        ux == u as int % MAPWIDTH as int,
        uy == u as int / MAPWIDTH as int,
        -1 <= dx <= 1,
        -1 <= dy <= 1,
        !(dx == 0 && dy == 0),
        100 <= cost <= 145,
        old(dist)@[u as int] < 0x0100_0000,
        old(dist)@[start as int] == 0,
        search_inv(*map, old(dist)@, old(pred)@, start as int),
    ensures
        final(dist)@.len() == MAPCOUNT as int,
        final(pred)@.len() == MAPCOUNT as int,
        final(dist)@[start as int] == 0,
        final(dist)@[u as int] == old(dist)@[u as int],
        search_inv(*map, final(dist)@, final(pred)@, start as int),
        forall|v: int| 0 <= v < MAPCOUNT as int
            ==> final(dist)@[v] <= old(dist)@[v],
        forall|v: int| 0 <= v < MAPCOUNT as int
            ==> final(dist)@[v] == old(dist)@[v]
                || final(dist)@[v] <= old(dist)@[u as int] + 145,
        in_interior(ux as int + dx, uy as int + dy)
            && !map.blocked@[idx_of(ux as int + dx, uy as int + dy)]
            ==> final(dist)@[idx_of(ux as int + dx, uy as int + dy)] < u64::MAX,
{
    proof {
        assert(on_map(ux as int, uy as int));
        assert(idx_of(ux as int, uy as int) == u as int);
    }
    let vx: i32 = ux + dx;
    let vy: i32 = uy + dy;
    if map.is_exit_valid(vx, vy) {
        let v = GameMap::xy_idx(vx, vy);
        let du: u64 = dist[u];
        let nd: u64 = du + cost;
        if nd < dist[v] {
            proof {
                assert(v != start) by {
                    if v == start {
                        assert(old(dist)@[v as int] == 0);
                    }
                }
                assert(v != u) by {
                    lemma_idx_inj_path(vx as int, vy as int, ux as int, uy as int);
                }
                assert(on_map(vx as int, vy as int));
                assert(idx_of(vx as int, vy as int) == v as int);
                assert(tiles_adjacent(u as int, v as int)) by {
                    assert(on_map(ux as int, uy as int) && on_map(vx as int, vy as int)
                        && idx_of(ux as int, uy as int) == u as int
                        && idx_of(vx as int, vy as int) == v as int
                        && !(ux as int == vx as int && uy as int == vy as int)
                        && -1 <= ux as int - vx as int <= 1
                        && -1 <= uy as int - vy as int <= 1);
                }
            }
            dist.set(v, nd);
            pred.set(v, u);
            proof {
                assert(v as int % MAPWIDTH as int == vx as int
                    && v as int / MAPWIDTH as int == vy as int) by {
                    assert(idx_of(vx as int, vy as int) == v as int);
                }
                assert forall|w: int|
                    0 <= w < MAPCOUNT as int && w != start && #[trigger] dist@[w] < u64::MAX
                    implies pred@[w] < MAPCOUNT && dist@[pred@[w] as int] < u64::MAX
                        && tiles_adjacent(pred@[w] as int, w)
                        && !map.blocked@[w]
                        && in_interior(w % MAPWIDTH as int, w / MAPWIDTH as int)
                        && dist@[pred@[w] as int] < dist@[w] by {
                    if w == v as int {
                        assert(pred@[w] == u);
                        assert(dist@[u as int] == du);
                    } else {
                        assert(old(dist)@[w] < u64::MAX);
                        assert(pred@[w] == old(pred)@[w]);
                        if old(pred)@[w] as int == v as int {
                            assert(dist@[pred@[w] as int] <= old(dist)@[pred@[w] as int]);
                        }
                    }
                }
            }
        }
        proof {
            assert(dist@[v as int] <= nd);
            assert(dist@[v as int] < u64::MAX);
        }
    }
}

/// Distinct on-map coordinates give distinct linear indices.
proof fn lemma_idx_inj_path(ax: int, ay: int, bx: int, by: int)
    requires
        on_map(ax, ay),
        on_map(bx, by),
        !(ax == bx && ay == by),
    ensures
        idx_of(ax, ay) != idx_of(bx, by),
{
}

/// Walking a path from the start, every step stays reached: the start is
/// reached, every reached tile is settled once the frontier is exhausted,
/// and every settled tile has reached its walkable neighbours.
proof fn lemma_path_reached(
    m: GameMap,
    dist: Seq<u64>,
    visited: Seq<bool>,
    steps: Seq<usize>,
    k: int,
    start: int,
    goal: int,
)
    requires
        dist.len() == MAPCOUNT as int,
        visited.len() == MAPCOUNT as int,
        0 <= start < MAPCOUNT as int,
        valid_path(m, steps, start, goal),
        dist[start] == 0,
        forall|v: int| 0 <= v < MAPCOUNT as int && #[trigger] dist[v] < u64::MAX
            ==> visited[v],
        frontier_closed(m, dist, visited),
        0 <= k < steps.len(),
    ensures
        dist[steps[k] as int] < u64::MAX,
    decreases k,
{
    if k > 0 {
        lemma_path_reached(m, dist, visited, steps, k - 1, start, goal);
        let a = steps[k - 1] as int;
        let b = steps[k] as int;
        assert(visited[a]);
        assert(tiles_adjacent(a, b));
        assert(b < MAPCOUNT as int && !m.blocked@[b]
            && in_interior(b % MAPWIDTH as int, b / MAPWIDTH as int));
        assert(a < MAPCOUNT as int) by {
            if k - 1 == 0 {
            } else {
            }
        }
    }
}

/// Cheapest-first search from `start` to `goal` over the map's
/// traversability graph: cardinal steps cost 100, diagonal steps 145 (the
/// classic 1 : 1.45 ratio, scaled to integers).  On success the returned
/// steps form a walkable path; and whenever any walkable path exists at
/// all, the search succeeds.
pub fn a_star_search(start: usize, goal: usize, map: &GameMap) -> (r: NavigationPath)
    requires
        map.wf(),
        start < MAPCOUNT,
        goal < MAPCOUNT,
    ensures
        r.success ==> valid_path(*map, r.steps@, start as int, goal as int),
        (exists|steps: Seq<usize>| valid_path(*map, steps, start as int, goal as int))
            ==> r.success,
{
    let inf: u64 = u64::MAX;
    let mut dist: Vec<u64> = crate::map::fill(inf, MAPCOUNT);
    let mut pred: Vec<usize> = crate::map::fill(0, MAPCOUNT);
    let mut visited: Vec<bool> = crate::map::fill(false, MAPCOUNT);
    dist.set(start, 0);
    let ghost mut vset: Set<int> = Set::empty();
    proof {
        vstd::set_lib::lemma_int_range(0, MAPCOUNT as int);
    }
    loop
        invariant_except_break
            map.wf(),
            start < MAPCOUNT,
            goal < MAPCOUNT,
            dist@.len() == MAPCOUNT as int,
            pred@.len() == MAPCOUNT as int,
            visited@.len() == MAPCOUNT as int,
            dist@[start as int] == 0,
            inf == u64::MAX,
            search_inv(*map, dist@, pred@, start as int),
            vset.finite(),
            forall|v: int| vset.contains(v) ==> 0 <= v < MAPCOUNT as int,
            forall|v: int| 0 <= v < MAPCOUNT as int
                ==> (visited@[v] <==> vset.contains(v)),
            forall|v: int| 0 <= v < MAPCOUNT as int && #[trigger] dist@[v] < u64::MAX
                ==> dist@[v] <= 1160 * (vset.len() + 1),
            vset.len() <= MAPCOUNT as int,
            frontier_closed(*map, dist@, visited@),
        ensures
            map.wf(),
            dist@.len() == MAPCOUNT as int,
            pred@.len() == MAPCOUNT as int,
            visited@.len() == MAPCOUNT as int,
            dist@[start as int] == 0,
            inf == u64::MAX,
            search_inv(*map, dist@, pred@, start as int),
            frontier_closed(*map, dist@, visited@),
            dist@[goal as int] < u64::MAX
                || (forall|v: int| 0 <= v < MAPCOUNT as int && #[trigger] dist@[v] < u64::MAX
                    ==> visited@[v]),
        decreases MAPCOUNT as int - vset.len(),
    {
        // pick the cheapest unvisited reached tile
        let mut u: usize = MAPCOUNT;
        let mut best: u64 = inf;
        let mut scan: usize = 0;
        while scan < MAPCOUNT
            invariant
                dist@.len() == MAPCOUNT as int,
                visited@.len() == MAPCOUNT as int,
                scan <= MAPCOUNT,
                (u == MAPCOUNT && best == inf)
                    || (u < MAPCOUNT && best == dist@[u as int] && best < inf
                        && !visited@[u as int]),
                inf == u64::MAX,
                u == MAPCOUNT ==> forall|v: int|
                    0 <= v < scan ==> visited@[v] || #[trigger] dist@[v] == u64::MAX,
            decreases MAPCOUNT - scan,
        {
            if !visited[scan] && dist[scan] < best {
                best = dist[scan];
                u = scan;
            }
            scan = scan + 1;
        }
        if u == MAPCOUNT {
            // nothing reached is left unsettled
            break;
        }
        if u == goal {
            break;
        }
        visited.set(u, true);
        proof {
            assert(!vset.contains(u as int));
            vstd::set::axiom_set_insert_len(vset, u as int);
            vset = vset.insert(u as int);
            vstd::set_lib::lemma_int_range(0, MAPCOUNT as int);
            assert(vset.subset_of(vstd::set_lib::set_int_range(0, MAPCOUNT as int))) by {
                assert forall|v: int| vset.contains(v)
                    implies vstd::set_lib::set_int_range(0, MAPCOUNT as int).contains(v) by {
                    assert(0 <= v < MAPCOUNT as int);
                }
            }
            vstd::set_lib::lemma_len_subset(vset,
                vstd::set_lib::set_int_range(0, MAPCOUNT as int));
        }
        let ghost du_bound: int = 1160 * (vset.len() as int);
        let ux: i32 = (u % MAPWIDTH) as i32;
        let uy: i32 = (u / MAPWIDTH) as i32;
        let ghost pre_dist = dist@;
        relax(map, &mut dist, &mut pred, u, ux, uy, -1, 0, 100, start);
        relax(map, &mut dist, &mut pred, u, ux, uy, 1, 0, 100, start);
        relax(map, &mut dist, &mut pred, u, ux, uy, 0, -1, 100, start);
        relax(map, &mut dist, &mut pred, u, ux, uy, 0, 1, 100, start);
        relax(map, &mut dist, &mut pred, u, ux, uy, -1, -1, 145, start);
        relax(map, &mut dist, &mut pred, u, ux, uy, 1, -1, 145, start);
        relax(map, &mut dist, &mut pred, u, ux, uy, -1, 1, 145, start);
        relax(map, &mut dist, &mut pred, u, ux, uy, 1, 1, 145, start);
        proof {
            // the distance bound grows by one rung
            assert forall|v: int| 0 <= v < MAPCOUNT as int && #[trigger] dist@[v] < u64::MAX
                implies dist@[v] <= 1160 * (vset.len() + 1) by {
                if dist@[v] == pre_dist[v] {
                    assert(pre_dist[v] <= 1160 * (vset.len() as int));
                } else {
                    assert(dist@[v] <= pre_dist[u as int] + 145);
                }
            }
            // every walkable neighbour of u is now reached
            assert forall|a: int, b: int|
                0 <= a < MAPCOUNT as int && visited@[a] && 0 <= b < MAPCOUNT as int
                    && #[trigger] tiles_adjacent(a, b) && !map.blocked@[b]
                    && in_interior(b % MAPWIDTH as int, b / MAPWIDTH as int)
                implies dist@[b] < u64::MAX by {
                if a == u as int {
                    let (ax, ay, bx, by) = choose|ax: int, ay: int, bx: int, by: int|
                        on_map(ax, ay) && on_map(bx, by) && #[trigger] idx_of(ax, ay) == a
                            && #[trigger] idx_of(bx, by) == b && !(ax == bx && ay == by)
                            && -1 <= ax - bx <= 1 && -1 <= ay - by <= 1;
                    assert(ax == ux as int && ay == uy as int) by {
                        crate::map_builders::lemma_idx_inj(ax, ay, ux as int, uy as int);
                    }
                    assert(idx_of(bx, by) == idx_of(ux as int + (bx - ax),
                        uy as int + (by - ay)));
                    assert(b % MAPWIDTH as int == bx && b / MAPWIDTH as int == by) by {
                        assert(idx_of(bx, by) == b);
                    }
                    assert(in_interior(bx, by));
                    assert(dist@[b] < u64::MAX);
                } else {
                    assert(pre_dist[b] < u64::MAX);
                }
            }
        }
    }
    // reconstruct the path backwards along predecessors; the chain's cost
    // falls strictly at every hop, so the walk reaches the start
    if dist[goal] == inf {
        proof {
            if exists|steps: Seq<usize>|
                valid_path(*map, steps, start as int, goal as int) {
                let steps = choose|steps: Seq<usize>|
                    valid_path(*map, steps, start as int, goal as int);
                lemma_path_reached(*map, dist@, visited@, steps, steps.len() - 1,
                    start as int, goal as int);
                assert(dist@[goal as int] < u64::MAX);
            }
        }
        return NavigationPath { success: false, steps: Vec::new() };
    }
    let mut rev: Vec<usize> = Vec::new();
    rev.push(goal);
    let mut cur: usize = goal;
    while cur != start
        invariant
            map.wf(),
            start < MAPCOUNT,
            goal < MAPCOUNT,
            cur < MAPCOUNT,
            dist@.len() == MAPCOUNT as int,
            pred@.len() == MAPCOUNT as int,
            dist@[start as int] == 0,
            dist@[cur as int] < u64::MAX,
            search_inv(*map, dist@, pred@, start as int),
            rev@.len() >= 1,
            rev@[0] == goal,
            rev@.last() == cur,
            forall|k: int| 0 <= k < rev@.len() - 1
                ==> tiles_adjacent(#[trigger] rev@[k + 1] as int, rev@[k] as int),
            forall|k: int| 0 <= k < rev@.len() - 1
                ==> (#[trigger] rev@[k]) < MAPCOUNT && !map.blocked@[rev@[k] as int]
                    && in_interior(rev@[k] as int % MAPWIDTH as int,
                        rev@[k] as int / MAPWIDTH as int),
        decreases dist@[cur as int],
    {
        let nxt = pred[cur];
        proof {
            assert(dist@[cur as int] < u64::MAX && cur != start);
            assert(tiles_adjacent(pred@[cur as int] as int, cur as int));
            assert(!map.blocked@[cur as int]);
            assert(dist@[nxt as int] < dist@[cur as int]);
        }
        rev.push(nxt);
        cur = nxt;
    }
    // reverse
    let mut steps: Vec<usize> = Vec::new();
    let m: usize = rev.len();
    let mut k: usize = 0;
    while k < m
        invariant
            m == rev@.len(),
            k <= m,
            steps@.len() == k,
            forall|k2: int| 0 <= k2 < k ==> steps@[k2] == rev@[m - 1 - k2],
        decreases m - k,
    {
        steps.push(rev[m - 1 - k]);
        k = k + 1;
    }
    proof {
        assert(steps@[0] == rev@[m - 1]);
        assert(steps@.last() == rev@[0]);
        assert forall|k2: int| 0 <= k2 < steps@.len() - 1
            implies tiles_adjacent(#[trigger] steps@[k2] as int, steps@[k2 + 1] as int) by {
            assert(steps@[k2] == rev@[m - 1 - k2]);
            assert(steps@[k2 + 1] == rev@[m - 1 - (k2 + 1)]);
            assert(tiles_adjacent(rev@[(m - 1 - k2 - 1) + 1] as int,
                rev@[m - 1 - k2 - 1] as int));
        }
        assert forall|k2: int| 1 <= k2 < steps@.len()
            implies (#[trigger] steps@[k2]) < MAPCOUNT && !map.blocked@[steps@[k2] as int]
                && in_interior(steps@[k2] as int % MAPWIDTH as int,
                    steps@[k2] as int / MAPWIDTH as int) by {
            assert(steps@[k2] == rev@[m - 1 - k2]);
        }
    }
    NavigationPath { success: true, steps }
}

/// The monster in slot `i` sees the player and stands more than one step
/// away, so a chase step is due if any path exists.
pub open spec fn wants_to_chase(
    alive: Seq<bool>, monsters: Seq<Option<Monster>>, vs: Seq<Option<Viewshed>>,
    ps: Seq<Option<Position>>, player_pos: Point, i: int,
) -> bool {
    &&& 0 <= i < alive.len()
    &&& alive[i]
    &&& monsters[i] is Some
    &&& vs[i] is Some
    &&& ps[i] is Some
    &&& exists|k: int|
        0 <= k < vs[i]->Some_0.tiles@.len() && vs[i]->Some_0.tiles@[k] == player_pos
    &&& (ps[i]->Some_0.x - player_pos.x) * (ps[i]->Some_0.x - player_pos.x)
        + (ps[i]->Some_0.y - player_pos.y) * (ps[i]->Some_0.y - player_pos.y) >= 3
}

/// The chase made progress: the monster stands on the second tile of some
/// walkable path toward the player, with its viewshed marked dirty.
pub open spec fn chase_step_taken(
    m: GameMap, vs1: Seq<Option<Viewshed>>, ps1: Seq<Option<Position>>, mpos: Position,
    player_pos: Point, i: int,
) -> bool {
    exists|steps: Seq<usize>|
        valid_path(m, steps, idx_of(mpos.x as int, mpos.y as int),
            idx_of(player_pos.x as int, player_pos.y as int)) && steps.len() > 1
            && ps1[i] is Some
            && idx_of(ps1[i]->Some_0.x as int, ps1[i]->Some_0.y as int) == steps[1]
            && vs1[i] is Some && vs1[i]->Some_0.dirty
}

/// What one acting monster may do to its own slot: either nothing, or one
/// step onto an unblocked neighbouring interior tile with its viewshed
/// marked dirty.
pub open spec fn monster_step(
    m: GameMap,
    vs0: Option<Viewshed>,
    vs1: Option<Viewshed>,
    pos0: Option<Position>,
    pos1: Option<Position>,
) -> bool {
    (vs1 == vs0 && pos1 == pos0)
        || (pos1 is Some
            && tiles_adjacent(
                idx_of(pos0->Some_0.x as int, pos0->Some_0.y as int),
                idx_of(pos1->Some_0.x as int, pos1->Some_0.y as int))
            && !m.blocked@[idx_of(pos1->Some_0.x as int, pos1->Some_0.y as int)]
            && vs1 is Some && vs1->Some_0.dirty && vs1->Some_0.range == vs0->Some_0.range)
}

/// Decides and performs the move of the entity in slot `i`, if it is a live
/// monster that sees the player and stands more than one step away.
fn act_monster(
    alive: &Vec<bool>,
    monsters: &Column<Monster>,
    viewsheds: &mut Column<Viewshed>,
    positions: &mut Column<Position>,
    map: &GameMap,
    player_pos: Point,
    i: usize,
)
    requires
        map.wf(),
        alive@.len() == monsters@.len(),
        old(viewsheds)@.len() == monsters@.len(),
        old(positions)@.len() == monsters@.len(),
        i < monsters@.len(),
        positions_on_map(old(positions)@),
        on_map(player_pos.x as int, player_pos.y as int),
    ensures
        final(viewsheds)@.len() == old(viewsheds)@.len(),
        final(positions)@.len() == old(positions)@.len(),
        positions_on_map(final(positions)@),
        forall|j: int| 0 <= j < old(positions)@.len() && j != i
            ==> final(viewsheds)@[j] == old(viewsheds)@[j]
                && final(positions)@[j] == old(positions)@[j],
        !(alive@[i as int] && monsters@[i as int] is Some
            && old(viewsheds)@[i as int] is Some && old(positions)@[i as int] is Some)
            ==> final(viewsheds)@[i as int] == old(viewsheds)@[i as int]
                && final(positions)@[i as int] == old(positions)@[i as int],
        monster_step(*map, old(viewsheds)@[i as int], final(viewsheds)@[i as int],
            old(positions)@[i as int], final(positions)@[i as int]),
        ranges_ok(old(viewsheds)@) ==> ranges_ok(final(viewsheds)@),
        wants_to_chase(alive@, monsters@, old(viewsheds)@, old(positions)@, player_pos,
            i as int)
            && (exists|steps: Seq<usize>|
                valid_path(*map, steps,
                    idx_of(old(positions)@[i as int]->Some_0.x as int,
                        old(positions)@[i as int]->Some_0.y as int),
                    idx_of(player_pos.x as int, player_pos.y as int)))
            ==> chase_step_taken(*map, final(viewsheds)@, final(positions)@,
                old(positions)@[i as int]->Some_0, player_pos, i as int),
        // a monster that does not see the player, or already stands beside
        // it, keeps its place
        !wants_to_chase(alive@, monsters@, old(viewsheds)@, old(positions)@, player_pos,
            i as int)
            ==> final(viewsheds)@[i as int] == old(viewsheds)@[i as int]
                && final(positions)@[i as int] == old(positions)@[i as int],
{
    let acts: bool = alive[i] && monsters.contains(i) && viewsheds.contains(i)
        && positions.contains(i);
    if !acts {
        return;
    }
    let pos: Position = match positions.get(i) {
        Some(p) => *p,
        None => Position { x: 0, y: 0 },
    };
    let ax: i64 = pos.x as i64;
    let ay: i64 = pos.y as i64;
    let bx: i64 = player_pos.x as i64;
    let by: i64 = player_pos.y as i64;
    proof {
        assert(positions@[i as int] is Some);
        assert(on_map(positions@[i as int]->Some_0.x as int,
            positions@[i as int]->Some_0.y as int));
        assert(pos == positions@[i as int]->Some_0);
        assert(0 <= ax < 80 && 0 <= ay < 50 && 0 <= bx < 80 && 0 <= by < 50);
        assert(0 <= (ax - bx) * (ax - bx) <= 6400
            && 0 <= (ay - by) * (ay - by) <= 6400) by (nonlinear_arith)
            requires 0 <= ax < 80 && 0 <= ay < 50 && 0 <= bx < 80 && 0 <= by < 50;
    }
    let d2: i64 = (ax - bx) * (ax - bx) + (ay - by) * (ay - by);
    if d2 < 3 {
        // already adjacent: the combat system decides what happens next
        return;
    }
    let mut sees: bool = false;
    let mut vrange: i32 = 0;
    match viewsheds.get(i) {
        Some(v) => {
            vrange = v.range;
            let m: usize = v.tiles.len();
            let mut k: usize = 0;
            while k < m
                invariant
                    m == v.tiles@.len(),
                    k <= m,
                    sees == exists|k2: int|
                        0 <= k2 < k && v.tiles@[k2] == player_pos,
                decreases m - k,
            {
                let t = v.tiles[k];
                if t.x == player_pos.x && t.y == player_pos.y {
                    sees = true;
                    proof {
                        assert(v.tiles@[k as int] == player_pos);
                    }
                }
                proof {
                    if !sees && exists|k2: int|
                        0 <= k2 < k + 1 && v.tiles@[k2] == player_pos {
                        let k2 = choose|k2: int|
                            0 <= k2 < k + 1 && v.tiles@[k2] == player_pos;
                        assert(k2 == k as int);
                        assert(false);
                    }
                }
                k = k + 1;
            }
        }
        None => {}
    }
    if !sees {
        return;
    }
    let sidx = GameMap::xy_idx(pos.x, pos.y);
    let gidx = GameMap::xy_idx(player_pos.x, player_pos.y);
    let path = a_star_search(sidx, gidx, map);
    proof {
        // a path exists, so the search succeeded with at least two steps:
        // the monster's tile is not the player's, since they stand apart
        if exists|steps: Seq<usize>|
            valid_path(*map, steps, sidx as int, gidx as int) {
            assert(path.success);
            assert(sidx != gidx) by {
                if pos.x == player_pos.x && pos.y == player_pos.y {
                    assert(ax == bx && ay == by);
                    assert((ax - bx) * (ax - bx) == 0 && (ay - by) * (ay - by) == 0)
                        by (nonlinear_arith)
                        requires ax == bx && ay == by;
                } else {
                    lemma_idx_inj_path(pos.x as int, pos.y as int,
                        player_pos.x as int, player_pos.y as int);
                }
            }
            assert(path.steps@.len() > 1) by {
                if path.steps@.len() == 1 {
                    assert(path.steps@[0] == sidx && path.steps@.last() == gidx);
                }
            }
        }
    }
    if path.success && path.steps.len() > 1 {
        let step = path.steps[1];
        let nx: i32 = (step % MAPWIDTH) as i32;
        let ny: i32 = (step / MAPWIDTH) as i32;
        proof {
            assert(step < MAPCOUNT && !map.blocked@[step as int]);
            assert(in_interior(nx as int, ny as int));
            assert(idx_of(nx as int, ny as int) == step as int);
            assert(path.steps@[0] == sidx);
            assert(tiles_adjacent(path.steps@[0] as int, path.steps@[1] as int));
        }
        let new_tiles: Vec<Point> = match viewsheds.get(i) {
            Some(v) => v.tiles.clone(),
            None => Vec::new(),
        };
        positions.insert(i, Position { x: nx, y: ny });
        viewsheds.insert(i, Viewshed { tiles: new_tiles, range: vrange, dirty: true });
        proof {
            assert forall|j: int|
                0 <= j < positions@.len() && #[trigger] positions@[j] is Some
                implies on_map(positions@[j]->Some_0.x as int,
                    positions@[j]->Some_0.y as int) by {
                if j != i as int {
                    assert(old(positions)@[j] is Some);
                }
            }
        }
    }
}

/// Monster decision making.
pub struct MonsterAI {}

impl MonsterAI {
    /// Every live monster that sees the player and is not yet adjacent walks
    /// one step along a search path toward the player, onto an unblocked
    /// neighbouring interior tile, and marks its viewshed dirty; every other
    /// entity keeps its position and viewshed.  Positions stay on the map.
    pub fn run(
        alive: &Vec<bool>,
        monsters: &Column<Monster>,
        viewsheds: &mut Column<Viewshed>,
        positions: &mut Column<Position>,
        map: &GameMap,
        player_pos: Point,
    )
        requires
            map.wf(),
            alive@.len() == monsters@.len(),
            old(viewsheds)@.len() == monsters@.len(),
            old(positions)@.len() == monsters@.len(),
            positions_on_map(old(positions)@),
            on_map(player_pos.x as int, player_pos.y as int),
        ensures
            final(viewsheds)@.len() == old(viewsheds)@.len(),
            final(positions)@.len() == old(positions)@.len(),
            positions_on_map(final(positions)@),
            ranges_ok(old(viewsheds)@) ==> ranges_ok(final(viewsheds)@),
            forall|i: int|
                #![trigger monsters@[i]]
                0 <= i < alive@.len()
                    && !(alive@[i] && monsters@[i] is Some && old(viewsheds)@[i] is Some
                        && old(positions)@[i] is Some)
                    ==> final(viewsheds)@[i] == old(viewsheds)@[i]
                        && final(positions)@[i] == old(positions)@[i],
            forall|i: int| 0 <= i < alive@.len()
                ==> monster_step(*map, old(viewsheds)@[i], final(viewsheds)@[i],
                    old(positions)@[i], #[trigger] final(positions)@[i]),
            // a monster that sees the player from farther than one step, and
            // to whom some walkable path exists, takes a chase step
            forall|i: int|
                #![trigger wants_to_chase(alive@, monsters@, old(viewsheds)@, old(positions)@, player_pos, i)]
                wants_to_chase(alive@, monsters@, old(viewsheds)@, old(positions)@,
                    player_pos, i)
                    && (exists|steps: Seq<usize>|
                        valid_path(*map, steps,
                            idx_of(old(positions)@[i]->Some_0.x as int,
                                old(positions)@[i]->Some_0.y as int),
                            idx_of(player_pos.x as int, player_pos.y as int)))
                    ==> chase_step_taken(*map, final(viewsheds)@, final(positions)@,
                        old(positions)@[i]->Some_0, player_pos, i),
            // every entity that has no chase to make keeps viewshed and place
            forall|i: int|
                #![trigger wants_to_chase(alive@, monsters@, old(viewsheds)@, old(positions)@, player_pos, i)]
                0 <= i < alive@.len()
                    && !wants_to_chase(alive@, monsters@, old(viewsheds)@, old(positions)@,
                        player_pos, i)
                    ==> final(viewsheds)@[i] == old(viewsheds)@[i]
                        && final(positions)@[i] == old(positions)@[i],
    {
        let n: usize = alive.len();
        let mut i: usize = 0;
        while i < n
            invariant
                map.wf(),
                n == alive@.len(),
                monsters@.len() == n,
                viewsheds@.len() == n,
                positions@.len() == n,
                i <= n,
                positions_on_map(positions@),
                on_map(player_pos.x as int, player_pos.y as int),
                ranges_ok(old(viewsheds)@) ==> ranges_ok(viewsheds@),
                forall|j: int| i <= j < n
                    ==> viewsheds@[j] == old(viewsheds)@[j]
                        && positions@[j] == old(positions)@[j],
                forall|j: int|
                    #![trigger monsters@[j]]
                    0 <= j < i
                        && !(alive@[j] && monsters@[j] is Some && old(viewsheds)@[j] is Some
                            && old(positions)@[j] is Some)
                        ==> viewsheds@[j] == old(viewsheds)@[j]
                            && positions@[j] == old(positions)@[j],
                forall|j: int| 0 <= j < i
                    ==> monster_step(*map, old(viewsheds)@[j], viewsheds@[j],
                        old(positions)@[j], #[trigger] positions@[j]),
                forall|j: int|
                    #![trigger wants_to_chase(alive@, monsters@, old(viewsheds)@, old(positions)@, player_pos, j)]
                    0 <= j < i
                        && wants_to_chase(alive@, monsters@, old(viewsheds)@,
                            old(positions)@, player_pos, j)
                        && (exists|steps: Seq<usize>|
                            valid_path(*map, steps,
                                idx_of(old(positions)@[j]->Some_0.x as int,
                                    old(positions)@[j]->Some_0.y as int),
                                idx_of(player_pos.x as int, player_pos.y as int)))
                        ==> chase_step_taken(*map, viewsheds@, positions@,
                            old(positions)@[j]->Some_0, player_pos, j),
                forall|j: int|
                    #![trigger wants_to_chase(alive@, monsters@, old(viewsheds)@, old(positions)@, player_pos, j)]
                    0 <= j < i
                        && !wants_to_chase(alive@, monsters@, old(viewsheds)@,
                            old(positions)@, player_pos, j)
                        ==> viewsheds@[j] == old(viewsheds)@[j]
                            && positions@[j] == old(positions)@[j],
            decreases n - i,
        {
            let ghost pre_vs = viewsheds@;
            let ghost pre_pos = positions@;
            act_monster(alive, monsters, viewsheds, positions, map, player_pos, i);
            proof {
                assert(pre_vs[i as int] == old(viewsheds)@[i as int]);
                assert(pre_pos[i as int] == old(positions)@[i as int]);
            }
            i = i + 1;
        }
    }
}

} // verus!
