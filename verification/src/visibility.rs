//! Field-of-view: ray-cast visibility out to each entity's sight range, and
//! the per-turn system that recomputes dirty viewsheds and maintains the
//! player's fog of war.

use vstd::prelude::*;
use vstd::arithmetic::div_mod::{lemma_div_is_ordered, lemma_div_multiples_vanish};
use crate::components::{Player, Point, Position, Viewshed};
use crate::ecs::Column;
use crate::map::{GameMap, idx_of, on_map, MAPCOUNT};

verus! {

pub open spec fn abs_of(a: int) -> int {
    if a < 0 { -a } else { a }
}

/// Squared Euclidean distance between two tiles.
pub open spec fn dist2(ax: int, ay: int, bx: int, by: int) -> int {
    (bx - ax) * (bx - ax) + (by - ay) * (by - ay)
}

/// Number of samples on the ray: the larger coordinate difference.
pub open spec fn steps_of(dx: int, dy: int) -> int {
    if abs_of(dx) >= abs_of(dy) { abs_of(dx) } else { abs_of(dy) }
}

/// The `t`-th sample of a ray coordinate, stepping from `o` by `d` over
/// `steps` equal parts.
pub open spec fn sample_of(o: int, d: int, t: int, steps: int) -> int {
    if d >= 0 { o + (d * t) / steps } else { o - ((-d) * t) / steps }
}

/// Line of sight: no wall stands at any intermediate sample of the straight
/// line from (ox, oy) to (px, py).  The endpoints themselves do not block.
pub open spec fn spec_los(m: GameMap, ox: int, oy: int, px: int, py: int) -> bool {
    forall|t: int|
        1 <= t < steps_of(px - ox, py - oy)
            ==> !(#[trigger] m.tiles@[idx_of(
                sample_of(ox, px - ox, t, steps_of(px - ox, py - oy)),
                sample_of(oy, py - oy, t, steps_of(px - ox, py - oy)),
            )] is Wall)
}

/// Tile (px, py) is visible from (ox, oy) with sight range `range`.
pub open spec fn spec_visible_from(
    m: GameMap, ox: int, oy: int, range: int, px: int, py: int,
) -> bool {
    on_map(px, py) && dist2(ox, oy, px, py) <= range * range && spec_los(m, ox, oy, px, py)
}

/// If the squared distance is within `r * r`, each coordinate difference is
/// within `r`.
proof fn lemma_sq_le(a: int, r: int)
    requires
        0 <= r,
        a * a <= r * r,
    ensures
        -r <= a <= r,
{
    assert(-r <= a <= r) by (nonlinear_arith)
        requires 0 <= r && a * a <= r * r;
}

proof fn lemma_dist_bound(ax: int, ay: int, bx: int, by: int, r: int)
    requires
        0 <= r,
        dist2(ax, ay, bx, by) <= r * r,
    ensures
        abs_of(bx - ax) <= r,
        abs_of(by - ay) <= r,
{
    assert((bx - ax) * (bx - ax) >= 0 && (by - ay) * (by - ay) >= 0) by (nonlinear_arith);
    lemma_sq_le(bx - ax, r);
    lemma_sq_le(by - ay, r);
}

/// True when the straight line between two on-map points is clear of walls.
fn line_clear(map: &GameMap, ox: i32, oy: i32, px: i32, py: i32) -> (r: bool)
    requires
        map.wf(),
        on_map(ox as int, oy as int),
        on_map(px as int, py as int),
    ensures
        r == spec_los(*map, ox as int, oy as int, px as int, py as int),
{
    let dx: i32 = px - ox;
    let dy: i32 = py - oy;
    let adx: i32 = if dx < 0 { -dx } else { dx };
    let ady: i32 = if dy < 0 { -dy } else { dy };
    let steps: i32 = if adx >= ady { adx } else { ady };
    let mut clear: bool = true;
    let mut t: i32 = 1;
    while t < steps
        invariant
            map.wf(),
            on_map(ox as int, oy as int),
            on_map(px as int, py as int),
            dx == px - ox,
            dy == py - oy,
            adx == abs_of(dx as int),
            ady == abs_of(dy as int),
            steps == steps_of(dx as int, dy as int),
            1 <= t <= steps || (t == 1 && steps < 1),
            clear == (forall|u: int|
                1 <= u < t ==> !(#[trigger] map.tiles@[idx_of(
                    sample_of(ox as int, dx as int, u, steps as int),
                    sample_of(oy as int, dy as int, u, steps as int),
                )] is Wall)),
        decreases steps - t,
    {
        proof {
            assert(adx <= 79 && ady <= 49 && steps <= 79);
            assert(adx * t <= adx * steps && ady * t <= ady * steps
                && adx * t <= 79 * 79 && ady * t <= 79 * 79
                && 0 <= adx * t && 0 <= ady * t) by (nonlinear_arith)
                requires 0 <= adx <= 79 && 0 <= ady <= 79 && 1 <= t <= steps && steps <= 79;
            lemma_div_is_ordered((adx * t) as int, (adx * steps) as int, steps as int);
            lemma_div_is_ordered((ady * t) as int, (ady * steps) as int, steps as int);
            lemma_div_multiples_vanish(adx as int, steps as int);
            lemma_div_multiples_vanish(ady as int, steps as int);
            lemma_div_is_ordered(0, (adx * t) as int, steps as int);
            lemma_div_is_ordered(0, (ady * t) as int, steps as int);
        }
        let qx: i32 = (adx * t) / steps;
        let qy: i32 = (ady * t) / steps;
        let sx: i32 = if dx >= 0 { ox + qx } else { ox - qx };
        let sy: i32 = if dy >= 0 { oy + qy } else { oy - qy };
        proof {
            assert(sx == sample_of(ox as int, dx as int, t as int, steps as int));
            assert(sy == sample_of(oy as int, dy as int, t as int, steps as int));
            assert(on_map(sx as int, sy as int));
        }
        let idx = GameMap::xy_idx(sx, sy);
        if map.is_opaque(idx) {
            clear = false;
        }
        t = t + 1;
    }
    clear
}

/// Computes the set of tiles visible from (ox, oy) out to `range`: exactly
/// those on-map tiles within Euclidean distance `range` to which the line of
/// sight is clear.
pub fn field_of_view(ox: i32, oy: i32, range: i32, map: &GameMap) -> (tiles: Vec<Point>)
    requires
        map.wf(),
        on_map(ox as int, oy as int),
        0 <= range <= 60,
    ensures
        forall|k: int| 0 <= k < tiles@.len()
            ==> spec_visible_from(*map, ox as int, oy as int, range as int,
                #[trigger] tiles@[k].x as int, tiles@[k].y as int),
        forall|px: i32, py: i32|
            #![trigger spec_visible_from(*map, ox as int, oy as int, range as int, px as int, py as int)]
            spec_visible_from(*map, ox as int, oy as int, range as int, px as int, py as int)
                ==> tiles@.contains(Point { x: px, y: py }),
{
    let mut tiles: Vec<Point> = Vec::new();
    proof {
        assert forall|px: i32, py: i32|
            #![trigger spec_visible_from(*map, ox as int, oy as int, range as int, px as int, py as int)]
            spec_visible_from(*map, ox as int, oy as int, range as int, px as int, py as int)
            implies oy - range <= py as int <= oy + range
                && ox - range <= px as int <= ox + range by {
            lemma_dist_bound(ox as int, oy as int, px as int, py as int, range as int);
        }
    }
    let mut dy: i32 = -range;
    while dy <= range
        invariant
            map.wf(),
            on_map(ox as int, oy as int),
            0 <= range <= 60,
            -range <= dy <= range + 1,
            forall|k: int| 0 <= k < tiles@.len()
                ==> spec_visible_from(*map, ox as int, oy as int, range as int,
                    #[trigger] tiles@[k].x as int, tiles@[k].y as int),
            forall|px: i32, py: i32|
                #![trigger spec_visible_from(*map, ox as int, oy as int, range as int, px as int, py as int)]
                spec_visible_from(*map, ox as int, oy as int, range as int, px as int, py as int)
                    && py < oy + dy ==> tiles@.contains(Point { x: px, y: py }),
        decreases range + 1 - dy,
    {
        let y: i32 = oy + dy;
        proof {
            // visible tiles all lie within the scanned square
            assert forall|px: i32, py: i32|
                #![trigger spec_visible_from(*map, ox as int, oy as int, range as int, px as int, py as int)]
                spec_visible_from(*map, ox as int, oy as int, range as int, px as int, py as int)
                implies oy - range <= py as int <= oy + range
                    && ox - range <= px as int <= ox + range by {
                lemma_dist_bound(ox as int, oy as int, px as int, py as int, range as int);
            }
        }
        let mut dx: i32 = -range;
        while dx <= range
            invariant
                map.wf(),
                on_map(ox as int, oy as int),
                0 <= range <= 60,
                -range <= dy <= range,
                y == oy + dy,
                -range <= dx <= range + 1,
                forall|k: int| 0 <= k < tiles@.len()
                    ==> spec_visible_from(*map, ox as int, oy as int, range as int,
                        #[trigger] tiles@[k].x as int, tiles@[k].y as int),
                forall|px: i32, py: i32|
                    #![trigger spec_visible_from(*map, ox as int, oy as int, range as int, px as int, py as int)]
                    spec_visible_from(*map, ox as int, oy as int, range as int, px as int, py as int)
                        && (py < y || (py == y && px < ox + dx))
                        ==> tiles@.contains(Point { x: px, y: py }),
            decreases range + 1 - dx,
        {
            let x: i32 = ox + dx;
            let ghost pre_tiles = tiles@;
            proof {
                assert(0 <= dx * dx <= 3600 && 0 <= dy * dy <= 3600
                    && 0 <= range * range <= 3600) by (nonlinear_arith)
                    requires -60 <= dx <= 60 && -60 <= dy <= 60 && 0 <= range <= 60;
            }
            if x >= 0 && x < map.width && y >= 0 && y < map.height
                && dx * dx + dy * dy <= range * range {
                if line_clear(map, ox, oy, x, y) {
                    tiles.push(Point { x, y });
                }
            }
            proof {
                assert forall|px: i32, py: i32|
                    #![trigger spec_visible_from(*map, ox as int, oy as int, range as int, px as int, py as int)]
                    spec_visible_from(*map, ox as int, oy as int, range as int,
                        px as int, py as int)
                        && ((py as int) < (y as int)
                            || (py as int == y as int && (px as int) < ox as int + dx + 1))
                    implies tiles@.contains(Point { x: px, y: py }) by {
                    let p = (Point { x: px, y: py });
                    if py == y && px == ox + dx {
                        lemma_dist_bound(ox as int, oy as int, px as int, py as int,
                            range as int);
                        assert(tiles@ == pre_tiles.push(p));
                        assert(tiles@[tiles@.len() - 1] == p);
                        assert(tiles@.contains(p));
                    } else {
                        assert(pre_tiles.contains(p));
                        let j = choose|j: int| 0 <= j < pre_tiles.len() && pre_tiles[j] == p;
                        assert(tiles@[j] == p);
                        assert(tiles@.contains(p));
                    }
                }
            }
            dx = dx + 1;
        }
        proof {
            assert forall|px: i32, py: i32|
                spec_visible_from(*map, ox as int, oy as int, range as int, px as int, py as int)
                    && py < oy + dy + 1
                implies tiles@.contains(Point { x: px, y: py }) by {
                if py == oy + dy {
                    lemma_dist_bound(ox as int, oy as int, px as int, py as int, range as int);
                }
            }
        }
        dy = dy + 1;
    }
    proof {
        assert forall|px: i32, py: i32|
            spec_visible_from(*map, ox as int, oy as int, range as int, px as int, py as int)
            implies tiles@.contains(Point { x: px, y: py }) by {
            lemma_dist_bound(ox as int, oy as int, px as int, py as int, range as int);
        }
    }
    tiles
}

/// True when some tile of `tiles` has linear index `idx`.
pub open spec fn in_tiles(tiles: Seq<Point>, idx: int) -> bool {
    exists|k: int|
        0 <= k < tiles.len() && #[trigger] idx_of(tiles[k].x as int, tiles[k].y as int) == idx
}

/// Every present position lies on the map.
pub open spec fn positions_on_map(ps: Seq<Option<Position>>) -> bool {
    forall|i: int| 0 <= i < ps.len() && #[trigger] ps[i] is Some
        ==> on_map(ps[i]->Some_0.x as int, ps[i]->Some_0.y as int)
}

/// Every present viewshed has a modest, non-negative sight range.
pub open spec fn ranges_ok(vs: Seq<Option<Viewshed>>) -> bool {
    forall|i: int| 0 <= i < vs.len() && #[trigger] vs[i] is Some
        ==> 0 <= vs[i]->Some_0.range <= 60
}

/// Entity `i` has a dirty viewshed and a position, so a recompute is due.
pub open spec fn needs_recompute(
    vs: Seq<Option<Viewshed>>, ps: Seq<Option<Position>>, i: int,
) -> bool {
    vs[i] is Some && ps[i] is Some && vs[i]->Some_0.dirty
}

/// The fog-of-war grids of `m` match the viewshed `tiles`, starting from the
/// revealed grid of `m0`.
pub open spec fn fog_matches(m: GameMap, m0: GameMap, tiles: Seq<Point>) -> bool {
    forall|j: int| 0 <= j < MAPCOUNT as int
        ==> #[trigger] m.visible@[j] == in_tiles(tiles, j)
            && m.revealed@[j] == (m0.revealed@[j] || in_tiles(tiles, j))
}

/// Rewrites the fog-of-war grids from the player's freshly computed
/// viewshed: a tile is currently visible exactly when the viewshed holds it,
/// and tiles once revealed stay revealed.
fn apply_player_visibility(map: &mut GameMap, tiles: &Vec<Point>)
    requires
        old(map).wf(),
        forall|k: int| 0 <= k < tiles@.len()
            ==> on_map(#[trigger] tiles@[k].x as int, tiles@[k].y as int),
    ensures
        final(map).wf(),
        final(map).tiles@ == old(map).tiles@,
        final(map).blocked@ == old(map).blocked@,
        final(map).rooms@ == old(map).rooms@,
        final(map).contents@ == old(map).contents@,
        final(map).depth == old(map).depth,
        fog_matches(*final(map), *old(map), tiles@),
{
    map.visible = crate::map::fill(false, MAPCOUNT);
    let n: usize = tiles.len();
    let mut k: usize = 0;
    while k < n
        invariant
            map.wf(),
            n == tiles@.len(),
            k <= n,
            forall|j: int| 0 <= j < tiles@.len()
                ==> on_map(#[trigger] tiles@[j].x as int, tiles@[j].y as int),
            map.tiles@ == old(map).tiles@,
            map.blocked@ == old(map).blocked@,
            map.rooms@ == old(map).rooms@,
            map.contents@ == old(map).contents@,
            map.depth == old(map).depth,
            forall|j: int| 0 <= j < MAPCOUNT as int
                ==> #[trigger] map.visible@[j] == in_tiles(tiles@.take(k as int), j)
                    && map.revealed@[j]
                        == (old(map).revealed@[j] || in_tiles(tiles@.take(k as int), j)),
        decreases n - k,
    {
        let p = tiles[k];
        let idx = GameMap::xy_idx(p.x, p.y);
        map.visible.set(idx, true);
        map.revealed.set(idx, true);
        proof {
            let prefix = tiles@.take(k as int);
            let longer = tiles@.take(k as int + 1);
            assert(longer =~= prefix.push(tiles@[k as int]));
            assert forall|j: int| 0 <= j < MAPCOUNT as int implies
                #[trigger] in_tiles(longer, j)
                    == (in_tiles(prefix, j) || j == idx_of(p.x as int, p.y as int)) by {
                if in_tiles(longer, j) {
                    let m = choose|m: int|
                        0 <= m < longer.len()
                            && #[trigger] idx_of(longer[m].x as int, longer[m].y as int) == j;
                    if m < k as int {
                        assert(idx_of(prefix[m].x as int, prefix[m].y as int) == j);
                        assert(in_tiles(prefix, j));
                    } else {
                        assert(longer[m] == p);
                    }
                }
                if in_tiles(prefix, j) {
                    let m = choose|m: int|
                        0 <= m < prefix.len()
                            && #[trigger] idx_of(prefix[m].x as int, prefix[m].y as int) == j;
                    assert(idx_of(longer[m].x as int, longer[m].y as int) == j);
                    assert(in_tiles(longer, j));
                }
                if j == idx_of(p.x as int, p.y as int) {
                    assert(idx_of(longer[k as int].x as int, longer[k as int].y as int) == j);
                    assert(in_tiles(longer, j));
                }
            }
        }
        k = k + 1;
    }
    proof {
        assert(tiles@.take(n as int) == tiles@);
    }
}

/// The visibility engine.
pub struct VisibilitySystem {}

impl VisibilitySystem {
    /// For every entity whose viewshed is dirty and that stands somewhere,
    /// recomputes the set of visible tiles, which all lie on the map within
    /// the entity's sight range; a clean viewshed is left exactly as it was.
    /// When the recomputed viewshed belongs to the player, the map's
    /// fog-of-war grids are rewritten from it: a tile is currently visible
    /// exactly when the player now sees it, and revealed tiles stay revealed.
    #[verifier::rlimit(60)]
    pub fn run(
        viewsheds: &mut Column<Viewshed>,
        positions: &Column<Position>,
        players: &Column<Player>,
        map: &mut GameMap,
    )
        requires
            old(map).wf(),
            old(viewsheds)@.len() == positions@.len(),
            players@.len() == positions@.len(),
            positions_on_map(positions@),
            ranges_ok(old(viewsheds)@),
            // at most one entity is the player
            forall|a: int, b: int|
                0 <= a < players@.len() && 0 <= b < players@.len()
                    && #[trigger] players@[a] is Some && #[trigger] players@[b] is Some
                    ==> a == b,
        ensures
            final(map).wf(),
            final(viewsheds)@.len() == old(viewsheds)@.len(),
            ranges_ok(final(viewsheds)@),
            final(map).tiles@ == old(map).tiles@,
            final(map).blocked@ == old(map).blocked@,
            final(map).rooms@ == old(map).rooms@,
            final(map).contents@ == old(map).contents@,
            final(map).depth == old(map).depth,
            // clean or position-less viewsheds are untouched
            forall|j: int|
                0 <= j < old(viewsheds)@.len()
                    && !needs_recompute(old(viewsheds)@, positions@, j)
                    ==> final(viewsheds)@[j] == old(viewsheds)@[j],
            // dirty viewsheds are recomputed: clean afterwards, range kept,
            // and every tile in the result is on the map within range of the
            // entity's position
            forall|j: int|
                0 <= j < old(viewsheds)@.len()
                    && #[trigger] needs_recompute(old(viewsheds)@, positions@, j)
                    ==> final(viewsheds)@[j] is Some
                        && !final(viewsheds)@[j]->Some_0.dirty
                        && final(viewsheds)@[j]->Some_0.range
                            == old(viewsheds)@[j]->Some_0.range
                        && viewshed_sound(*old(map), positions@[j]->Some_0,
                            old(viewsheds)@[j]->Some_0.range,
                            final(viewsheds)@[j]->Some_0.tiles@)
                        && viewshed_complete(*old(map), positions@[j]->Some_0,
                            old(viewsheds)@[j]->Some_0.range,
                            final(viewsheds)@[j]->Some_0.tiles@),
            // the player's recompute rewrites the fog of war; otherwise the
            // fog grids are untouched
            forall|p: int|
                0 <= p < players@.len() && #[trigger] players@[p] is Some
                    && needs_recompute(old(viewsheds)@, positions@, p)
                    ==> fog_matches(*final(map), *old(map),
                        final(viewsheds)@[p]->Some_0.tiles@),
            !(exists|p: int|
                0 <= p < players@.len() && #[trigger] players@[p] is Some
                    && needs_recompute(old(viewsheds)@, positions@, p))
                ==> final(map).visible@ == old(map).visible@
                    && final(map).revealed@ == old(map).revealed@,
    {
        let n: usize = viewsheds.len();
        let mut i: usize = 0;
        while i < n
            invariant
                map.wf(),
                n == old(viewsheds)@.len(),
                viewsheds@.len() == n,
                positions@.len() == n,
                players@.len() == n,
                i <= n,
                positions_on_map(positions@),
                ranges_ok(old(viewsheds)@),
                forall|a: int, b: int|
                    0 <= a < n && 0 <= b < n
                        && #[trigger] players@[a] is Some && #[trigger] players@[b] is Some
                        ==> a == b,
                map.tiles@ == old(map).tiles@,
                map.blocked@ == old(map).blocked@,
                map.rooms@ == old(map).rooms@,
                map.contents@ == old(map).contents@,
                map.depth == old(map).depth,
                ranges_ok(viewsheds@),
                forall|j: int| i <= j < n ==> viewsheds@[j] == old(viewsheds)@[j],
                forall|j: int|
                    0 <= j < i && !needs_recompute(old(viewsheds)@, positions@, j)
                        ==> viewsheds@[j] == old(viewsheds)@[j],
                forall|j: int|
                    0 <= j < i && #[trigger] needs_recompute(old(viewsheds)@, positions@, j)
                        ==> viewsheds@[j] is Some
                            && !viewsheds@[j]->Some_0.dirty
                            && viewsheds@[j]->Some_0.range
                                == old(viewsheds)@[j]->Some_0.range
                            && viewshed_sound(*old(map), positions@[j]->Some_0,
                                old(viewsheds)@[j]->Some_0.range,
                                viewsheds@[j]->Some_0.tiles@)
                            && viewshed_complete(*old(map), positions@[j]->Some_0,
                                old(viewsheds)@[j]->Some_0.range,
                                viewsheds@[j]->Some_0.tiles@),
                forall|p: int|
                    0 <= p < i && #[trigger] players@[p] is Some
                        && needs_recompute(old(viewsheds)@, positions@, p)
                        ==> fog_matches(*map, *old(map), viewsheds@[p]->Some_0.tiles@),
                !(exists|p: int|
                    0 <= p < i && #[trigger] players@[p] is Some
                        && needs_recompute(old(viewsheds)@, positions@, p))
                    ==> map.visible@ == old(map).visible@
                        && map.revealed@ == old(map).revealed@,
            decreases n - i,
        {
            let ghost map0 = *map;
            let mut do_recompute: bool = false;
            let mut posx: i32 = 0;
            let mut posy: i32 = 0;
            let mut vrange: i32 = 0;
            match viewsheds.get(i) {
                Some(v) => {
                    if v.dirty {
                        match positions.get(i) {
                            Some(p) => {
                                do_recompute = true;
                                posx = p.x;
                                posy = p.y;
                                vrange = v.range;
                            }
                            None => {}
                        }
                    }
                }
                None => {}
            }
            if do_recompute {
                let new_tiles = field_of_view(posx, posy, vrange, map);
                proof {
                    assert forall|px: i32, py: i32|
                        #![trigger spec_visible_from(*old(map), posx as int, posy as int, vrange as int, px as int, py as int)]
                        spec_visible_from(*old(map), posx as int, posy as int,
                            vrange as int, px as int, py as int)
                        implies new_tiles@.contains(Point { x: px, y: py }) by {
                        lemma_visibility_same_tiles(*old(map), *map, posx as int,
                            posy as int, vrange as int, px as int, py as int);
                    }
                }
                viewsheds.insert(i, Viewshed { tiles: new_tiles, range: vrange, dirty: false });
                if players.contains(i) {
                    match viewsheds.get(i) {
                        Some(v) => {
                            apply_player_visibility(map, &v.tiles);
                        }
                        None => {}
                    }
                }
                proof {
                    assert forall|p: int|
                        0 <= p < i + 1 && #[trigger] players@[p] is Some
                            && needs_recompute(old(viewsheds)@, positions@, p)
                        implies fog_matches(*map, *old(map),
                            viewsheds@[p]->Some_0.tiles@) by {
                        if p == i as int {
                            assert(players@[i as int] is Some);
                            // no earlier player exists, so the fog rewrite
                            // started from the original revealed grid
                            assert(!(exists|p2: int|
                                0 <= p2 < i && #[trigger] players@[p2] is Some
                                    && needs_recompute(old(viewsheds)@, positions@, p2)));
                            assert(map0.revealed@ == old(map).revealed@);
                            assert(fog_matches(*map, map0,
                                viewsheds@[i as int]->Some_0.tiles@));
                            assert forall|j: int| 0 <= j < MAPCOUNT as int
                                implies #[trigger] map.visible@[j]
                                    == in_tiles(viewsheds@[i as int]->Some_0.tiles@, j)
                                    && map.revealed@[j] == (old(map).revealed@[j]
                                        || in_tiles(viewsheds@[i as int]->Some_0.tiles@,
                                            j)) by {
                                assert(map.visible@[j]
                                    == in_tiles(viewsheds@[i as int]->Some_0.tiles@, j));
                                assert(map.revealed@[j] == (map0.revealed@[j]
                                    || in_tiles(viewsheds@[i as int]->Some_0.tiles@, j)));
                            }
                        } else {
                            // the player is unique, so this slot is not one,
                            // the fog grids are untouched this iteration, and
                            // the earlier fact carries over
                            assert(!(players@[i as int] is Some));
                            assert(map.visible@ == map0.visible@
                                && map.revealed@ == map0.revealed@);
                            assert(viewsheds@[p] is Some);
                            assert(fog_matches(map0, *old(map),
                                viewsheds@[p]->Some_0.tiles@));
                        }
                    }
                }
            }
            i = i + 1;
        }
    }
}

/// Every tile of `tiles` lies on the map within `range` of `pos`.
pub open spec fn viewshed_sound(m: GameMap, pos: Position, range: i32, tiles: Seq<Point>) -> bool {
    forall|k: int| 0 <= k < tiles.len()
        ==> on_map(#[trigger] tiles[k].x as int, tiles[k].y as int)
            && dist2(pos.x as int, pos.y as int, tiles[k].x as int, tiles[k].y as int)
                <= range * range
}

/// Every tile visible from `pos` within `range` is in `tiles`.
pub open spec fn viewshed_complete(
    m: GameMap, pos: Position, range: i32, tiles: Seq<Point>,
) -> bool {
    forall|px: i32, py: i32|
        #![trigger spec_visible_from(m, pos.x as int, pos.y as int, range as int, px as int, py as int)]
        spec_visible_from(m, pos.x as int, pos.y as int, range as int, px as int, py as int)
            ==> tiles.contains(Point { x: px, y: py })
}

/// Visibility reads the tile grid alone, so two maps with equal tiles agree
/// on what can be seen.
pub proof fn lemma_visibility_same_tiles(
    m1: GameMap, m2: GameMap, ox: int, oy: int, range: int, px: int, py: int,
)
    requires
        m1.tiles@ == m2.tiles@,
    ensures
        spec_visible_from(m1, ox, oy, range, px, py)
            == spec_visible_from(m2, ox, oy, range, px, py),
{
    assert forall|t: int|
        1 <= t < steps_of(px - ox, py - oy)
        implies #[trigger] m1.tiles@[idx_of(
            sample_of(ox, px - ox, t, steps_of(px - ox, py - oy)),
            sample_of(oy, py - oy, t, steps_of(px - ox, py - oy)),
        )] == m2.tiles@[idx_of(
            sample_of(ox, px - ox, t, steps_of(px - ox, py - oy)),
            sample_of(oy, py - oy, t, steps_of(px - ox, py - oy)),
        )] by {}
    assert(spec_los(m1, ox, oy, px, py) == spec_los(m2, ox, oy, px, py)) by {
        if spec_los(m1, ox, oy, px, py) {
            assert forall|t: int|
                1 <= t < steps_of(px - ox, py - oy)
                implies !(#[trigger] m2.tiles@[idx_of(
                    sample_of(ox, px - ox, t, steps_of(px - ox, py - oy)),
                    sample_of(oy, py - oy, t, steps_of(px - ox, py - oy)),
                )] is Wall) by {}
        }
        if spec_los(m2, ox, oy, px, py) {
            assert forall|t: int|
                1 <= t < steps_of(px - ox, py - oy)
                implies !(#[trigger] m1.tiles@[idx_of(
                    sample_of(ox, px - ox, t, steps_of(px - ox, py - oy)),
                    sample_of(oy, py - oy, t, steps_of(px - ox, py - oy)),
                )] is Wall) by {}
        }
    }
}

} // verus!
