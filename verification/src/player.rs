//! The player's own actions: moving (or bumping into something worth
//! attacking), resting, picking things up, and finding the way down.

use vstd::prelude::*;
use crate::components::{
    CombatStats, Item, Monster, Point, Position, Viewshed, WantsToMelee, WantsToPickupItem,
};
use crate::ecs::{Column, EntityId};
use crate::gamelog::GameLog;
use crate::map::{GameMap, idx_of, on_map, TileType, MAPCOUNT, MAPHEIGHT, MAPWIDTH};
use crate::visibility::positions_on_map;

verus! {

/// The player handle is live and the player can act bodily: it stands
/// somewhere and has eyes.
pub open spec fn player_embodied(
    alive: Seq<bool>, gens: Seq<u64>, ps: Seq<Option<Position>>, vs: Seq<Option<Viewshed>>,
    player: EntityId,
) -> bool {
    &&& player.idx < alive.len()
    &&& alive[player.idx as int]
    &&& gens[player.idx as int] == player.gen
    &&& ps[player.idx as int] is Some
    &&& vs[player.idx as int] is Some
}

/// Some occupant of tile `j` has combat stats, so bumping into the tile
/// means attacking.
pub open spec fn tile_has_target(
    m: GameMap, stats: Seq<Option<CombatStats>>, j: int,
) -> bool {
    exists|k: int|
        0 <= k < m.contents@[j]@.len()
            && (#[trigger] m.contents@[j]@[k]).idx < stats.len()
            && stats[m.contents@[j]@[k].idx as int] is Some
}

/// Where the player may step: anywhere on the map but the north and west
/// border columns, as the movement bounds check admits the far edges.
pub open spec fn move_in_bounds(x: int, y: int) -> bool {
    1 <= x < MAPWIDTH as int && 1 <= y < MAPHEIGHT as int
}


/// The exact outcome of one attempted player step: out of bounds or
/// disembodied does nothing; a tile with a fighter on it draws a melee
/// intent; an open tile moves the player, dirties its viewshed and drags the
/// shared position along; a blocked tile does nothing.
pub open spec fn move_outcome(
    dx: int,
    dy: int,
    alive: Seq<bool>,
    gens: Seq<u64>,
    player: EntityId,
    m: GameMap,
    stats: Seq<Option<CombatStats>>,
    pos0: Seq<Option<Position>>,
    pos1: Seq<Option<Position>>,
    vs0: Seq<Option<Viewshed>>,
    vs1: Seq<Option<Viewshed>>,
    wm0: Seq<Option<WantsToMelee>>,
    wm1: Seq<Option<WantsToMelee>>,
    pp0: Point,
    pp1: Point,
) -> bool {
    let p = player.idx as int;
    let px = pos0[p]->Some_0.x as int;
    let py = pos0[p]->Some_0.y as int;
    let destx = px + dx;
    let desty = py + dy;
    if !player_embodied(alive, gens, pos0, vs0, player) || !move_in_bounds(destx, desty) {
        pos1 == pos0 && vs1 == vs0 && wm1 == wm0 && pp1 == pp0
    } else if tile_has_target(m, stats, idx_of(destx, desty)) {
        pos1 == pos0 && vs1 == vs0 && pp1 == pp0
            && exists|k: int|
                0 <= k < m.contents@[idx_of(destx, desty)]@.len()
                    && wm1 == wm0.update(p, Some(WantsToMelee {
                        target: #[trigger] m.contents@[idx_of(destx, desty)]@[k],
                    }))
                    && m.contents@[idx_of(destx, desty)]@[k].idx < alive.len()
                    && stats[m.contents@[idx_of(destx, desty)]@[k].idx as int] is Some
    } else if !m.blocked@[idx_of(destx, desty)] {
        pos1 == pos0.update(p, Some(Position { x: destx as i32, y: desty as i32 }))
            && wm1 == wm0
            && vs1[p] is Some
            && vs1[p]->Some_0.dirty
            && vs1[p]->Some_0.range == vs0[p]->Some_0.range
            && (forall|j: int| 0 <= j < alive.len() && j != p ==> vs1[j] == vs0[j])
            && pp1.x == destx && pp1.y == desty
    } else {
        pos1 == pos0 && vs1 == vs0 && wm1 == wm0 && pp1 == pp0
    }
}

/// Tries to move the player by one step.  Walking into a tile occupied by
/// something with combat stats raises a melee intent against it instead;
/// walking into a blocked tile does nothing; otherwise the player moves,
/// its viewshed goes dirty, and the shared player-position resource follows.
pub fn try_move_player(
    dx: i32,
    dy: i32,
    alive: &Vec<bool>,
    gens: &Vec<u64>,
    player: EntityId,
    positions: &mut Column<Position>,
    viewsheds: &mut Column<Viewshed>,
    combat_stats: &Column<CombatStats>,
    wants_melee: &mut Column<WantsToMelee>,
    map: &GameMap,
    player_pos: &mut Point,
)
    requires
        map.wf(),
        gens@.len() == alive@.len(),
        old(positions)@.len() == alive@.len(),
        old(viewsheds)@.len() == alive@.len(),
        combat_stats@.len() == alive@.len(),
        old(wants_melee)@.len() == alive@.len(),
        positions_on_map(old(positions)@),
        -1 <= dx <= 1,
        -1 <= dy <= 1,
    ensures
        final(positions)@.len() == old(positions)@.len(),
        final(viewsheds)@.len() == old(viewsheds)@.len(),
        final(wants_melee)@.len() == old(wants_melee)@.len(),
        positions_on_map(final(positions)@),
        crate::visibility::ranges_ok(old(viewsheds)@)
            ==> crate::visibility::ranges_ok(final(viewsheds)@),
        move_outcome(dx as int, dy as int, alive@, gens@, player, *map, combat_stats@,
            old(positions)@, final(positions)@, old(viewsheds)@, final(viewsheds)@,
            old(wants_melee)@, final(wants_melee)@, *old(player_pos), *final(player_pos)),
{
    let embodied: bool = player.idx < alive.len() && alive[player.idx]
        && gens[player.idx] == player.gen && positions.contains(player.idx)
        && viewsheds.contains(player.idx);
    if !embodied {
        return;
    }
    let pos: Position = match positions.get(player.idx) {
        Some(p) => *p,
        None => Position { x: 0, y: 0 },
    };
    proof {
        assert(positions@[player.idx as int] is Some);
        assert(on_map(positions@[player.idx as int]->Some_0.x as int,
            positions@[player.idx as int]->Some_0.y as int));
    }
    let destx: i32 = pos.x + dx;
    let desty: i32 = pos.y + dy;
    if destx < 1 || destx > map.width - 1 || desty < 1 || desty > map.height - 1 {
        return;
    }
    let dest_idx = GameMap::xy_idx(destx, desty);
    let tile = &map.contents[dest_idx];
    let m: usize = tile.len();
    let mut k: usize = 0;
    while k < m
        invariant
            map.wf(),
            combat_stats@.len() == alive@.len(),
            dest_idx < MAPCOUNT,
            tile@ == map.contents@[dest_idx as int]@,
            m == tile@.len(),
            k <= m,
            player.idx < old(wants_melee)@.len(),
            wants_melee@ == old(wants_melee)@,
            positions@ == old(positions)@,
            viewsheds@ == old(viewsheds)@,
            player_pos == old(player_pos),
            positions_on_map(positions@),
            player_embodied(alive@, gens@, old(positions)@, old(viewsheds)@, player),
            destx == old(positions)@[player.idx as int]->Some_0.x + dx,
            desty == old(positions)@[player.idx as int]->Some_0.y + dy,
            move_in_bounds(destx as int, desty as int),
            dest_idx == idx_of(destx as int, desty as int),
            forall|k2: int| 0 <= k2 < k
                ==> !((#[trigger] tile@[k2]).idx < alive@.len()
                    && combat_stats@[tile@[k2].idx as int] is Some),
        decreases m - k,
    {
        let t = tile[k];
        if t.idx < alive.len() && combat_stats.contains(t.idx) {
            wants_melee.insert(player.idx, WantsToMelee { target: t });
            proof {
                assert(0 <= k < map.contents@[dest_idx as int]@.len()
                    && map.contents@[dest_idx as int]@[k as int] == t
                    && t.idx < alive@.len()
                    && combat_stats@[t.idx as int] is Some);
                assert(tile_has_target(*map, combat_stats@, dest_idx as int));
            }
            return;
        }
        k = k + 1;
    }
    proof {
        if tile_has_target(*map, combat_stats@, dest_idx as int) {
            let k2 = choose|k2: int|
                0 <= k2 < map.contents@[dest_idx as int]@.len()
                    && (#[trigger] map.contents@[dest_idx as int]@[k2]).idx
                        < combat_stats@.len()
                    && combat_stats@[map.contents@[dest_idx as int]@[k2].idx as int] is Some;
            assert(false);
        }
    }
    if !map.blocked[dest_idx] {
        positions.insert(player.idx, Position { x: destx, y: desty });
        let vs_range: i32 = match viewsheds.get(player.idx) {
            Some(v) => v.range,
            None => 0,
        };
        let new_tiles: Vec<Point> = match viewsheds.get(player.idx) {
            Some(v) => v.tiles.clone(),
            None => Vec::new(),
        };
        viewsheds.insert(player.idx, Viewshed { tiles: new_tiles, range: vs_range, dirty: true });
        player_pos.x = destx;
        player_pos.y = desty;
        proof {
            assert forall|j: int|
                0 <= j < positions@.len() && #[trigger] positions@[j] is Some
                implies on_map(positions@[j]->Some_0.x as int,
                    positions@[j]->Some_0.y as int) by {
                if j != player.idx as int {
                    assert(old(positions)@[j] is Some);
                }
            }
            if crate::visibility::ranges_ok(old(viewsheds)@) {
                assert forall|j: int|
                    0 <= j < viewsheds@.len() && #[trigger] viewsheds@[j] is Some
                    implies 0 <= viewsheds@[j]->Some_0.range <= 60 by {
                    if j != player.idx as int {
                        assert(old(viewsheds)@[j] is Some);
                    } else {
                        assert(old(viewsheds)@[j] is Some);
                    }
                }
            }
        }
    }
}

/// One of the tiles the player sees holds a live monster.
pub open spec fn monster_in_sight(
    m: GameMap, tiles: Seq<Point>, monsters: Seq<Option<Monster>>,
) -> bool {
    sight_prefix(m, tiles, monsters, tiles.len() as int)
}

/// The exact outcome of a rest: one hit point back, capped at the maximum,
/// unless a live monster stands on a tile the player sees.
pub open spec fn skip_outcome(
    alive: Seq<bool>,
    player: EntityId,
    vs: Seq<Option<Viewshed>>,
    monsters: Seq<Option<Monster>>,
    m: GameMap,
    stats0: Seq<Option<CombatStats>>,
    stats1: Seq<Option<CombatStats>>,
) -> bool {
    let p = player.idx as int;
    if player.idx < alive.len() && vs[p] is Some
        && !monster_in_sight(m, vs[p]->Some_0.tiles@, monsters)
        && stats0[p] is Some {
        stats1 == stats0.update(p, Some(heal_one(stats0[p]->Some_0)))
    } else {
        stats1 == stats0
    }
}

/// Resting: with no monster in sight the player heals one hit point, up to
/// the maximum; a watched player heals nothing.  Either way the player's
/// turn is spent.
pub fn skip_turn(
    alive: &Vec<bool>,
    gens: &Vec<u64>,
    player: EntityId,
    viewsheds: &Column<Viewshed>,
    monsters: &Column<Monster>,
    map: &GameMap,
    combat_stats: &mut Column<CombatStats>,
)
    requires
        map.wf(),
        gens@.len() == alive@.len(),
        viewsheds@.len() == alive@.len(),
        monsters@.len() == alive@.len(),
        old(combat_stats)@.len() == alive@.len(),
    ensures
        final(combat_stats)@.len() == old(combat_stats)@.len(),
        skip_outcome(alive@, player, viewsheds@, monsters@, *map, old(combat_stats)@,
            final(combat_stats)@),
{
    if player.idx >= alive.len() || !viewsheds.contains(player.idx) {
        return;
    }
    let mut can_heal = true;
    match viewsheds.get(player.idx) {
        Some(v) => {
            let m: usize = v.tiles.len();
            let mut k: usize = 0;
            while k < m
                invariant
                    map.wf(),
                    monsters@.len() == alive@.len(),
                    m == v.tiles@.len(),
                    k <= m,
                    can_heal == !exists|k3: int, k2: int|
                        0 <= k3 < k && on_map(v.tiles@[k3].x as int, v.tiles@[k3].y as int)
                            && 0 <= k2 < map.contents@[idx_of(v.tiles@[k3].x as int,
                                v.tiles@[k3].y as int)]@.len()
                            && (#[trigger] map.contents@[idx_of(v.tiles@[k3].x as int,
                                v.tiles@[k3].y as int)]@[k2]).idx < monsters@.len()
                            && monsters@[map.contents@[idx_of(v.tiles@[k3].x as int,
                                v.tiles@[k3].y as int)]@[k2].idx as int] is Some,
                decreases m - k,
            {
                let t = v.tiles[k];
                if t.x >= 0 && t.x < map.width && t.y >= 0 && t.y < map.height {
                    let idx = GameMap::xy_idx(t.x, t.y);
                    let tile = &map.contents[idx];
                    let mm: usize = tile.len();
                    let mut k2: usize = 0;
                    let ghost pre_heal = can_heal;
                    while k2 < mm
                        invariant
                            map.wf(),
                            monsters@.len() == alive@.len(),
                            idx < MAPCOUNT,
                            idx == idx_of(t.x as int, t.y as int),
                            on_map(t.x as int, t.y as int),
                            tile@ == map.contents@[idx as int]@,
                            mm == tile@.len(),
                            k2 <= mm,
                            can_heal == (pre_heal && !exists|k4: int|
                                0 <= k4 < k2
                                    && (#[trigger] map.contents@[idx as int]@[k4]).idx
                                        < monsters@.len()
                                    && monsters@[map.contents@[idx as int]@[k4].idx as int]
                                        is Some),
                        decreases mm - k2,
                    {
                        let e = tile[k2];
                        if e.idx < monsters.len() && monsters.contains(e.idx) {
                            can_heal = false;
                        }
                        k2 = k2 + 1;
                    }
                    proof {
                        lemma_sight_step(*map, v.tiles@, monsters@, k as int, pre_heal,
                            can_heal);
                    }
                } else {
                    proof {
                        lemma_sight_step_offmap(*map, v.tiles@, monsters@, k as int, can_heal);
                    }
                }
                k = k + 1;
            }
        }
        None => {}
    }
    if can_heal {
        match combat_stats.get(player.idx) {
            Some(s) => {
                let cur = *s;
                let new_hp: i32 = if cur.hp >= cur.max_hp || cur.hp == i32::MAX {
                    cur.hp
                } else {
                    cur.hp + 1
                };
                combat_stats.insert(player.idx, CombatStats {
                    max_hp: cur.max_hp,
                    hp: new_hp,
                    defense: cur.defense,
                    power: cur.power,
                });
            }
            None => {}
        }
    }
}

/// One point of rest: hit points rise by one unless already at the maximum.
pub open spec fn heal_one(s: CombatStats) -> CombatStats {
    CombatStats {
        max_hp: s.max_hp,
        hp: if s.hp >= s.max_hp || s.hp == i32::MAX { s.hp } else { (s.hp + 1) as i32 },
        defense: s.defense,
        power: s.power,
    }
}

proof fn lemma_sight_step(
    m: GameMap, tiles: Seq<Point>, monsters: Seq<Option<Monster>>, k: int, before: bool,
    after: bool,
)
    requires
        0 <= k < tiles.len(),
        on_map(tiles[k].x as int, tiles[k].y as int),
        before == !sight_prefix(m, tiles, monsters, k),
        after == (before && !exists|k4: int|
            0 <= k4 < m.contents@[idx_of(tiles[k].x as int, tiles[k].y as int)]@.len()
                && (#[trigger] m.contents@[idx_of(tiles[k].x as int,
                    tiles[k].y as int)]@[k4]).idx < monsters.len()
                && monsters[m.contents@[idx_of(tiles[k].x as int,
                    tiles[k].y as int)]@[k4].idx as int] is Some),
    ensures
        after == !sight_prefix(m, tiles, monsters, k + 1),
{
    if !after {
        if !before {
            let (k3, k2) = choose|k3: int, k2: int|
                0 <= k3 < k && on_map(tiles[k3].x as int, tiles[k3].y as int)
                    && 0 <= k2 < m.contents@[idx_of(tiles[k3].x as int,
                        tiles[k3].y as int)]@.len()
                    && (#[trigger] m.contents@[idx_of(tiles[k3].x as int,
                        tiles[k3].y as int)]@[k2]).idx < monsters.len()
                    && monsters[m.contents@[idx_of(tiles[k3].x as int,
                        tiles[k3].y as int)]@[k2].idx as int] is Some;
            assert(sight_prefix(m, tiles, monsters, k + 1));
        } else {
            let k4 = choose|k4: int|
                0 <= k4 < m.contents@[idx_of(tiles[k].x as int, tiles[k].y as int)]@.len()
                    && (#[trigger] m.contents@[idx_of(tiles[k].x as int,
                        tiles[k].y as int)]@[k4]).idx < monsters.len()
                    && monsters[m.contents@[idx_of(tiles[k].x as int,
                        tiles[k].y as int)]@[k4].idx as int] is Some;
            assert(sight_prefix(m, tiles, monsters, k + 1));
        }
    } else {
        if sight_prefix(m, tiles, monsters, k + 1) {
            let (k3, k2) = choose|k3: int, k2: int|
                0 <= k3 < k + 1 && on_map(tiles[k3].x as int, tiles[k3].y as int)
                    && 0 <= k2 < m.contents@[idx_of(tiles[k3].x as int,
                        tiles[k3].y as int)]@.len()
                    && (#[trigger] m.contents@[idx_of(tiles[k3].x as int,
                        tiles[k3].y as int)]@[k2]).idx < monsters.len()
                    && monsters[m.contents@[idx_of(tiles[k3].x as int,
                        tiles[k3].y as int)]@[k2].idx as int] is Some;
            if k3 < k {
                assert(sight_prefix(m, tiles, monsters, k));
            }
            assert(false);
        }
    }
}

proof fn lemma_sight_step_offmap(
    m: GameMap, tiles: Seq<Point>, monsters: Seq<Option<Monster>>, k: int, flag: bool,
)
    requires
        0 <= k < tiles.len(),
        !on_map(tiles[k].x as int, tiles[k].y as int),
        flag == !sight_prefix(m, tiles, monsters, k),
    ensures
        flag == !sight_prefix(m, tiles, monsters, k + 1),
{
    if sight_prefix(m, tiles, monsters, k + 1) {
        let (k3, k2) = choose|k3: int, k2: int|
            0 <= k3 < k + 1 && on_map(tiles[k3].x as int, tiles[k3].y as int)
                && 0 <= k2 < m.contents@[idx_of(tiles[k3].x as int,
                    tiles[k3].y as int)]@.len()
                && (#[trigger] m.contents@[idx_of(tiles[k3].x as int,
                    tiles[k3].y as int)]@[k2]).idx < monsters.len()
                && monsters[m.contents@[idx_of(tiles[k3].x as int,
                    tiles[k3].y as int)]@[k2].idx as int] is Some;
        assert(k3 != k);
        assert(sight_prefix(m, tiles, monsters, k));
    }
    if sight_prefix(m, tiles, monsters, k) {
        let (k3, k2) = choose|k3: int, k2: int|
            0 <= k3 < k && on_map(tiles[k3].x as int, tiles[k3].y as int)
                && 0 <= k2 < m.contents@[idx_of(tiles[k3].x as int,
                    tiles[k3].y as int)]@.len()
                && (#[trigger] m.contents@[idx_of(tiles[k3].x as int,
                    tiles[k3].y as int)]@[k2]).idx < monsters.len()
                && monsters[m.contents@[idx_of(tiles[k3].x as int,
                    tiles[k3].y as int)]@[k2].idx as int] is Some;
        assert(sight_prefix(m, tiles, monsters, k + 1));
    }
}

/// A live monster stands on one of the first `k` tiles of the sight list.
pub open spec fn sight_prefix(
    m: GameMap, tiles: Seq<Point>, monsters: Seq<Option<Monster>>, k: int,
) -> bool {
    exists|k3: int, k2: int|
        0 <= k3 < k && on_map(tiles[k3].x as int, tiles[k3].y as int)
            && 0 <= k2 < m.contents@[idx_of(tiles[k3].x as int, tiles[k3].y as int)]@.len()
            && (#[trigger] m.contents@[idx_of(tiles[k3].x as int,
                tiles[k3].y as int)]@[k2]).idx < monsters.len()
            && monsters[m.contents@[idx_of(tiles[k3].x as int,
                tiles[k3].y as int)]@[k2].idx as int] is Some
}

/// True when the player stands on the stairs down; otherwise a gentle
/// refusal lands in the log.
pub fn try_next_level(map: &GameMap, player_pos: Point, log: &mut GameLog) -> (r: bool)
    requires
        map.wf(),
        on_map(player_pos.x as int, player_pos.y as int),
    ensures
        r == (map.tiles@[idx_of(player_pos.x as int, player_pos.y as int)] is DownStairs),
        r ==> final(log).entries@ == old(log).entries@,
        !r ==> final(log).entries@ == old(log).entries@.insert(0, final(log).entries@[0])
            && final(log).entries@[0]@ == "There is no way down from here"@,
{
    let idx = GameMap::xy_idx(player_pos.x, player_pos.y);
    if map.tiles[idx] == TileType::DownStairs {
        true
    } else {
        log.log(crate::messages::fixed_message("There is no way down from here"));
        false
    }
}

/// Some live item entity lies on the player's tile.
pub open spec fn item_underfoot(
    alive: Seq<bool>, items: Seq<Option<Item>>, ps: Seq<Option<Position>>, ppos: Point, i: int,
) -> bool {
    &&& 0 <= i < alive.len()
    &&& alive[i]
    &&& items[i] is Some
    &&& ps[i] is Some
    &&& ps[i]->Some_0.x == ppos.x
    &&& ps[i]->Some_0.y == ppos.y
}

/// The exact outcome of reaching for the ground: with an item underfoot a
/// pickup intent for one such item lands on the player; otherwise only the
/// log speaks.
pub open spec fn get_item_outcome(
    alive: Seq<bool>,
    gens: Seq<u64>,
    player: EntityId,
    items: Seq<Option<Item>>,
    positions: Seq<Option<Position>>,
    ppos: Point,
    wp0: Seq<Option<WantsToPickupItem>>,
    wp1: Seq<Option<WantsToPickupItem>>,
    log0: Seq<String>,
    log1: Seq<String>,
) -> bool {
    if exists|i: int| item_underfoot(alive, items, positions, ppos, i) {
        log1 == log0
            && exists|i: int|
                #[trigger] item_underfoot(alive, items, positions, ppos, i)
                    && wp1 == wp0.update(player.idx as int, Some(WantsToPickupItem {
                        collected_by: player,
                        item: EntityId { idx: i as usize, gen: gens[i] },
                    }))
    } else {
        wp1 == wp0 && log1 == log0.insert(0, log1[0])
            && log1[0]@ == "There is nothing here to pick up"@
    }
}

/// Looks for an item on the player's tile: when one is there, a pickup
/// intent for it lands on the player; otherwise the log gently says there is
/// nothing here.
pub fn get_item(
    alive: &Vec<bool>,
    gens: &Vec<u64>,
    player: EntityId,
    items: &Column<Item>,
    positions: &Column<Position>,
    player_pos: Point,
    wants_pickup: &mut Column<WantsToPickupItem>,
    log: &mut GameLog,
)
    requires
        gens@.len() == alive@.len(),
        items@.len() == alive@.len(),
        positions@.len() == alive@.len(),
        old(wants_pickup)@.len() == alive@.len(),
        player.idx < alive@.len(),
    ensures
        final(wants_pickup)@.len() == old(wants_pickup)@.len(),
        get_item_outcome(alive@, gens@, player, items@, positions@, player_pos,
            old(wants_pickup)@, final(wants_pickup)@, old(log).entries@,
            final(log).entries@),
{
    let n: usize = alive.len();
    let mut found = false;
    let mut found_idx: usize = 0;
    let mut i: usize = 0;
    while i < n
        invariant
            n == alive@.len(),
            gens@.len() == n,
            items@.len() == n,
            positions@.len() == n,
            i <= n,
            found ==> found_idx < n
                && item_underfoot(alive@, items@, positions@, player_pos, found_idx as int),
            !found ==> !(exists|j: int|
                0 <= j < i && #[trigger] item_underfoot(alive@, items@, positions@,
                    player_pos, j)),
        decreases n - i,
    {
        let is_item: bool = alive[i] && items.contains(i) && positions.contains(i);
        if is_item {
            let p: Position = match positions.get(i) {
                Some(p) => *p,
                None => Position { x: 0, y: 0 },
            };
            if p.x == player_pos.x && p.y == player_pos.y {
                found = true;
                found_idx = i;
            } else {
                proof {
                    if !found && exists|j: int|
                        0 <= j < i + 1 && #[trigger] item_underfoot(alive@, items@,
                            positions@, player_pos, j) {
                        let j = choose|j: int|
                            0 <= j < i + 1 && #[trigger] item_underfoot(alive@, items@,
                                positions@, player_pos, j);
                        assert(j < i);
                    }
                }
            }
        } else {
            proof {
                if !found && exists|j: int|
                    0 <= j < i + 1 && #[trigger] item_underfoot(alive@, items@, positions@,
                        player_pos, j) {
                    let j = choose|j: int|
                        0 <= j < i + 1 && #[trigger] item_underfoot(alive@, items@,
                            positions@, player_pos, j);
                    assert(j < i);
                }
            }
        }
        i = i + 1;
    }
    if found {
        wants_pickup.insert(player.idx, WantsToPickupItem {
            collected_by: player,
            item: EntityId { idx: found_idx, gen: gens[found_idx] },
        });
    } else {
        proof {
            if exists|j: int| item_underfoot(alive@, items@, positions@, player_pos, j) {
                let j = choose|j: int|
                    #[trigger] item_underfoot(alive@, items@, positions@, player_pos, j);
                assert(0 <= j < n);
                assert(false);
            }
        }
        log.log(crate::messages::fixed_message("There is nothing here to pick up"));
    }
}

} // verus!
