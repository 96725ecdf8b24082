//! The inventory pipeline: picking items up, dropping them, and using them
//! (healing, damage, confusion, equipping), each a one-shot intent processor
//! that clears its queue after a single pass.

use vstd::prelude::*;
use crate::components::{
    AreaOfEffect, CombatStats, Confusion, Consumable, EquipmentSlot, Equippable, Equipped,
    InBackpack, InflictsDamage, Name, Point, Position, ProvidesHealing, SufferDamage,
    WantsToDropItem, WantsToPickupItem, WantsToUseItem,
};
use crate::damage::{accumulate, add_damage, suffer_nonneg};
use crate::ecs::{Column, EntityId};
use crate::gamelog::{GameLog, log_extended, lemma_log_extended_refl, lemma_log_extended_insert, lemma_log_extended_trans};
use crate::map::{GameMap, idx_of, in_interior, on_map, MAPCOUNT};
use crate::map_indexing::contents_disjoint;
use crate::messages::{confuse_message, format_confuse, format_drop, format_heal,
    format_inflict, format_pickup, drop_message, heal_message, inflict_message,
    pickup_message};
use crate::visibility::{field_of_view, positions_on_map, spec_visible_from};

verus! {

/// The handle still refers to a live entity: its slot is live and the
/// generations agree.
pub open spec fn valid_ref(alive: Seq<bool>, gens: Seq<u64>, e: EntityId) -> bool {
    e.idx < alive.len() && alive[e.idx as int] && gens[e.idx as int] == e.gen
}

/// Exactly the entity in slot `i0` holds a pickup intent.
pub open spec fn single_pickup(wp: Seq<Option<WantsToPickupItem>>, i0: int) -> bool {
    &&& 0 <= i0 < wp.len()
    &&& wp[i0] is Some
    &&& forall|j: int| 0 <= j < wp.len() && j != i0 ==> !(#[trigger] wp[j] is Some)
}

/// The exact outcome of the single pickup intent in slot `i0`: the item
/// leaves the map and enters the collector's backpack, and the player
/// reports the find.
pub open spec fn pickup_outcome(
    alive: Seq<bool>,
    gens: Seq<u64>,
    wp: Seq<Option<WantsToPickupItem>>,
    names: Seq<Option<Name>>,
    player: EntityId,
    pos0: Seq<Option<Position>>,
    pos1: Seq<Option<Position>>,
    bp0: Seq<Option<InBackpack>>,
    bp1: Seq<Option<InBackpack>>,
    log0: Seq<String>,
    log1: Seq<String>,
    i0: int,
) -> bool {
    let intent = wp[i0]->Some_0;
    if alive[i0] && valid_ref(alive, gens, intent.item) {
        &&& pos1 == pos0.update(intent.item.idx as int, Option::<Position>::None)
        &&& bp1 == bp0.update(intent.item.idx as int,
            Some(InBackpack { owner: intent.collected_by }))
        &&& if intent.collected_by == player && names[intent.item.idx as int] is Some {
            log1 == log0.insert(0, log1[0])
                && log1[0]@ == pickup_message(names[intent.item.idx as int]->Some_0.name@)
        } else {
            log1 == log0
        }
    } else {
        pos1 == pos0 && bp1 == bp0 && log1 == log0
    }
}

/// Item pickup.
pub struct ItemCollectionSystem {}

impl ItemCollectionSystem {
    /// For each pickup intent whose item handle is still valid, detaches the
    /// item's position and tucks it into the collector's backpack; the
    /// player's finds are logged.  All pickup intents are cleared.
    pub fn run(
        alive: &Vec<bool>,
        gens: &Vec<u64>,
        wants_pickup: &mut Column<WantsToPickupItem>,
        positions: &mut Column<Position>,
        names: &Column<Name>,
        backpack: &mut Column<InBackpack>,
        player: EntityId,
        log: &mut GameLog,
    )
        requires
            gens@.len() == alive@.len(),
            old(wants_pickup)@.len() == alive@.len(),
            old(positions)@.len() == alive@.len(),
            names@.len() == alive@.len(),
            old(backpack)@.len() == alive@.len(),
        ensures
            final(wants_pickup)@.len() == old(wants_pickup)@.len(),
            final(positions)@.len() == old(positions)@.len(),
            final(backpack)@.len() == old(backpack)@.len(),
            positions_on_map(old(positions)@) ==> positions_on_map(final(positions)@),
            forall|j: int| 0 <= j < final(wants_pickup)@.len()
                ==> final(wants_pickup)@[j] is None,
            (forall|j: int| 0 <= j < alive@.len()
                ==> !(#[trigger] old(wants_pickup)@[j] is Some))
                ==> final(positions)@ == old(positions)@
                    && final(backpack)@ == old(backpack)@
                    && final(log).entries@ == old(log).entries@,
            forall|i0: int|
                single_pickup(old(wants_pickup)@, i0)
                    ==> pickup_outcome(alive@, gens@, old(wants_pickup)@, names@, player,
                        old(positions)@, final(positions)@, old(backpack)@, final(backpack)@,
                        old(log).entries@, final(log).entries@, i0),
    {
        let n: usize = alive.len();
        let mut i: usize = 0;
        while i < n
            invariant
                n == alive@.len(),
                gens@.len() == n,
                wants_pickup@.len() == n,
                positions@.len() == n,
                names@.len() == n,
                backpack@.len() == n,
                i <= n,
                wants_pickup@ == old(wants_pickup)@,
                positions_on_map(old(positions)@) ==> positions_on_map(positions@),
                (forall|j: int| 0 <= j < n ==> !(#[trigger] old(wants_pickup)@[j] is Some))
                    ==> positions@ == old(positions)@ && backpack@ == old(backpack)@
                        && log.entries@ == old(log).entries@,
                forall|i0: int|
                    single_pickup(old(wants_pickup)@, i0) && i0 < i
                        ==> pickup_outcome(alive@, gens@, old(wants_pickup)@, names@, player,
                            old(positions)@, positions@, old(backpack)@, backpack@,
                            old(log).entries@, log.entries@, i0),
                forall|i0: int|
                    single_pickup(old(wants_pickup)@, i0) && i0 >= i
                        ==> positions@ == old(positions)@ && backpack@ == old(backpack)@
                            && log.entries@ == old(log).entries@,
            decreases n - i,
        {
            let has: bool = alive[i] && wants_pickup.contains(i);
            if has {
                let intent: WantsToPickupItem = match wants_pickup.get(i) {
                    Some(w) => *w,
                    None => WantsToPickupItem {
                        collected_by: EntityId { idx: 0, gen: 0 },
                        item: EntityId { idx: 0, gen: 0 },
                    },
                };
                let item = intent.item;
                if item.idx < n && alive[item.idx] && gens[item.idx] == item.gen {
                    positions.remove(item.idx);
                    backpack.insert(item.idx, InBackpack { owner: intent.collected_by });
                    let is_player: bool = intent.collected_by.idx == player.idx
                        && intent.collected_by.gen == player.gen;
                    if is_player && names.contains(item.idx) {
                        let msg = match names.get(item.idx) {
                            Some(nm) => format_pickup(&nm.name),
                            None => crate::messages::fixed_message(""),
                        };
                        log.log(msg);
                    }
                }
            }
            i = i + 1;
        }
        wants_pickup.clear();
    }
}

/// Exactly the entity in slot `i0` holds a drop intent.
pub open spec fn single_drop(wd: Seq<Option<WantsToDropItem>>, i0: int) -> bool {
    &&& 0 <= i0 < wd.len()
    &&& wd[i0] is Some
    &&& forall|j: int| 0 <= j < wd.len() && j != i0 ==> !(#[trigger] wd[j] is Some)
}

/// The exact outcome of the single drop intent in slot `i0`: the item gets
/// the dropper's position and leaves the backpack, and the player's drops
/// are logged.
pub open spec fn drop_outcome(
    alive: Seq<bool>,
    gens: Seq<u64>,
    wd: Seq<Option<WantsToDropItem>>,
    names: Seq<Option<Name>>,
    player: EntityId,
    pos0: Seq<Option<Position>>,
    pos1: Seq<Option<Position>>,
    bp0: Seq<Option<InBackpack>>,
    bp1: Seq<Option<InBackpack>>,
    log0: Seq<String>,
    log1: Seq<String>,
    i0: int,
) -> bool {
    let item = wd[i0]->Some_0.item;
    if alive[i0] && valid_ref(alive, gens, item) && pos0[i0] is Some {
        &&& pos1 == pos0.update(item.idx as int, pos0[i0])
        &&& bp1 == bp0.update(item.idx as int, Option::<InBackpack>::None)
        &&& if i0 == player.idx && names[item.idx as int] is Some {
            log1 == log0.insert(0, log1[0])
                && log1[0]@ == drop_message(names[item.idx as int]->Some_0.name@)
        } else {
            log1 == log0
        }
    } else {
        pos1 == pos0 && bp1 == bp0 && log1 == log0
    }
}

/// Item dropping.
pub struct ItemDropSystem {}

impl ItemDropSystem {
    /// For each drop intent whose item handle is still valid and whose
    /// dropper stands somewhere, copies the dropper's position onto the item
    /// and takes it out of the backpack; the player's drops are logged.  All
    /// drop intents are cleared.
    pub fn run(
        alive: &Vec<bool>,
        gens: &Vec<u64>,
        wants_drop: &mut Column<WantsToDropItem>,
        positions: &mut Column<Position>,
        names: &Column<Name>,
        backpack: &mut Column<InBackpack>,
        player: EntityId,
        log: &mut GameLog,
    )
        requires
            gens@.len() == alive@.len(),
            old(wants_drop)@.len() == alive@.len(),
            old(positions)@.len() == alive@.len(),
            names@.len() == alive@.len(),
            old(backpack)@.len() == alive@.len(),
        ensures
            final(wants_drop)@.len() == old(wants_drop)@.len(),
            final(positions)@.len() == old(positions)@.len(),
            final(backpack)@.len() == old(backpack)@.len(),
            positions_on_map(old(positions)@) ==> positions_on_map(final(positions)@),
            forall|j: int| 0 <= j < final(wants_drop)@.len() ==> final(wants_drop)@[j] is None,
            (forall|j: int| 0 <= j < alive@.len() ==> !(#[trigger] old(wants_drop)@[j] is Some))
                ==> final(positions)@ == old(positions)@
                    && final(backpack)@ == old(backpack)@
                    && final(log).entries@ == old(log).entries@,
            forall|i0: int|
                single_drop(old(wants_drop)@, i0)
                    ==> drop_outcome(alive@, gens@, old(wants_drop)@, names@, player,
                        old(positions)@, final(positions)@, old(backpack)@, final(backpack)@,
                        old(log).entries@, final(log).entries@, i0),
    {
        let n: usize = alive.len();
        let mut i: usize = 0;
        while i < n
            invariant
                n == alive@.len(),
                gens@.len() == n,
                wants_drop@.len() == n,
                positions@.len() == n,
                names@.len() == n,
                backpack@.len() == n,
                i <= n,
                wants_drop@ == old(wants_drop)@,
                positions_on_map(old(positions)@) ==> positions_on_map(positions@),
                (forall|j: int| 0 <= j < n ==> !(#[trigger] old(wants_drop)@[j] is Some))
                    ==> positions@ == old(positions)@ && backpack@ == old(backpack)@
                        && log.entries@ == old(log).entries@,
                forall|i0: int|
                    single_drop(old(wants_drop)@, i0) && i0 < i
                        ==> drop_outcome(alive@, gens@, old(wants_drop)@, names@, player,
                            old(positions)@, positions@, old(backpack)@, backpack@,
                            old(log).entries@, log.entries@, i0),
                forall|i0: int|
                    single_drop(old(wants_drop)@, i0) && i0 >= i
                        ==> positions@ == old(positions)@ && backpack@ == old(backpack)@
                            && log.entries@ == old(log).entries@,
            decreases n - i,
        {
            let has: bool = alive[i] && wants_drop.contains(i) && positions.contains(i);
            if has {
                let item: EntityId = match wants_drop.get(i) {
                    Some(w) => w.item,
                    None => EntityId { idx: 0, gen: 0 },
                };
                let dropper_pos: Position = match positions.get(i) {
                    Some(p) => *p,
                    None => Position { x: 0, y: 0 },
                };
                if item.idx < n && alive[item.idx] && gens[item.idx] == item.gen {
                    positions.insert(item.idx, dropper_pos);
                    backpack.remove(item.idx);
                    if i == player.idx && names.contains(item.idx) {
                        let msg = match names.get(item.idx) {
                            Some(nm) => format_drop(&nm.name),
                            None => crate::messages::fixed_message(""),
                        };
                        log.log(msg);
                    }
                }
            }
            i = i + 1;
        }
        wants_drop.clear();
    }
}

/// Entity handle `e` belongs to the target set of a use action: the user
/// themself when no point is aimed at; the occupants of the aimed tile for a
/// plain ranged item; and the occupants of every interior tile in sight
/// within the blast radius for an area item.
pub open spec fn in_target_set(
    m: GameMap, aoe: Option<AreaOfEffect>, target: Option<Point>, user: EntityId, e: EntityId,
) -> bool {
    match target {
        Option::None => e == user,
        Option::Some(pt) => on_map(pt.x as int, pt.y as int) && (match aoe {
            Option::None => m.contents@[idx_of(pt.x as int, pt.y as int)]@.contains(e),
            Option::Some(a) => exists|x: i32, y: i32|
                spec_visible_from(m, pt.x as int, pt.y as int, a.radius as int, x as int,
                    y as int) && in_interior(x as int, y as int)
                    && #[trigger] m.contents@[idx_of(x as int, y as int)]@.contains(e),
        }),
    }
}

/// `e` stands on some tile already marked in `seen`.
pub open spec fn from_seen_tile(m: GameMap, seen: Seq<bool>, e: EntityId) -> bool {
    exists|j: int| 0 <= j < MAPCOUNT as int && #[trigger] seen[j] && m.contents@[j]@.contains(e)
}

/// Computes the target list of a use action: exactly the handles of
/// `in_target_set`, each entity slot listed at most once.
fn resolve_targets(
    map: &GameMap,
    aoe_item: Option<AreaOfEffect>,
    target: Option<Point>,
    user: EntityId,
) -> (ts: Vec<EntityId>)
    requires
        map.wf(),
        contents_disjoint(*map),
        aoe_item matches Some(a) ==> 0 <= a.radius <= 60,
    ensures
        forall|k: int| 0 <= k < ts@.len()
            ==> in_target_set(*map, aoe_item, target, user, #[trigger] ts@[k]),
        forall|e: EntityId| in_target_set(*map, aoe_item, target, user, e)
            ==> ts@.contains(e),
        forall|k1: int, k2: int| 0 <= k1 < k2 < ts@.len()
            ==> (#[trigger] ts@[k1]).idx != (#[trigger] ts@[k2]).idx,
{
    let mut ts: Vec<EntityId> = Vec::new();
    match target {
        None => {
            ts.push(user);
            proof {
                assert(ts@[0] == user);
            }
        }
        Some(pt) => {
            if pt.x >= 0 && pt.x < map.width && pt.y >= 0 && pt.y < map.height {
                match aoe_item {
                    None => {
                        let j = GameMap::xy_idx(pt.x, pt.y);
                        let tile = &map.contents[j];
                        let m: usize = tile.len();
                        let mut k: usize = 0;
                        while k < m
                            invariant
                                map.wf(),
                                contents_disjoint(*map),
                                j == idx_of(pt.x as int, pt.y as int),
                                j < MAPCOUNT,
                                tile@ == map.contents@[j as int]@,
                                m == tile@.len(),
                                k <= m,
                                ts@ == tile@.take(k as int),
                            decreases m - k,
                        {
                            ts.push(tile[k]);
                            proof {
                                assert(ts@ =~= tile@.take(k as int + 1));
                            }
                            k = k + 1;
                        }
                        proof {
                            assert(ts@ == tile@);
                            assert forall|e: EntityId|
                                in_target_set(*map, aoe_item, target, user, e)
                                implies ts@.contains(e) by {}
                        }
                    }
                    Some(a) => {
                        let blast = field_of_view(pt.x, pt.y, a.radius, map);
                        let mut seen: Vec<bool> = crate::map::fill(false, MAPCOUNT);
                        let nb: usize = blast.len();
                        let mut b: usize = 0;
                        while b < nb
                            invariant
                                map.wf(),
                                contents_disjoint(*map),
                                aoe_item == Some(a),
                                target == Some(pt),
                                on_map(pt.x as int, pt.y as int),
                                0 <= a.radius <= 60,
                                nb == blast@.len(),
                                b <= nb,
                                seen@.len() == MAPCOUNT as int,
                                // what the blast list holds
                                forall|k: int| 0 <= k < blast@.len()
                                    ==> spec_visible_from(*map, pt.x as int, pt.y as int,
                                        a.radius as int, #[trigger] blast@[k].x as int,
                                        blast@[k].y as int),
                                forall|px: i32, py: i32|
                                    #![trigger spec_visible_from(*map, pt.x as int, pt.y as int, a.radius as int, px as int, py as int)]
                                    spec_visible_from(*map, pt.x as int, pt.y as int,
                                        a.radius as int, px as int, py as int)
                                        ==> blast@.contains(Point { x: px, y: py }),
                                // a marked tile is some visible interior tile
                                forall|j: int| 0 <= j < MAPCOUNT as int && #[trigger] seen@[j]
                                    ==> exists|x: i32, y: i32|
                                        spec_visible_from(*map, pt.x as int, pt.y as int,
                                            a.radius as int, x as int, y as int)
                                            && in_interior(x as int, y as int)
                                            && #[trigger] idx_of(x as int, y as int) == j,
                                // the list holds exactly the occupants of marked tiles
                                forall|k: int| 0 <= k < ts@.len()
                                    ==> #[trigger] from_seen_tile(*map, seen@, ts@[k]),
                                forall|j: int, k: int|
                                    0 <= j < MAPCOUNT as int && #[trigger] seen@[j]
                                        && 0 <= k < map.contents@[j]@.len()
                                        ==> ts@.contains(#[trigger] map.contents@[j]@[k]),
                                // processed interior blast tiles are marked
                                forall|k: int| 0 <= k < b && in_interior(
                                        (#[trigger] blast@[k]).x as int, blast@[k].y as int)
                                    ==> seen@[idx_of(blast@[k].x as int, blast@[k].y as int)],
                                // each entity slot at most once
                                forall|k1: int, k2: int| 0 <= k1 < k2 < ts@.len()
                                    ==> (#[trigger] ts@[k1]).idx != (#[trigger] ts@[k2]).idx,
                            decreases nb - b,
                        {
                            let p = blast[b];
                            if p.x > 0 && p.x < map.width - 1 && p.y > 0 && p.y < map.height - 1 {
                                let j = GameMap::xy_idx(p.x, p.y);
                                if !seen[j] {
                                    let ghost seen0 = seen@;
                                    let ghost pre_ts = ts@;
                                    seen.set(j, true);
                                    let ghost pre_seen = seen@;
                                    let tile = &map.contents[j];
                                    let m: usize = tile.len();
                                    let mut k: usize = 0;
                                    while k < m
                                        invariant
                                            map.wf(),
                                            contents_disjoint(*map),
                                            j < MAPCOUNT,
                                            tile@ == map.contents@[j as int]@,
                                            m == tile@.len(),
                                            k <= m,
                                            ts@ == pre_ts + tile@.take(k as int),
                                            seen@ == pre_seen,
                                            seen@ == seen0.update(j as int, true),
                                            !seen0[j as int],
                                            forall|k0: int| 0 <= k0 < pre_ts.len()
                                                ==> #[trigger] from_seen_tile(*map, seen0,
                                                    pre_ts[k0]),
                                            forall|k1: int, k2: int|
                                                0 <= k1 < k2 < ts@.len()
                                                    ==> (#[trigger] ts@[k1]).idx
                                                        != (#[trigger] ts@[k2]).idx,
                                        decreases m - k,
                                    {
                                        let c = tile[k];
                                        ts.push(c);
                                        proof {
                                            assert(ts@ =~= pre_ts + tile@.take(k as int + 1));
                                            assert forall|k1: int|
                                                0 <= k1 < ts@.len() - 1
                                                implies ts@[k1].idx != c.idx by {
                                                if k1 < pre_ts.len() {
                                                    assert(from_seen_tile(*map, seen0,
                                                        pre_ts[k1]));
                                                    let j2 = choose|j2: int|
                                                        0 <= j2 < MAPCOUNT as int
                                                            && #[trigger] seen0[j2]
                                                            && map.contents@[j2]@.contains(
                                                                pre_ts[k1]);
                                                    assert(j2 != j);
                                                    let k3 = choose|k3: int|
                                                        0 <= k3 < map.contents@[j2]@.len()
                                                            && map.contents@[j2]@[k3]
                                                                == pre_ts[k1];
                                                    assert(map.contents@[j2]@[k3].idx
                                                        != map.contents@[j as int]@[k as int].idx);
                                                } else {
                                                    let k4 = k1 - pre_ts.len();
                                                    assert(ts@[k1]
                                                        == map.contents@[j as int]@[k4]);
                                                    assert(map.contents@[j as int]@[k4].idx
                                                        != map.contents@[j as int]@[k as int].idx);
                                                }
                                            }
                                        }
                                        k = k + 1;
                                    }
                                    proof {
                                        assert(ts@ == pre_ts + tile@);
                                        assert forall|k0: int| 0 <= k0 < ts@.len()
                                            implies #[trigger] from_seen_tile(*map, seen@,
                                                ts@[k0]) by {
                                            if k0 < pre_ts.len() {
                                                assert(from_seen_tile(*map, seen0, ts@[k0]));
                                                let j2 = choose|j2: int|
                                                    0 <= j2 < MAPCOUNT as int
                                                        && #[trigger] seen0[j2]
                                                        && map.contents@[j2]@.contains(
                                                            ts@[k0]);
                                                assert(seen@[j2]);
                                            } else {
                                                let k6 = k0 - pre_ts.len();
                                                assert(ts@[k0] == map.contents@[j as int]@[k6]);
                                                assert(map.contents@[j as int]@.contains(
                                                    ts@[k0]));
                                                assert(seen@[j as int]);
                                            }
                                        }
                                        assert forall|j2: int, k2: int|
                                            0 <= j2 < MAPCOUNT as int && seen@[j2]
                                                && 0 <= k2 < map.contents@[j2]@.len()
                                            implies ts@.contains(
                                                #[trigger] map.contents@[j2]@[k2]) by {
                                            if j2 == j as int {
                                                assert(ts@[pre_ts.len() + k2]
                                                    == map.contents@[j2]@[k2]);
                                            } else {
                                                assert(pre_seen[j2]);
                                                assert(pre_ts.contains(
                                                    map.contents@[j2]@[k2]));
                                                let k5 = choose|k5: int|
                                                    0 <= k5 < pre_ts.len()
                                                        && pre_ts[k5]
                                                            == map.contents@[j2]@[k2];
                                                assert(ts@[k5] == map.contents@[j2]@[k2]);
                                            }
                                        }
                                        assert(seen@[idx_of(p.x as int, p.y as int)]);
                                    }
                                }
                            }
                            b = b + 1;
                        }
                        proof {
                            assert forall|e: EntityId|
                                in_target_set(*map, aoe_item, target, user, e)
                                implies ts@.contains(e) by {
                                let (x, y): (i32, i32) = choose|x: i32, y: i32|
                                    spec_visible_from(*map, pt.x as int, pt.y as int,
                                        a.radius as int, x as int, y as int)
                                        && in_interior(x as int, y as int)
                                        && #[trigger] map.contents@[idx_of(x as int,
                                            y as int)]@.contains(e);
                                assert(blast@.contains(Point { x, y }));
                                let kb = choose|kb: int|
                                    0 <= kb < blast@.len() && blast@[kb] == (Point { x, y });
                                assert(seen@[idx_of(x as int, y as int)]);
                                let jj = idx_of(x as int, y as int);
                                let kc = choose|kc: int|
                                    0 <= kc < map.contents@[jj]@.len()
                                        && map.contents@[jj]@[kc] == e;
                                assert(ts@.contains(map.contents@[jj]@[kc]));
                            }
                            assert forall|k: int| 0 <= k < ts@.len()
                                implies in_target_set(*map, aoe_item, target, user,
                                    #[trigger] ts@[k]) by {
                                assert(from_seen_tile(*map, seen@, ts@[k]));
                                let j2 = choose|j2: int|
                                    0 <= j2 < MAPCOUNT as int && #[trigger] seen@[j2]
                                        && map.contents@[j2]@.contains(ts@[k]);
                                let (x, y): (i32, i32) = choose|x: i32, y: i32|
                                    spec_visible_from(*map, pt.x as int, pt.y as int,
                                        a.radius as int, x as int, y as int)
                                        && in_interior(x as int, y as int)
                                        && #[trigger] idx_of(x as int, y as int) == j2;
                                assert(map.contents@[idx_of(x as int, y as int)]@.contains(
                                    ts@[k]));
                            }
                        }
                    }
                }
            }
        }
    }
    ts
}

/// Entity slot `i` is named by some still-valid handle in the target list.
pub open spec fn listed(alive: Seq<bool>, gens: Seq<u64>, ts: Seq<EntityId>, i: int) -> bool {
    exists|k: int|
        0 <= k < ts.len() && (#[trigger] ts[k]).idx == i && valid_ref(alive, gens, ts[k])
}

/// Stats after healing: hit points rise by `heal` but are capped at the
/// maximum.
pub open spec fn healed(s: CombatStats, heal: int) -> CombatStats {
    CombatStats {
        max_hp: s.max_hp,
        hp: (if s.hp + heal > s.max_hp { s.max_hp as int } else { s.hp + heal }) as i32,
        defense: s.defense,
        power: s.power,
    }
}

/// Marks every targeted entity as confused for `turns` turns; when the
/// player did it, each named target is reported.
#[verifier::rlimit(60)]
pub fn apply_confusion(
    confusions: &mut Column<Confusion>,
    alive: &Vec<bool>,
    gens: &Vec<u64>,
    ts: &Vec<EntityId>,
    turns: i32,
    names: &Column<Name>,
    item_idx: usize,
    user_is_player: bool,
    log: &mut GameLog,
)
    requires
        old(confusions)@.len() == alive@.len(),
        gens@.len() == alive@.len(),
        names@.len() == alive@.len(),
        item_idx < alive@.len(),
    ensures
        final(confusions)@.len() == old(confusions)@.len(),
        forall|i: int| 0 <= i < final(confusions)@.len()
            ==> final(confusions)@[i] == (if listed(alive@, gens@, ts@, i) {
                Some(Confusion { turns })
            } else {
                old(confusions)@[i]
            }),
        log_extended(old(log).entries@, final(log).entries@),
        !user_is_player ==> final(log).entries@ == old(log).entries@,
        // when something was reported, the newest entry names this very item
        // and one of its targets
        final(log).entries@.len() > old(log).entries@.len()
            ==> exists|i: int|
                listed(alive@, gens@, ts@, i) && names@[i] is Some
                    && names@[item_idx as int] is Some
                    && (final(log).entries@[0])@
                        == confuse_message(names@[item_idx as int]->Some_0.name@,
                            names@[i]->Some_0.name@),
{
    let m: usize = ts.len();
    let mut k: usize = 0;
    proof {
        lemma_log_extended_refl(old(log).entries@);
    }
    while k < m
        invariant
            confusions@.len() == alive@.len(),
            gens@.len() == alive@.len(),
            names@.len() == alive@.len(),
            item_idx < alive@.len(),
            m == ts@.len(),
            k <= m,
            forall|i: int| 0 <= i < confusions@.len()
                ==> confusions@[i] == (if prefix_listed(alive@, gens@, ts@, k as int, i) {
                    Some(Confusion { turns })
                } else {
                    old(confusions)@[i]
                }),
            log_extended(old(log).entries@, log.entries@),
            !user_is_player ==> log.entries@ == old(log).entries@,
            log.entries@.len() > old(log).entries@.len()
                ==> exists|i: int|
                    listed(alive@, gens@, ts@, i) && names@[i] is Some
                        && names@[item_idx as int] is Some
                        && (log.entries@[0])@
                            == confuse_message(names@[item_idx as int]->Some_0.name@,
                                names@[i]->Some_0.name@),
        decreases m - k,
    {
        let e = ts[k];
        let is_valid: bool = e.idx < alive.len() && alive[e.idx] && gens[e.idx] == e.gen;
        if is_valid {
            confusions.insert(e.idx, Confusion { turns });
            if user_is_player && names.contains(item_idx) && names.contains(e.idx) {
                let ghost pre_log = log.entries@;
                let msg = match (names.get(item_idx), names.get(e.idx)) {
                    (Some(inm), Some(tnm)) => format_confuse(&inm.name, &tnm.name),
                    _ => crate::messages::fixed_message(""),
                };
                log.log(msg);
                proof {
                    lemma_log_extended_insert(pre_log, log.entries@[0]);
                    lemma_log_extended_trans(old(log).entries@, pre_log, log.entries@);
                    assert(listed(alive@, gens@, ts@, e.idx as int));
                    assert((log.entries@[0])@ == confuse_message(
                        names@[item_idx as int]->Some_0.name@,
                        names@[e.idx as int]->Some_0.name@));
                }
            }
        }
        proof {
            lemma_prefix_listed_step(alive@, gens@, ts@, k as int);
        }
        k = k + 1;
    }
    proof {
        assert forall|i: int| 0 <= i < confusions@.len()
            implies prefix_listed(alive@, gens@, ts@, m as int, i) == listed(alive@, gens@,
                ts@, i) by {}
    }
}

/// Some valid handle among the first `k` names slot `i`.
pub open spec fn prefix_listed(
    alive: Seq<bool>, gens: Seq<u64>, ts: Seq<EntityId>, k: int, i: int,
) -> bool {
    exists|k2: int|
        0 <= k2 < k && k2 < ts.len() && (#[trigger] ts[k2]).idx == i
            && valid_ref(alive, gens, ts[k2])
}

/// One more list entry extends the listed prefix by that entry's slot alone.
pub proof fn lemma_prefix_listed_step(alive: Seq<bool>, gens: Seq<u64>, ts: Seq<EntityId>, k: int)
    requires
        0 <= k < ts.len(),
    ensures
        forall|i: int|
            #![trigger prefix_listed(alive, gens, ts, k + 1, i)]
            prefix_listed(alive, gens, ts, k + 1, i)
                == (prefix_listed(alive, gens, ts, k, i)
                    || (ts[k].idx == i && valid_ref(alive, gens, ts[k]))),
{
    assert forall|i: int|
        prefix_listed(alive, gens, ts, k + 1, i)
            == (prefix_listed(alive, gens, ts, k, i)
                || (ts[k].idx == i && valid_ref(alive, gens, ts[k]))) by {
        if prefix_listed(alive, gens, ts, k + 1, i) {
            let k2 = choose|k2: int|
                0 <= k2 < k + 1 && k2 < ts.len() && (#[trigger] ts[k2]).idx == i
                    && valid_ref(alive, gens, ts[k2]);
            if k2 < k {
                assert(prefix_listed(alive, gens, ts, k, i));
            }
        }
        if prefix_listed(alive, gens, ts, k, i) {
            let k2 = choose|k2: int|
                0 <= k2 < k && k2 < ts.len() && (#[trigger] ts[k2]).idx == i
                    && valid_ref(alive, gens, ts[k2]);
            assert(prefix_listed(alive, gens, ts, k + 1, i));
        }
        if ts[k].idx == i && valid_ref(alive, gens, ts[k]) {
            assert(0 <= k < k + 1 && k < ts.len() && (ts[k]).idx == i
                && valid_ref(alive, gens, ts[k]));
            assert(prefix_listed(alive, gens, ts, k + 1, i));
        }
    }
}

/// Heals every targeted entity that has combat stats: hit points rise by
/// `heal`, capped at the entity's maximum; the player's draughts are
/// reported.
#[verifier::rlimit(60)]
pub fn apply_healing(
    stats: &mut Column<CombatStats>,
    alive: &Vec<bool>,
    gens: &Vec<u64>,
    ts: &Vec<EntityId>,
    heal: i32,
    names: &Column<Name>,
    item_idx: usize,
    user_is_player: bool,
    log: &mut GameLog,
)
    requires
        old(stats)@.len() == alive@.len(),
        gens@.len() == alive@.len(),
        names@.len() == alive@.len(),
        item_idx < alive@.len(),
        0 <= heal,
        forall|k1: int, k2: int| 0 <= k1 < k2 < ts@.len()
            ==> (#[trigger] ts@[k1]).idx != (#[trigger] ts@[k2]).idx,
    ensures
        final(stats)@.len() == old(stats)@.len(),
        forall|i: int| 0 <= i < final(stats)@.len()
            ==> final(stats)@[i] == (if listed(alive@, gens@, ts@, i)
                    && old(stats)@[i] is Some {
                Some(healed(old(stats)@[i]->Some_0, heal as int))
            } else {
                old(stats)@[i]
            }),
        log_extended(old(log).entries@, final(log).entries@),
        !user_is_player ==> final(log).entries@ == old(log).entries@,
        // when something was reported, the newest entry is this item's
        // healing report
        final(log).entries@.len() > old(log).entries@.len()
            ==> names@[item_idx as int] is Some
                && (final(log).entries@[0])@
                    == heal_message(names@[item_idx as int]->Some_0.name@, heal as int),
{
    let m: usize = ts.len();
    let mut k: usize = 0;
    proof {
        lemma_log_extended_refl(old(log).entries@);
    }
    while k < m
        invariant
            stats@.len() == alive@.len(),
            gens@.len() == alive@.len(),
            names@.len() == alive@.len(),
            item_idx < alive@.len(),
            m == ts@.len(),
            k <= m,
            0 <= heal,
            log_extended(old(log).entries@, log.entries@),
            !user_is_player ==> log.entries@ == old(log).entries@,
            log.entries@.len() > old(log).entries@.len()
                ==> names@[item_idx as int] is Some
                    && (log.entries@[0])@
                        == heal_message(names@[item_idx as int]->Some_0.name@,
                            heal as int),
            forall|k1: int, k2: int| 0 <= k1 < k2 < ts@.len()
                ==> (#[trigger] ts@[k1]).idx != (#[trigger] ts@[k2]).idx,
            forall|i: int| 0 <= i < stats@.len()
                ==> stats@[i] == (if prefix_listed(alive@, gens@, ts@, k as int, i)
                        && old(stats)@[i] is Some {
                    Some(healed(old(stats)@[i]->Some_0, heal as int))
                } else {
                    old(stats)@[i]
                }),
        decreases m - k,
    {
        let e = ts[k];
        let is_valid: bool = e.idx < alive.len() && alive[e.idx] && gens[e.idx] == e.gen;
        if is_valid {
            proof {
                // this slot was not touched by an earlier list entry
                if prefix_listed(alive@, gens@, ts@, k as int, e.idx as int) {
                    let k2 = choose|k2: int|
                        0 <= k2 < k as int && k2 < ts@.len()
                            && (#[trigger] ts@[k2]).idx == e.idx as int
                            && valid_ref(alive@, gens@, ts@[k2]);
                    assert(false);
                }
            }
            match stats.get(e.idx) {
                Some(s) => {
                    let cur = *s;
                    let sum: i64 = cur.hp as i64 + heal as i64;
                    let new_hp: i32 = if sum > cur.max_hp as i64 { cur.max_hp } else {
                        sum as i32
                    };
                    stats.insert(e.idx, CombatStats {
                        max_hp: cur.max_hp,
                        hp: new_hp,
                        defense: cur.defense,
                        power: cur.power,
                    });
                    if user_is_player && names.contains(item_idx) {
                        let ghost pre_log = log.entries@;
                        let msg = match names.get(item_idx) {
                            Some(inm) => format_heal(&inm.name, heal),
                            None => crate::messages::fixed_message(""),
                        };
                        log.log(msg);
                        proof {
                            lemma_log_extended_insert(pre_log, log.entries@[0]);
                            lemma_log_extended_trans(old(log).entries@, pre_log,
                                log.entries@);
                            assert((log.entries@[0])@ == heal_message(
                                names@[item_idx as int]->Some_0.name@, heal as int));
                        }
                    }
                }
                None => {}
            }
        }
        proof {
            lemma_prefix_listed_step(alive@, gens@, ts@, k as int);
        }
        k = k + 1;
    }
    proof {
        assert forall|i: int| 0 <= i < stats@.len()
            implies prefix_listed(alive@, gens@, ts@, m as int, i) == listed(alive@, gens@,
                ts@, i) by {}
    }
}

/// Records `dmg` damage against every targeted entity, adding to whatever
/// damage it has already accumulated this turn; the player's strikes are
/// reported against each named target.
#[verifier::rlimit(60)]
pub fn apply_item_damage(
    suffer: &mut Column<SufferDamage>,
    alive: &Vec<bool>,
    gens: &Vec<u64>,
    ts: &Vec<EntityId>,
    dmg: i32,
    names: &Column<Name>,
    item_idx: usize,
    user_is_player: bool,
    log: &mut GameLog,
)
    requires
        old(suffer)@.len() == alive@.len(),
        gens@.len() == alive@.len(),
        names@.len() == alive@.len(),
        item_idx < alive@.len(),
        0 <= dmg,
        suffer_nonneg(old(suffer)@),
        forall|k1: int, k2: int| 0 <= k1 < k2 < ts@.len()
            ==> (#[trigger] ts@[k1]).idx != (#[trigger] ts@[k2]).idx,
    ensures
        final(suffer)@.len() == old(suffer)@.len(),
        suffer_nonneg(final(suffer)@),
        forall|i: int| 0 <= i < final(suffer)@.len()
            ==> final(suffer)@[i] == (if listed(alive@, gens@, ts@, i) {
                Some(SufferDamage { amount: accumulate(old(suffer)@[i], dmg as int) as i32 })
            } else {
                old(suffer)@[i]
            }),
        log_extended(old(log).entries@, final(log).entries@),
        !user_is_player ==> final(log).entries@ == old(log).entries@,
        // when something was reported, the newest entry names this very item
        // and one of its targets
        final(log).entries@.len() > old(log).entries@.len()
            ==> exists|i: int|
                listed(alive@, gens@, ts@, i) && names@[i] is Some
                    && names@[item_idx as int] is Some
                    && (final(log).entries@[0])@
                        == inflict_message(names@[item_idx as int]->Some_0.name@,
                            names@[i]->Some_0.name@, dmg as int),
{
    let m: usize = ts.len();
    let mut k: usize = 0;
    proof {
        lemma_log_extended_refl(old(log).entries@);
    }
    while k < m
        invariant
            suffer@.len() == alive@.len(),
            gens@.len() == alive@.len(),
            names@.len() == alive@.len(),
            item_idx < alive@.len(),
            m == ts@.len(),
            k <= m,
            0 <= dmg,
            suffer_nonneg(suffer@),
            log_extended(old(log).entries@, log.entries@),
            !user_is_player ==> log.entries@ == old(log).entries@,
            log.entries@.len() > old(log).entries@.len()
                ==> exists|i: int|
                    listed(alive@, gens@, ts@, i) && names@[i] is Some
                        && names@[item_idx as int] is Some
                        && (log.entries@[0])@
                            == inflict_message(names@[item_idx as int]->Some_0.name@,
                                names@[i]->Some_0.name@, dmg as int),
            forall|k1: int, k2: int| 0 <= k1 < k2 < ts@.len()
                ==> (#[trigger] ts@[k1]).idx != (#[trigger] ts@[k2]).idx,
            forall|i: int| 0 <= i < suffer@.len()
                ==> suffer@[i] == (if prefix_listed(alive@, gens@, ts@, k as int, i) {
                    Some(SufferDamage {
                        amount: accumulate(old(suffer)@[i], dmg as int) as i32,
                    })
                } else {
                    old(suffer)@[i]
                }),
        decreases m - k,
    {
        let e = ts[k];
        let is_valid: bool = e.idx < alive.len() && alive[e.idx] && gens[e.idx] == e.gen;
        if is_valid {
            proof {
                if prefix_listed(alive@, gens@, ts@, k as int, e.idx as int) {
                    let k2 = choose|k2: int|
                        0 <= k2 < k as int && k2 < ts@.len()
                            && (#[trigger] ts@[k2]).idx == e.idx as int
                            && valid_ref(alive@, gens@, ts@[k2]);
                    assert(false);
                }
            }
            add_damage(suffer, e.idx, dmg);
            if user_is_player && names.contains(item_idx) && names.contains(e.idx) {
                let ghost pre_log = log.entries@;
                let msg = match (names.get(item_idx), names.get(e.idx)) {
                    (Some(inm), Some(tnm)) => format_inflict(&inm.name, &tnm.name, dmg),
                    _ => crate::messages::fixed_message(""),
                };
                log.log(msg);
                proof {
                    lemma_log_extended_insert(pre_log, log.entries@[0]);
                    lemma_log_extended_trans(old(log).entries@, pre_log, log.entries@);
                    assert(listed(alive@, gens@, ts@, e.idx as int));
                    assert((log.entries@[0])@ == inflict_message(
                        names@[item_idx as int]->Some_0.name@,
                        names@[e.idx as int]->Some_0.name@, dmg as int));
                }
            }
        }
        proof {
            lemma_prefix_listed_step(alive@, gens@, ts@, k as int);
        }
        k = k + 1;
    }
    proof {
        assert forall|i: int| 0 <= i < suffer@.len()
            implies prefix_listed(alive@, gens@, ts@, m as int, i) == listed(alive@, gens@,
                ts@, i) by {}
    }
}

/// The item in slot `j` must make way: `t0` already wears it in `slot`.
pub open spec fn unequips(
    eq0: Seq<Option<Equipped>>, names: Seq<Option<Name>>, j: int, t0: EntityId,
    slot: EquipmentSlot,
) -> bool {
    eq0[j] is Some && eq0[j]->Some_0.owner == t0 && eq0[j]->Some_0.slot == slot
        && names[j] is Some
}

/// Equipping `item_idx` into `slot` on `t0`: whatever `t0` already wore in
/// that slot comes off and goes back to its backpack, and the new item is
/// worn and leaves the backpack.
pub open spec fn equip_formula(
    eq0: Seq<Option<Equipped>>,
    eq1: Seq<Option<Equipped>>,
    bp0: Seq<Option<InBackpack>>,
    bp1: Seq<Option<InBackpack>>,
    names: Seq<Option<Name>>,
    ii: int,
    t0: EntityId,
    slot: EquipmentSlot,
) -> bool {
    &&& eq1[ii] == Some(Equipped { owner: t0, slot })
    &&& forall|j: int| 0 <= j < eq0.len() && j != ii
        ==> eq1[j] == (if unequips(eq0, names, j, t0, slot) {
            Option::<Equipped>::None
        } else {
            eq0[j]
        })
    &&& bp1[ii] is None
    &&& forall|j: int| 0 <= j < bp0.len() && j != ii
        ==> bp1[j] == (if unequips(eq0, names, j, t0, slot) {
            Some(InBackpack { owner: t0 })
        } else {
            bp0[j]
        })
}

/// Equips the item in slot `item_idx` into `slot` on `t0`, first unequipping
/// exactly whatever `t0` already wears in that slot and returning it to the
/// backpack.
fn equip_item(
    equipped: &mut Column<Equipped>,
    backpack: &mut Column<InBackpack>,
    names: &Column<Name>,
    item_idx: usize,
    t0: EntityId,
    slot: EquipmentSlot,
    player: EntityId,
    log: &mut GameLog,
)
    requires
        old(equipped)@.len() == old(backpack)@.len(),
        names@.len() == old(backpack)@.len(),
        item_idx < old(backpack)@.len(),
    ensures
        final(equipped)@.len() == old(equipped)@.len(),
        final(backpack)@.len() == old(backpack)@.len(),
        equip_formula(old(equipped)@, final(equipped)@, old(backpack)@, final(backpack)@,
            names@, item_idx as int, t0, slot),
        log_extended(old(log).entries@, final(log).entries@),
{
    let n: usize = equipped.len();
    let mut j: usize = 0;
    proof {
        lemma_log_extended_refl(old(log).entries@);
    }
    while j < n
        invariant
            n == equipped@.len(),
            backpack@.len() == n,
            names@.len() == n,
            item_idx < n,
            j <= n,
            log_extended(old(log).entries@, log.entries@),
            forall|j2: int| j <= j2 < n ==> equipped@[j2] == old(equipped)@[j2],
            forall|j2: int| j <= j2 < n ==> backpack@[j2] == old(backpack)@[j2],
            forall|j2: int| 0 <= j2 < j && j2 != item_idx
                ==> equipped@[j2] == (if unequips(old(equipped)@, names@, j2, t0, slot) {
                    Option::<Equipped>::None
                } else {
                    old(equipped)@[j2]
                }),
            forall|j2: int| 0 <= j2 < j && j2 != item_idx
                ==> backpack@[j2] == (if unequips(old(equipped)@, names@, j2, t0, slot) {
                    Some(InBackpack { owner: t0 })
                } else {
                    old(backpack)@[j2]
                }),
            item_idx < j ==> equipped@[item_idx as int] == old(equipped)@[item_idx as int],
            item_idx < j ==> backpack@[item_idx as int] == old(backpack)@[item_idx as int],
        decreases n - j,
    {
        if j != item_idx {
            let takes_off: bool = match equipped.get(j) {
                Some(e) => e.owner.idx == t0.idx && e.owner.gen == t0.gen && e.slot == slot
                    && names.contains(j),
                None => false,
            };
            if takes_off {
                equipped.remove(j);
                backpack.insert(j, InBackpack { owner: t0 });
                if t0.idx == player.idx && t0.gen == player.gen {
                    let ghost pre_log = log.entries@;
                    let msg = match names.get(j) {
                        Some(nm) => crate::messages::format_unequip(&nm.name),
                        None => crate::messages::fixed_message(""),
                    };
                    log.log(msg);
                    proof {
                        lemma_log_extended_insert(pre_log, log.entries@[0]);
                        lemma_log_extended_trans(old(log).entries@, pre_log, log.entries@);
                    }
                }
            }
        }
        j = j + 1;
    }
    equipped.insert(item_idx, Equipped { owner: t0, slot });
    backpack.remove(item_idx);
    if t0.idx == player.idx && t0.gen == player.gen && names.contains(item_idx) {
        let ghost pre_log = log.entries@;
        let msg = match names.get(item_idx) {
            Some(nm) => crate::messages::format_equip(&nm.name),
            None => crate::messages::fixed_message(""),
        };
        log.log(msg);
        proof {
            lemma_log_extended_insert(pre_log, log.entries@[0]);
            lemma_log_extended_trans(old(log).entries@, pre_log, log.entries@);
        }
    }
}

/// Every present healing facet is non-negative.
pub open spec fn heal_ok(hs: Seq<Option<ProvidesHealing>>) -> bool {
    forall|i: int| 0 <= i < hs.len() && #[trigger] hs[i] is Some
        ==> hs[i]->Some_0.heal_amount >= 0
}

/// Every present damage facet is non-negative.
pub open spec fn inflict_ok(ds: Seq<Option<InflictsDamage>>) -> bool {
    forall|i: int| 0 <= i < ds.len() && #[trigger] ds[i] is Some ==> ds[i]->Some_0.damage >= 0
}

/// Every present blast radius is modest and non-negative.
pub open spec fn aoe_ok(aoes: Seq<Option<AreaOfEffect>>) -> bool {
    forall|i: int| 0 <= i < aoes.len() && #[trigger] aoes[i] is Some
        ==> 0 <= aoes[i]->Some_0.radius <= 60
}

/// Exactly the entity in slot `i0` holds a use intent.
pub open spec fn single_use(wu: Seq<Option<WantsToUseItem>>, i0: int) -> bool {
    &&& 0 <= i0 < wu.len()
    &&& wu[i0] is Some
    &&& forall|j: int| 0 <= j < wu.len() && j != i0 ==> !(#[trigger] wu[j] is Some)
}

/// Entity slot `i` is targeted: some handle in the target set names it and
/// is still valid.
pub open spec fn targeted(
    m: GameMap, aoe: Option<AreaOfEffect>, target: Option<Point>, user: EntityId,
    alive: Seq<bool>, gens: Seq<u64>, i: int,
) -> bool {
    exists|e: EntityId|
        #[trigger] in_target_set(m, aoe, target, user, e) && e.idx == i
            && valid_ref(alive, gens, e)
}

/// The exact outcome of the single use intent in slot `i0`, facet by facet:
/// confusion, healing and damage strike every targeted entity and no other;
/// an equippable item is equipped on one member of the target set, making
/// way exactly for what that member already wore in the slot; a consumable
/// item joins the deletion queue.
pub open spec fn use_outcome(
    m: GameMap,
    alive: Seq<bool>,
    gens: Seq<u64>,
    player: EntityId,
    wu: Seq<Option<WantsToUseItem>>,
    names: Seq<Option<Name>>,
    consumables: Seq<Option<Consumable>>,
    healers: Seq<Option<ProvidesHealing>>,
    damagers: Seq<Option<InflictsDamage>>,
    aoes: Seq<Option<AreaOfEffect>>,
    equippables: Seq<Option<Equippable>>,
    conf0: Seq<Option<Confusion>>,
    conf1: Seq<Option<Confusion>>,
    stats0: Seq<Option<CombatStats>>,
    stats1: Seq<Option<CombatStats>>,
    suf0: Seq<Option<SufferDamage>>,
    suf1: Seq<Option<SufferDamage>>,
    eq0: Seq<Option<Equipped>>,
    eq1: Seq<Option<Equipped>>,
    bp0: Seq<Option<InBackpack>>,
    bp1: Seq<Option<InBackpack>>,
    del0: Seq<EntityId>,
    del1: Seq<EntityId>,
    i0: int,
) -> bool {
    let intent = wu[i0]->Some_0;
    let item = intent.item;
    let ii = item.idx as int;
    let user = EntityId { idx: i0 as usize, gen: gens[i0] };
    if alive[i0] && valid_ref(alive, gens, item) {
        &&& (conf0[ii] matches Some(c) ==> forall|i: int| 0 <= i < conf1.len()
            ==> conf1[i] == (if targeted(m, aoes[ii], intent.target, user, alive, gens, i) {
                Some(Confusion { turns: c.turns })
            } else {
                conf0[i]
            }))
        &&& (conf0[ii] is None ==> conf1 == conf0)
        &&& (healers[ii] matches Some(h) ==> forall|i: int| 0 <= i < stats1.len()
            ==> stats1[i] == (if targeted(m, aoes[ii], intent.target, user, alive, gens, i)
                    && stats0[i] is Some {
                Some(healed(stats0[i]->Some_0, h.heal_amount as int))
            } else {
                stats0[i]
            }))
        &&& (healers[ii] is None ==> stats1 == stats0)
        &&& (damagers[ii] matches Some(d) ==> forall|i: int| 0 <= i < suf1.len()
            ==> suf1[i] == (if targeted(m, aoes[ii], intent.target, user, alive, gens, i) {
                Some(SufferDamage { amount: accumulate(suf0[i], d.damage as int) as i32 })
            } else {
                suf0[i]
            }))
        &&& (damagers[ii] is None ==> suf1 == suf0)
        &&& (equippables[ii] matches Some(ep) ==> {
            if exists|e: EntityId|
                #[trigger] in_target_set(m, aoes[ii], intent.target, user, e) {
                exists|t0: EntityId|
                    #[trigger] in_target_set(m, aoes[ii], intent.target, user, t0)
                        && equip_formula(eq0, eq1, bp0, bp1, names, ii, t0, ep.slot)
            } else {
                eq1 == eq0 && bp1 == bp0
            }
        })
        &&& (equippables[ii] is None ==> eq1 == eq0 && bp1 == bp0)
        &&& (consumables[ii] is Some ==> del1 == del0.push(item))
        &&& (consumables[ii] is None ==> del1 == del0)
    } else {
        &&& conf1 == conf0
        &&& stats1 == stats0
        &&& suf1 == suf0
        &&& eq1 == eq0
        &&& bp1 == bp0
        &&& del1 == del0
    }
}

/// Item use.
pub struct ItemUseSystem {}

impl ItemUseSystem {
    /// For each use intent whose item handle is still valid: resolves the
    /// target set (the user themself without an aim point, the aimed tile's
    /// occupants for a plain item, the blast's occupants for an area item),
    /// then applies each facet the item carries — confusion, healing capped
    /// at maximum hit points, damage added to the turn's accumulator — to
    /// every target, equips an equippable item on the first target while
    /// unequipping exactly the slot's previous occupant, and finally queues
    /// a consumable item for deletion.  All use intents are cleared.
    pub fn run(
        alive: &Vec<bool>,
        gens: &Vec<u64>,
        wants_use: &mut Column<WantsToUseItem>,
        names: &Column<Name>,
        consumables: &Column<Consumable>,
        healers: &Column<ProvidesHealing>,
        damagers: &Column<InflictsDamage>,
        combat_stats: &mut Column<CombatStats>,
        suffer: &mut Column<SufferDamage>,
        aoes: &Column<AreaOfEffect>,
        confusions: &mut Column<Confusion>,
        equippables: &Column<Equippable>,
        equipped: &mut Column<Equipped>,
        backpack: &mut Column<InBackpack>,
        map: &GameMap,
        player: EntityId,
        log: &mut GameLog,
        deletions: &mut Vec<EntityId>,
    )
        requires
            map.wf(),
            contents_disjoint(*map),
            gens@.len() == alive@.len(),
            old(wants_use)@.len() == alive@.len(),
            names@.len() == alive@.len(),
            consumables@.len() == alive@.len(),
            healers@.len() == alive@.len(),
            damagers@.len() == alive@.len(),
            old(combat_stats)@.len() == alive@.len(),
            old(suffer)@.len() == alive@.len(),
            aoes@.len() == alive@.len(),
            old(confusions)@.len() == alive@.len(),
            equippables@.len() == alive@.len(),
            old(equipped)@.len() == alive@.len(),
            old(backpack)@.len() == alive@.len(),
            heal_ok(healers@),
            inflict_ok(damagers@),
            aoe_ok(aoes@),
            suffer_nonneg(old(suffer)@),
        ensures
            final(wants_use)@.len() == old(wants_use)@.len(),
            final(combat_stats)@.len() == old(combat_stats)@.len(),
            final(suffer)@.len() == old(suffer)@.len(),
            final(confusions)@.len() == old(confusions)@.len(),
            final(equipped)@.len() == old(equipped)@.len(),
            final(backpack)@.len() == old(backpack)@.len(),
            suffer_nonneg(final(suffer)@),
            log_extended(old(log).entries@, final(log).entries@),
            forall|j: int| 0 <= j < final(wants_use)@.len() ==> final(wants_use)@[j] is None,
            (forall|j: int| 0 <= j < alive@.len() ==> !(#[trigger] old(wants_use)@[j] is Some))
                ==> final(combat_stats)@ == old(combat_stats)@
                    && final(suffer)@ == old(suffer)@
                    && final(confusions)@ == old(confusions)@
                    && final(equipped)@ == old(equipped)@
                    && final(backpack)@ == old(backpack)@
                    && final(deletions)@ == old(deletions)@
                    && final(log).entries@ == old(log).entries@,
            forall|i0: int|
                single_use(old(wants_use)@, i0)
                    ==> use_outcome(*map, alive@, gens@, player, old(wants_use)@, names@,
                        consumables@, healers@, damagers@, aoes@, equippables@,
                        old(confusions)@, final(confusions)@,
                        old(combat_stats)@, final(combat_stats)@,
                        old(suffer)@, final(suffer)@,
                        old(equipped)@, final(equipped)@,
                        old(backpack)@, final(backpack)@,
                        old(deletions)@, final(deletions)@, i0),
    {
        let n: usize = alive.len();
        let mut i: usize = 0;
        proof {
            lemma_log_extended_refl(old(log).entries@);
        }
        while i < n
            invariant
                map.wf(),
                contents_disjoint(*map),
                n == alive@.len(),
                gens@.len() == n,
                wants_use@.len() == n,
                names@.len() == n,
                consumables@.len() == n,
                healers@.len() == n,
                damagers@.len() == n,
                combat_stats@.len() == n,
                suffer@.len() == n,
                aoes@.len() == n,
                confusions@.len() == n,
                equippables@.len() == n,
                equipped@.len() == n,
                backpack@.len() == n,
                i <= n,
                wants_use@ == old(wants_use)@,
                heal_ok(healers@),
                inflict_ok(damagers@),
                aoe_ok(aoes@),
                suffer_nonneg(suffer@),
                log_extended(old(log).entries@, log.entries@),
                (forall|j: int| 0 <= j < n ==> !(#[trigger] old(wants_use)@[j] is Some))
                    ==> combat_stats@ == old(combat_stats)@
                        && suffer@ == old(suffer)@
                        && confusions@ == old(confusions)@
                        && equipped@ == old(equipped)@
                        && backpack@ == old(backpack)@
                        && deletions@ == old(deletions)@
                        && log.entries@ == old(log).entries@,
                forall|i0: int|
                    single_use(old(wants_use)@, i0) && i0 < i
                        ==> use_outcome(*map, alive@, gens@, player, old(wants_use)@, names@,
                            consumables@, healers@, damagers@, aoes@, equippables@,
                            old(confusions)@, confusions@,
                            old(combat_stats)@, combat_stats@,
                            old(suffer)@, suffer@,
                            old(equipped)@, equipped@,
                            old(backpack)@, backpack@,
                            old(deletions)@, deletions@, i0),
                forall|i0: int|
                    single_use(old(wants_use)@, i0) && i0 >= i
                        ==> combat_stats@ == old(combat_stats)@
                            && suffer@ == old(suffer)@
                            && confusions@ == old(confusions)@
                            && equipped@ == old(equipped)@
                            && backpack@ == old(backpack)@
                            && deletions@ == old(deletions)@
                            && log.entries@ == old(log).entries@,
            decreases n - i,
        {
            let has: bool = alive[i] && wants_use.contains(i);
            if has {
                let intent: WantsToUseItem = match wants_use.get(i) {
                    Some(w) => *w,
                    None => WantsToUseItem {
                        item: EntityId { idx: 0, gen: 0 },
                        target: None,
                    },
                };
                let item = intent.item;
                if item.idx < n && alive[item.idx] && gens[item.idx] == item.gen {
                    let ii = item.idx;
                    let user = EntityId { idx: i, gen: gens[i] };
                    let aoe_item: Option<AreaOfEffect> = match aoes.get(ii) {
                        Some(a) => Some(*a),
                        None => None,
                    };
                    let ts = resolve_targets(map, aoe_item, intent.target, user);
                    proof {
                        assert forall|i2: int| 0 <= i2 < n
                            implies #[trigger] listed(alive@, gens@, ts@, i2)
                                == targeted(*map, aoe_item, intent.target, user, alive@,
                                    gens@, i2) by {
                            if listed(alive@, gens@, ts@, i2) {
                                let k = choose|k: int|
                                    0 <= k < ts@.len() && (#[trigger] ts@[k]).idx == i2
                                        && valid_ref(alive@, gens@, ts@[k]);
                                assert(in_target_set(*map, aoe_item, intent.target, user,
                                    ts@[k]));
                                assert(targeted(*map, aoe_item, intent.target, user,
                                    alive@, gens@, i2));
                            }
                            if targeted(*map, aoe_item, intent.target, user, alive@,
                                gens@, i2) {
                                let e = choose|e: EntityId|
                                    #[trigger] in_target_set(*map, aoe_item, intent.target,
                                        user, e) && e.idx == i2
                                        && valid_ref(alive@, gens@, e);
                                assert(ts@.contains(e));
                                let k = choose|k: int|
                                    0 <= k < ts@.len() && ts@[k] == e;
                                assert(listed(alive@, gens@, ts@, i2));
                            }
                        }
                    }
                    let user_is_player: bool = i == player.idx && gens[i] == player.gen;
                    let conf_facet: Option<i32> = match confusions.get(ii) {
                        Some(c) => Some(c.turns),
                        None => None,
                    };
                    match conf_facet {
                        Some(turns) => {
                            let ghost pre_log = log.entries@;
                            apply_confusion(confusions, alive, gens, &ts, turns, names, ii,
                                user_is_player, log);
                            proof {
                                lemma_log_extended_trans(old(log).entries@, pre_log,
                                    log.entries@);
                            }
                        }
                        None => {}
                    }
                    let heal_facet: Option<i32> = match healers.get(ii) {
                        Some(h) => Some(h.heal_amount),
                        None => None,
                    };
                    match heal_facet {
                        Some(amount) => {
                            let ghost pre_log = log.entries@;
                            apply_healing(combat_stats, alive, gens, &ts, amount, names,
                                ii, user_is_player, log);
                            proof {
                                lemma_log_extended_trans(old(log).entries@, pre_log,
                                    log.entries@);
                            }
                        }
                        None => {}
                    }
                    let dmg_facet: Option<i32> = match damagers.get(ii) {
                        Some(d) => Some(d.damage),
                        None => None,
                    };
                    match dmg_facet {
                        Some(dmg) => {
                            let ghost pre_log = log.entries@;
                            apply_item_damage(suffer, alive, gens, &ts, dmg, names, ii,
                                user_is_player, log);
                            proof {
                                lemma_log_extended_trans(old(log).entries@, pre_log,
                                    log.entries@);
                            }
                        }
                        None => {}
                    }
                    let equip_facet: Option<EquipmentSlot> = match equippables.get(ii) {
                        Some(ep) => Some(ep.slot),
                        None => None,
                    };
                    match equip_facet {
                        Some(slot) => {
                            if ts.len() > 0 {
                                let t0 = ts[0];
                                proof {
                                    assert(in_target_set(*map, aoe_item, intent.target,
                                        user, ts@[0]));
                                }
                                let ghost pre_log = log.entries@;
                                equip_item(equipped, backpack, names, ii, t0, slot, player,
                                    log);
                                proof {
                                    lemma_log_extended_trans(old(log).entries@, pre_log,
                                        log.entries@);
                                }
                            } else {
                                proof {
                                    if exists|e: EntityId|
                                        #[trigger] in_target_set(*map, aoe_item,
                                            intent.target, user, e) {
                                        let e = choose|e: EntityId|
                                            #[trigger] in_target_set(*map, aoe_item,
                                                intent.target, user, e);
                                        assert(ts@.contains(e));
                                    }
                                }
                            }
                        }
                        None => {}
                    }
                    if consumables.contains(ii) {
                        deletions.push(item);
                    }
                }
            }
            i = i + 1;
        }
        wants_use.clear();
    }
}

} // verus!
