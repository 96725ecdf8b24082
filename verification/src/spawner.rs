//! Spawning: the player, and a random scatter of monsters for each room.

use vstd::prelude::*;
use crate::components::{
    BlocksTile, CombatStats, Monster, Name, Player, Position, Renderable, Rgb, Viewshed,
};
use crate::ecs::EntityId;
use crate::map::on_map;
use crate::rect::Rect;
use crate::rng::{rng_range, rng_roll_dice};
use crate::world::World;

verus! {

const MAX_MONSTERS: i32 = 4;

/// Growth of a world by spawning: nothing that existed is disturbed, no
/// stored component worsens, and the deletion queue is untouched.  Any
/// component present afterwards in a column the spawner does not fill was
/// already there.
pub open spec fn spawn_preserves(w0: World, w1: World) -> bool {
    &&& w1.wf()
    &&& w0.cap() <= w1.cap()
    &&& w1.pending@ == w0.pending@
    &&& forall|e: EntityId| w0.spec_valid(e) ==> w1.spec_valid(e)
    &&& forall|i: int|
        0 <= i < w0.cap() && #[trigger] w0.alive@[i]
            ==> w1.alive@[i] && w1.gens@[i] == w0.gens@[i] && w1.record(i) == w0.record(i)
    &&& forall|i: int| 0 <= i < w0.cap() ==> w1.gens@[i] == #[trigger] w0.gens@[i]
    &&& forall|i: int|
        0 <= i < w0.cap() && !(#[trigger] w0.alive@[i]) && w0.gens@[i] == u64::MAX
            ==> !w1.alive@[i]
    &&& forall|i: int| 0 <= i < w1.cap() && #[trigger] w1.suffer_damage@[i] is Some
        ==> 0 <= i < w0.cap() && w0.suffer_damage@[i] == w1.suffer_damage@[i]
    &&& forall|i: int| 0 <= i < w1.cap() && #[trigger] w1.wants_to_melee@[i] is Some
        ==> 0 <= i < w0.cap() && w0.wants_to_melee@[i] == w1.wants_to_melee@[i]
    &&& forall|i: int| 0 <= i < w1.cap() && #[trigger] w1.wants_to_use@[i] is Some
        ==> 0 <= i < w0.cap() && w0.wants_to_use@[i] == w1.wants_to_use@[i]
    &&& forall|i: int| 0 <= i < w1.cap() && #[trigger] w1.wants_to_pickup@[i] is Some
        ==> 0 <= i < w0.cap() && w0.wants_to_pickup@[i] == w1.wants_to_pickup@[i]
    &&& forall|i: int| 0 <= i < w1.cap() && #[trigger] w1.wants_to_drop@[i] is Some
        ==> 0 <= i < w0.cap() && w0.wants_to_drop@[i] == w1.wants_to_drop@[i]
    &&& forall|i: int| 0 <= i < w1.cap() && #[trigger] w1.hunger_clocks@[i] is Some
        ==> 0 <= i < w0.cap() && w0.hunger_clocks@[i] == w1.hunger_clocks@[i]

    &&& forall|i: int| 0 <= i < w1.cap() && #[trigger] w1.provides_healing@[i] is Some
        ==> 0 <= i < w0.cap() && w0.provides_healing@[i] == w1.provides_healing@[i]
    &&& forall|i: int| 0 <= i < w1.cap() && #[trigger] w1.inflicts_damage@[i] is Some
        ==> 0 <= i < w0.cap() && w0.inflicts_damage@[i] == w1.inflicts_damage@[i]
    &&& forall|i: int| 0 <= i < w1.cap() && #[trigger] w1.area_of_effects@[i] is Some
        ==> 0 <= i < w0.cap() && w0.area_of_effects@[i] == w1.area_of_effects@[i]
    &&& forall|i: int| 0 <= i < w1.cap() && #[trigger] w1.positions@[i] is Some
        ==> (0 <= i < w0.cap() && w0.positions@[i] == w1.positions@[i])
            || on_map(w1.positions@[i]->Some_0.x as int, w1.positions@[i]->Some_0.y as int)
    &&& forall|i: int| 0 <= i < w1.cap() && #[trigger] w1.viewsheds@[i] is Some
        ==> (0 <= i < w0.cap() && w0.viewsheds@[i] == w1.viewsheds@[i])
            || (0 <= w1.viewsheds@[i]->Some_0.range <= 60)
}

/// Slot `i` holds a freshly spawned standard monster standing at (x, y):
/// hostile, blocking, watching, with the stock monster stats.
pub open spec fn standard_monster_at(w: World, i: int, x: int, y: int) -> bool {
    &&& w.monsters@[i] is Some
    &&& w.blocks_tile@[i] is Some
    &&& w.combat_stats@[i] == Some(CombatStats { max_hp: 16, hp: 16, defense: 1, power: 4 })
    &&& w.viewsheds@[i] is Some && w.viewsheds@[i]->Some_0.range == 8
        && w.viewsheds@[i]->Some_0.dirty
    &&& w.positions@[i] == Some(Position { x: x as i32, y: y as i32 })
    &&& w.names@[i] is Some
}

/// Slot `i` came to life in the step from `w0` to `w1`.
pub open spec fn newly_alive(w0: World, w1: World, i: int) -> bool {
    0 <= i < w1.cap() && w1.alive@[i] && !(0 <= i < w0.cap() && w0.alive@[i])
}

/// The spawner adds no player tag.
pub open spec fn no_new_players(w0: World, w1: World) -> bool {
    forall|i: int| 0 <= i < w1.cap() && #[trigger] w1.players@[i] is Some
        ==> 0 <= i < w0.cap() && w0.players@[i] == w1.players@[i]
}

/// Creates a monster at (x, y): blocking, hostile, watching, with the
/// standard monster stats.
pub fn monster(world: &mut World, x: i32, y: i32, glyph: u8, name: String) -> (e: EntityId)
    requires
        old(world).wf(),
        old(world).cap() < usize::MAX - 1,
        on_map(x as int, y as int),
    ensures
        spawn_preserves(*old(world), *final(world)),
        no_new_players(*old(world), *final(world)),
        final(world).cap() <= old(world).cap() + 1,
        final(world).spec_valid(e),
        !old(world).spec_valid(e),
        final(world).positions@[e.idx as int] == Some(Position { x, y }),
        final(world).monsters@[e.idx as int] is Some,
        final(world).blocks_tile@[e.idx as int] is Some,
        final(world).combat_stats@[e.idx as int]
            == Some(CombatStats { max_hp: 16, hp: 16, defense: 1, power: 4 }),
        final(world).names@[e.idx as int] is Some,
        final(world).viewsheds@[e.idx as int] is Some
            && final(world).viewsheds@[e.idx as int]->Some_0.range == 8
            && final(world).viewsheds@[e.idx as int]->Some_0.dirty,
        forall|i: int| newly_alive(*old(world), *final(world), i)
            ==> i == e.idx && #[trigger] standard_monster_at(*final(world), i, x as int,
                y as int),
{
    let ghost pre = *world;
    let e = world.create_entity();
    let ghost mid = *world;
    proof {
        assert(!pre.spec_valid(e)) by {
            if pre.spec_valid(e) {
                assert(e.idx != e.idx);
            }
        }
    }
    world.positions.insert(e.idx, Position { x, y });
    world.renderables.insert(e.idx, Renderable {
        glyph,
        fg: Rgb { r: 255, g: 0, b: 0 },
        bg: Rgb { r: 0, g: 0, b: 0 },
        render_order: 1,
    });
    world.viewsheds.insert(e.idx, Viewshed { tiles: Vec::new(), range: 8, dirty: true });
    world.monsters.insert(e.idx, Monster {});
    world.names.insert(e.idx, Name { name });
    world.blocks_tile.insert(e.idx, BlocksTile {});
    world.combat_stats.insert(e.idx, CombatStats { max_hp: 16, hp: 16, defense: 1, power: 4 });
    proof {
        let ii = e.idx as int;
        assert forall|i: int|
            0 <= i < world.cap() && i != ii
            implies world.record(i) == mid.record(i) by {}
        assert forall|i: int|
            0 <= i < world.cap() && i != ii
            implies 0 <= i < pre.cap() && world.record(i) == pre.record(i)
                && world.alive@[i] == pre.alive@[i] && world.gens@[i] == pre.gens@[i] by {
            if i >= pre.cap() {
                assert(i == ii);
            }
            assert(mid.record(i) == pre.record(i));
        }
        assert forall|i: int|
            0 <= i < pre.cap() && !pre.alive@[i] && pre.gens@[i] == u64::MAX
            implies !world.alive@[i] by {
            assert(world.gens@[i] == pre.gens@[i]);
            assert(i != ii);
            assert(mid.record(i) == pre.record(i));
            assert(mid.alive@[i] == pre.alive@[i]);
            assert(world.alive@[i] == mid.alive@[i]);
        }
        assert(world.suffer_damage@[ii] is None);
        assert(world.provides_healing@[ii] is None);
        assert(world.inflicts_damage@[ii] is None);
        assert(world.area_of_effects@[ii] is None);
        assert forall|i: int|
            0 <= i < pre.cap() && pre.alive@[i]
            implies world.alive@[i] && world.gens@[i] == pre.gens@[i]
                && world.record(i) == pre.record(i) by {
            assert(pre.spec_valid(EntityId { idx: i as usize, gen: pre.gens@[i] }));
            assert(i != ii);
        }
        assert forall|i: int|
            0 <= i < world.cap() && #[trigger] world.suffer_damage@[i] is Some
            implies 0 <= i < pre.cap() && pre.suffer_damage@[i] == world.suffer_damage@[i] by {
            assert(i != ii);
            assert(world.record(i) == pre.record(i));
        }
        assert(world.wants_to_melee@[ii] is None);
        assert(world.wants_to_use@[ii] is None);
        assert(world.wants_to_pickup@[ii] is None);
        assert(world.wants_to_drop@[ii] is None);
        assert(world.hunger_clocks@[ii] is None);
        assert forall|i: int|
            0 <= i < world.cap() && #[trigger] world.wants_to_melee@[i] is Some
            implies 0 <= i < pre.cap() && pre.wants_to_melee@[i] == world.wants_to_melee@[i] by {
            assert(i != ii);
            assert(world.record(i) == pre.record(i));
        }
        assert forall|i: int|
            0 <= i < world.cap() && #[trigger] world.wants_to_use@[i] is Some
            implies 0 <= i < pre.cap() && pre.wants_to_use@[i] == world.wants_to_use@[i] by {
            assert(i != ii);
            assert(world.record(i) == pre.record(i));
        }
        assert forall|i: int|
            0 <= i < world.cap() && #[trigger] world.wants_to_pickup@[i] is Some
            implies 0 <= i < pre.cap() && pre.wants_to_pickup@[i] == world.wants_to_pickup@[i] by {
            assert(i != ii);
            assert(world.record(i) == pre.record(i));
        }
        assert forall|i: int|
            0 <= i < world.cap() && #[trigger] world.wants_to_drop@[i] is Some
            implies 0 <= i < pre.cap() && pre.wants_to_drop@[i] == world.wants_to_drop@[i] by {
            assert(i != ii);
            assert(world.record(i) == pre.record(i));
        }
        assert forall|i: int|
            0 <= i < world.cap() && #[trigger] world.hunger_clocks@[i] is Some
            implies 0 <= i < pre.cap() && pre.hunger_clocks@[i] == world.hunger_clocks@[i] by {
            assert(i != ii);
            assert(world.record(i) == pre.record(i));
        }
        assert forall|i: int|
            newly_alive(pre, *world, i)
            implies i == ii && standard_monster_at(*world, i, x as int, y as int) by {
            if i != ii {
                assert(world.record(i) == pre.record(i));
                assert(world.alive@[i] == pre.alive@[i]);
            }
        }
        assert forall|i: int|
            0 <= i < world.cap() && #[trigger] world.provides_healing@[i] is Some
            implies 0 <= i < pre.cap()
                && pre.provides_healing@[i] == world.provides_healing@[i] by {
            assert(i != ii);
            assert(world.record(i) == pre.record(i));
        }
        assert forall|i: int|
            0 <= i < world.cap() && #[trigger] world.inflicts_damage@[i] is Some
            implies 0 <= i < pre.cap()
                && pre.inflicts_damage@[i] == world.inflicts_damage@[i] by {
            assert(i != ii);
            assert(world.record(i) == pre.record(i));
        }
        assert forall|i: int|
            0 <= i < world.cap() && #[trigger] world.area_of_effects@[i] is Some
            implies 0 <= i < pre.cap()
                && pre.area_of_effects@[i] == world.area_of_effects@[i] by {
            assert(i != ii);
            assert(world.record(i) == pre.record(i));
        }
        assert forall|i: int|
            0 <= i < world.cap() && #[trigger] world.positions@[i] is Some
            implies (0 <= i < pre.cap() && pre.positions@[i] == world.positions@[i])
                || on_map(world.positions@[i]->Some_0.x as int,
                    world.positions@[i]->Some_0.y as int) by {
            if i != ii {
                assert(world.record(i) == pre.record(i));
            }
        }
        assert forall|i: int|
            0 <= i < world.cap() && #[trigger] world.viewsheds@[i] is Some
            implies (0 <= i < pre.cap() && pre.viewsheds@[i] == world.viewsheds@[i])
                || (0 <= world.viewsheds@[i]->Some_0.range <= 60) by {
            if i != ii {
                assert(world.record(i) == pre.record(i));
            }
        }
        assert forall|i: int|
            0 <= i < world.cap() && #[trigger] world.players@[i] is Some
            implies 0 <= i < pre.cap() && pre.players@[i] == world.players@[i] by {
            if i != ii {
                assert(world.record(i) == pre.record(i));
            }
        }
    }
    e
}

fn orc(world: &mut World, x: i32, y: i32) -> (e: EntityId)
    requires
        old(world).wf(),
        old(world).cap() < usize::MAX - 1,
        on_map(x as int, y as int),
    ensures
        spawn_preserves(*old(world), *final(world)),
        no_new_players(*old(world), *final(world)),
        final(world).cap() <= old(world).cap() + 1,
        forall|i: int| newly_alive(*old(world), *final(world), i)
            ==> #[trigger] standard_monster_at(*final(world), i, x as int, y as int),
{
    monster(world, x, y, 111, crate::messages::fixed_message("Orc"))
}

fn goblin(world: &mut World, x: i32, y: i32) -> (e: EntityId)
    requires
        old(world).wf(),
        old(world).cap() < usize::MAX - 1,
        on_map(x as int, y as int),
    ensures
        spawn_preserves(*old(world), *final(world)),
        no_new_players(*old(world), *final(world)),
        final(world).cap() <= old(world).cap() + 1,
        forall|i: int| newly_alive(*old(world), *final(world), i)
            ==> #[trigger] standard_monster_at(*final(world), i, x as int, y as int),
{
    monster(world, x, y, 103, crate::messages::fixed_message("Goblin"))
}

/// Spawns a random monster (an orc or a goblin, on a coin flip) at (x, y).
pub fn random_monster(world: &mut World, rng: &mut rltk::RandomNumberGenerator, x: i32, y: i32)
    requires
        old(world).wf(),
        old(world).cap() < usize::MAX - 1,
        on_map(x as int, y as int),
    ensures
        spawn_preserves(*old(world), *final(world)),
        no_new_players(*old(world), *final(world)),
        final(world).cap() <= old(world).cap() + 1,
        forall|i: int| newly_alive(*old(world), *final(world), i)
            ==> #[trigger] standard_monster_at(*final(world), i, x as int, y as int),
{
    let roll = rng_roll_dice(rng, 1, 2);
    if roll == 1 {
        orc(world, x, y);
    } else {
        goblin(world, x, y);
    }
}

/// Spawns the player at (x, y) and returns the handle.
pub fn player(world: &mut World, x: i32, y: i32) -> (e: EntityId)
    requires
        old(world).wf(),
        old(world).cap() < usize::MAX - 1,
        on_map(x as int, y as int),
    ensures
        spawn_preserves(*old(world), *final(world)),
        final(world).cap() <= old(world).cap() + 1,
        final(world).spec_valid(e),
        final(world).players@[e.idx as int] is Some,
        final(world).positions@[e.idx as int] == Some(Position { x, y }),
        final(world).combat_stats@[e.idx as int]
            == Some(CombatStats { max_hp: 30, hp: 30, defense: 2, power: 5 }),
        final(world).viewsheds@[e.idx as int] is Some
            && final(world).viewsheds@[e.idx as int]->Some_0.range == 8
            && final(world).viewsheds@[e.idx as int]->Some_0.dirty,
        final(world).names@[e.idx as int] is Some
            && final(world).names@[e.idx as int]->Some_0.name@ == "Player"@,
        // the only player tag not carried over from before sits on `e`
        forall|i: int| 0 <= i < final(world).cap() && #[trigger] final(world).players@[i] is Some
            ==> i == e.idx || (0 <= i < old(world).cap() && old(world).players@[i] is Some),
{
    let ghost pre = *world;
    let e = world.create_entity();
    let ghost mid = *world;
    world.positions.insert(e.idx, Position { x, y });
    world.renderables.insert(e.idx, Renderable {
        glyph: 64,
        fg: Rgb { r: 255, g: 255, b: 0 },
        bg: Rgb { r: 0, g: 0, b: 0 },
        render_order: 0,
    });
    world.players.insert(e.idx, Player {});
    world.viewsheds.insert(e.idx, Viewshed { tiles: Vec::new(), range: 8, dirty: true });
    world.names.insert(e.idx, Name { name: crate::messages::fixed_message("Player") });
    world.combat_stats.insert(e.idx, CombatStats { max_hp: 30, hp: 30, defense: 2, power: 5 });
    proof {
        let ii = e.idx as int;
        assert forall|i: int|
            0 <= i < world.cap() && i != ii
            implies world.record(i) == mid.record(i) by {}
        assert forall|i: int|
            0 <= i < world.cap() && i != ii
            implies 0 <= i < pre.cap() && world.record(i) == pre.record(i)
                && world.alive@[i] == pre.alive@[i] && world.gens@[i] == pre.gens@[i] by {
            if i >= pre.cap() {
                assert(i == ii);
            }
            assert(mid.record(i) == pre.record(i));
        }
        assert forall|i: int|
            0 <= i < pre.cap() && !pre.alive@[i] && pre.gens@[i] == u64::MAX
            implies !world.alive@[i] by {
            assert(world.gens@[i] == pre.gens@[i]);
            assert(i != ii);
            assert(mid.record(i) == pre.record(i));
            assert(mid.alive@[i] == pre.alive@[i]);
            assert(world.alive@[i] == mid.alive@[i]);
        }
        assert(world.suffer_damage@[ii] is None);
        assert(world.provides_healing@[ii] is None);
        assert(world.inflicts_damage@[ii] is None);
        assert(world.area_of_effects@[ii] is None);
        assert forall|i: int|
            0 <= i < pre.cap() && pre.alive@[i]
            implies world.alive@[i] && world.gens@[i] == pre.gens@[i]
                && world.record(i) == pre.record(i) by {
            assert(pre.spec_valid(EntityId { idx: i as usize, gen: pre.gens@[i] }));
            assert(i != ii);
        }
        assert forall|i: int|
            0 <= i < world.cap() && #[trigger] world.suffer_damage@[i] is Some
            implies 0 <= i < pre.cap() && pre.suffer_damage@[i] == world.suffer_damage@[i] by {
            assert(i != ii);
            assert(world.record(i) == pre.record(i));
        }
        assert(world.wants_to_melee@[ii] is None);
        assert(world.wants_to_use@[ii] is None);
        assert(world.wants_to_pickup@[ii] is None);
        assert(world.wants_to_drop@[ii] is None);
        assert(world.hunger_clocks@[ii] is None);
        assert forall|i: int|
            0 <= i < world.cap() && #[trigger] world.wants_to_melee@[i] is Some
            implies 0 <= i < pre.cap() && pre.wants_to_melee@[i] == world.wants_to_melee@[i] by {
            assert(i != ii);
            assert(world.record(i) == pre.record(i));
        }
        assert forall|i: int|
            0 <= i < world.cap() && #[trigger] world.wants_to_use@[i] is Some
            implies 0 <= i < pre.cap() && pre.wants_to_use@[i] == world.wants_to_use@[i] by {
            assert(i != ii);
            assert(world.record(i) == pre.record(i));
        }
        assert forall|i: int|
            0 <= i < world.cap() && #[trigger] world.wants_to_pickup@[i] is Some
            implies 0 <= i < pre.cap() && pre.wants_to_pickup@[i] == world.wants_to_pickup@[i] by {
            assert(i != ii);
            assert(world.record(i) == pre.record(i));
        }
        assert forall|i: int|
            0 <= i < world.cap() && #[trigger] world.wants_to_drop@[i] is Some
            implies 0 <= i < pre.cap() && pre.wants_to_drop@[i] == world.wants_to_drop@[i] by {
            assert(i != ii);
            assert(world.record(i) == pre.record(i));
        }
        assert forall|i: int|
            0 <= i < world.cap() && #[trigger] world.hunger_clocks@[i] is Some
            implies 0 <= i < pre.cap() && pre.hunger_clocks@[i] == world.hunger_clocks@[i] by {
            assert(i != ii);
            assert(world.record(i) == pre.record(i));
        }
        assert forall|i: int|
            0 <= i < world.cap() && #[trigger] world.provides_healing@[i] is Some
            implies 0 <= i < pre.cap()
                && pre.provides_healing@[i] == world.provides_healing@[i] by {
            assert(i != ii);
            assert(world.record(i) == pre.record(i));
        }
        assert forall|i: int|
            0 <= i < world.cap() && #[trigger] world.inflicts_damage@[i] is Some
            implies 0 <= i < pre.cap()
                && pre.inflicts_damage@[i] == world.inflicts_damage@[i] by {
            assert(i != ii);
            assert(world.record(i) == pre.record(i));
        }
        assert forall|i: int|
            0 <= i < world.cap() && #[trigger] world.area_of_effects@[i] is Some
            implies 0 <= i < pre.cap()
                && pre.area_of_effects@[i] == world.area_of_effects@[i] by {
            assert(i != ii);
            assert(world.record(i) == pre.record(i));
        }
        assert forall|i: int|
            0 <= i < world.cap() && #[trigger] world.positions@[i] is Some
            implies (0 <= i < pre.cap() && pre.positions@[i] == world.positions@[i])
                || on_map(world.positions@[i]->Some_0.x as int,
                    world.positions@[i]->Some_0.y as int) by {
            if i != ii {
                assert(world.record(i) == pre.record(i));
            }
        }
        assert forall|i: int|
            0 <= i < world.cap() && #[trigger] world.viewsheds@[i] is Some
            implies (0 <= i < pre.cap() && pre.viewsheds@[i] == world.viewsheds@[i])
                || (0 <= world.viewsheds@[i]->Some_0.range <= 60) by {
            if i != ii {
                assert(world.record(i) == pre.record(i));
            }
        }
        assert forall|i: int|
            0 <= i < world.cap() && #[trigger] world.players@[i] is Some
            implies i == ii || (0 <= i < pre.cap() && pre.players@[i] is Some) by {
            if i != ii {
                assert(world.record(i) == pre.record(i));
            }
        }
    }
    e
}

/// Scatters a few monsters over a room: a random head count, random spots
/// inside the room with a bounded number of attempts to avoid stacking two
/// monsters on one tile.
pub fn spawn_room(world: &mut World, rng: &mut rltk::RandomNumberGenerator, room: &Rect)
    requires
        old(world).wf(),
        old(world).cap() + 16 < usize::MAX,
        crate::map_builders::room_in_bounds(*room),
        room.x1 < room.x2,
        room.y1 < room.y2,
    ensures
        spawn_preserves(*old(world), *final(world)),
        no_new_players(*old(world), *final(world)),
        final(world).cap() <= old(world).cap() + 16,
        // whatever was spawned is a standard monster on a tile of the room
        forall|i: int|
            #![trigger final(world).alive@[i]]
            newly_alive(*old(world), *final(world), i)
                ==> exists|x: int, y: int|
                    room.spec_contains(x, y)
                        && #[trigger] standard_monster_at(*final(world), i, x, y),
{
    let mut spawn_points: Vec<usize> = Vec::new();
    let num_monsters = rng_roll_dice(rng, 1, MAX_MONSTERS + 2) - 3;
    let mut m: i32 = 0;
    while m < num_monsters
        invariant
            num_monsters <= 3,
            crate::map_builders::room_in_bounds(*room),
            room.x1 < room.x2,
            room.y1 < room.y2,
            spawn_points@.len() <= 3,
            forall|k: int| 0 <= k < spawn_points@.len()
                ==> #[trigger] spawn_points@[k] < crate::map::MAPCOUNT
                    && room.spec_contains(spawn_points@[k] as int % 80,
                        spawn_points@[k] as int / 80),
        decreases num_monsters - m,
    {
        let mut added = false;
        let mut tries: i32 = 0;
        while !added && tries < 20
            invariant
                crate::map_builders::room_in_bounds(*room),
                room.x1 < room.x2,
                room.y1 < room.y2,
                spawn_points@.len() <= 3,
                tries <= 20,
                forall|k: int| 0 <= k < spawn_points@.len()
                    ==> #[trigger] spawn_points@[k] < crate::map::MAPCOUNT
                        && room.spec_contains(spawn_points@[k] as int % 80,
                            spawn_points@[k] as int / 80),
            decreases 20 - tries,
        {
            let x = room.x1 + rng_roll_dice(rng, 1, room.x2 - room.x1);
            let y = room.y1 + rng_roll_dice(rng, 1, room.y2 - room.y1);
            let idx = crate::map::GameMap::xy_idx(x, y);
            let mut present = false;
            let np: usize = spawn_points.len();
            let mut k: usize = 0;
            while k < np
                invariant
                    np == spawn_points@.len(),
                    k <= np,
                decreases np - k,
            {
                if spawn_points[k] == idx {
                    present = true;
                }
                k = k + 1;
            }
            if !present && spawn_points.len() < 3 {
                proof {
                    assert(idx as int % 80 == x as int && idx as int / 80 == y as int) by {
                        assert(idx as int == crate::map::idx_of(x as int, y as int));
                    }
                }
                spawn_points.push(idx);
                added = true;
            }
            tries = tries + 1;
        }
        m = m + 1;
    }
    let ghost w0 = *world;
    proof {
        lemma_spawn_preserves_refl(w0);
    }
    let np: usize = spawn_points.len();
    let mut k: usize = 0;
    while k < np
        invariant
            world.wf(),
            np == spawn_points@.len(),
            np <= 4,
            k <= np,
            forall|k2: int| 0 <= k2 < np
                ==> #[trigger] spawn_points@[k2] < crate::map::MAPCOUNT
                    && room.spec_contains(spawn_points@[k2] as int % 80,
                        spawn_points@[k2] as int / 80),
            spawn_preserves(w0, *world),
            no_new_players(w0, *world),
            world.cap() <= w0.cap() + k,
            w0.cap() + 16 < usize::MAX,
            w0 == *old(world),
            forall|i: int|
                #![trigger world.alive@[i]]
                newly_alive(w0, *world, i)
                    ==> exists|x: int, y: int|
                        room.spec_contains(x, y)
                            && #[trigger] standard_monster_at(*world, i, x, y),
        decreases np - k,
    {
        let idx = spawn_points[k];
        let x: i32 = (idx % crate::map::MAPWIDTH) as i32;
        let y: i32 = (idx / crate::map::MAPWIDTH) as i32;
        let ghost mid = *world;
        random_monster(world, rng, x, y);
        proof {
            lemma_spawn_preserves_trans(w0, mid, *world);
            lemma_no_new_players_trans(w0, mid, *world);
            assert forall|i: int|
                newly_alive(w0, *world, i)
                implies exists|x2: int, y2: int|
                    room.spec_contains(x2, y2)
                        && #[trigger] standard_monster_at(*world, i, x2, y2) by {
                if newly_alive(mid, *world, i) {
                    assert(standard_monster_at(*world, i, x as int, y as int));
                    assert(room.spec_contains(x as int, y as int));
                } else {
                    assert(newly_alive(w0, mid, i));
                    let (x2, y2) = choose|x2: int, y2: int|
                        room.spec_contains(x2, y2)
                            && #[trigger] standard_monster_at(mid, i, x2, y2);
                    assert(mid.alive@[i]);
                    assert(world.alive@[i] && world.gens@[i] == mid.gens@[i]
                        && world.record(i) == mid.record(i));
                    assert(standard_monster_at(*world, i, x2, y2));
                }
            }
        }
        k = k + 1;
    }
}

pub proof fn lemma_spawn_preserves_refl(w: World)
    requires
        w.wf(),
    ensures
        spawn_preserves(w, w),
{
}

pub proof fn lemma_spawn_preserves_trans(w0: World, w1: World, w2: World)
    requires
        spawn_preserves(w0, w1),
        spawn_preserves(w1, w2),
    ensures
        spawn_preserves(w0, w2),
{
    assert forall|i: int|
        0 <= i < w0.cap() && w0.alive@[i]
        implies w2.alive@[i] && w2.gens@[i] == w0.gens@[i] && w2.record(i) == w0.record(i) by {
        assert(w1.alive@[i] && w1.gens@[i] == w0.gens@[i] && w1.record(i) == w0.record(i));
    }
}

pub proof fn lemma_no_new_players_trans(w0: World, w1: World, w2: World)
    requires
        no_new_players(w0, w1),
        no_new_players(w1, w2),
    ensures
        no_new_players(w0, w2),
{
}

} // verus!
