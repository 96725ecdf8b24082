//! The turn orchestrator: the run-state machine, the fixed per-turn system
//! order, level descent and the game-over reset.

use vstd::prelude::*;
use crate::components::Point;
use crate::damage::{delete_the_dead, suffer_nonneg, DamageSystem};
use crate::ecs::EntityId;
use crate::gamelog::GameLog;
use crate::hunger_system::HungerSystem;
use crate::inventory_system::{aoe_ok, heal_ok, inflict_ok, ItemCollectionSystem, ItemDropSystem,
    ItemUseSystem};
use crate::map::{on_map, GameMap};
use crate::map_builders::{build_random_map, generated_dungeon};
use crate::map_indexing::{lemma_contents_disjoint, MapIndexingSystem};
use crate::melee_combat::MeleeCombatSystem;
use crate::menu::{main_menu, MainMenuResult, MainMenuSelection, MenuKey};
use crate::monster_ai::MonsterAI;
use crate::particles::{cull_dead_particles, ParticleBuilder, ParticleSpawnSystem};
use crate::player::{get_item, skip_turn, try_move_player, try_next_level};
use crate::rng::rng_seeded;
use crate::spawner;
use crate::visibility::{positions_on_map, ranges_ok, VisibilitySystem};
use crate::world::World;

verus! {

/// The phases of a run.
#[derive(Clone, Copy, PartialEq, Eq, Structural, Debug)]
pub enum RunState {
    MainMenu { menu_selection: MainMenuSelection },
    SaveGame,
    AwaitingInput,
    PreRun,
    PlayerTurn,
    MonsterTurn,
    ShowInventory,
    ShowDropItem,
    ShowTargeting { range: i32, item: EntityId },
    NextLevel,
    GameOver,
}

/// One discrete player command per tick, already freed of any keyboard
/// detail.
#[derive(Clone, Copy, PartialEq, Eq, Structural, Debug)]
pub enum Command {
    Move { dx: i32, dy: i32 },
    Pickup,
    ShowInventory,
    ShowDropItem,
    SkipTurn,
    Descend,
    SaveGame,
    SelectItem { item: EntityId },
    SelectTarget { x: i32, y: i32 },
    Cancel,
    MenuUp,
    MenuDown,
    MenuSelect,
}

/// A snapshot wrapper for saved games: the map travels beside the
/// serialised entities.
pub struct SerializationHelper {
    pub map: GameMap,
}

/// The whole game: the entity world, the map, and the shared resources the
/// systems take turns borrowing.
pub struct State {
    pub world: World,
    pub map: GameMap,
    pub log: GameLog,
    pub runstate: RunState,
    pub player: EntityId,
    pub player_pos: Point,
    pub particles: ParticleBuilder,
    pub rng: rltk::RandomNumberGenerator,
    pub depth: i32,
}

impl State {
    /// The orchestrator's standing invariant: a well-formed world and map,
    /// positions on the map, modest sight ranges and blast radii,
    /// non-negative damage bookkeeping, and a single player tag.
    pub open spec fn wf(self) -> bool {
        &&& self.world.wf()
        &&& self.map.wf()
        &&& self.world.cap() <= 0x0800_0000
        &&& positions_on_map(self.world.positions@)
        &&& ranges_ok(self.world.viewsheds@)
        &&& suffer_nonneg(self.world.suffer_damage@)
        &&& heal_ok(self.world.provides_healing@)
        &&& inflict_ok(self.world.inflicts_damage@)
        &&& aoe_ok(self.world.area_of_effects@)
        &&& forall|i: int|
            0 <= i < self.world.cap() && #[trigger] self.world.players@[i] is Some
                ==> i == self.player.idx
        &&& on_map(self.player_pos.x as int, self.player_pos.y as int)
        &&& forall|k: int| 0 <= k < self.particles@.len()
            ==> on_map((#[trigger] self.particles@[k]).x as int, self.particles@[k].y as int)
    }

    /// Starts a fresh run: a generated first level, the player in the first
    /// room, monsters in the others, and the main menu on screen.
    pub fn new_game(seed: u64) -> (s: State)
        ensures
            s.wf(),
            s.world.spec_valid(s.player),
            s.runstate == (RunState::MainMenu { menu_selection: MainMenuSelection::NewGame }),
            s.map.depth == 1,
            generated_dungeon(s.map, crate::components::Position {
                x: s.player_pos.x,
                y: s.player_pos.y,
            }),
    {
        let (map, start) = build_random_map(1, seed);
        let mut world = World::new();
        proof {
            assert(map.rooms@[0].spec_contains(start.x as int, start.y as int));
            assert(crate::map_builders::room_in_bounds(map.rooms@[0]));
            assert(on_map(start.x as int, start.y as int));
        }
        let ghost w_empty = world;
        let player = spawner::player(&mut world, start.x, start.y);
        proof {
            lemma_spawn_wf(w_empty, world);
        }
        let mut rng = rng_seeded(seed.wrapping_add(1));
        crate::map_builders::spawn(&mut world, &mut rng, &map);
        let mut log = GameLog::new();
        log.log(crate::messages::fixed_message("Welcome to Rusty Roguelike"));
        State {
            world,
            map,
            log,
            runstate: RunState::MainMenu { menu_selection: MainMenuSelection::NewGame },
            player,
            player_pos: Point { x: start.x, y: start.y },
            particles: ParticleBuilder::new(),
            rng,
            depth: 1,
        }
    }
}

/// Spawning keeps every piece of the orchestrator's invariant that speaks
/// of the world.
pub proof fn lemma_spawn_wf(w0: World, w1: World)
    requires
        w0.wf(),
        spawner::spawn_preserves(w0, w1),
        positions_on_map(w0.positions@),
        ranges_ok(w0.viewsheds@),
        suffer_nonneg(w0.suffer_damage@),
        heal_ok(w0.provides_healing@),
        inflict_ok(w0.inflicts_damage@),
        aoe_ok(w0.area_of_effects@),
    ensures
        positions_on_map(w1.positions@),
        ranges_ok(w1.viewsheds@),
        suffer_nonneg(w1.suffer_damage@),
        heal_ok(w1.provides_healing@),
        inflict_ok(w1.inflicts_damage@),
        aoe_ok(w1.area_of_effects@),
{
    assert forall|i: int|
        0 <= i < w1.positions@.len() && #[trigger] w1.positions@[i] is Some
        implies on_map(w1.positions@[i]->Some_0.x as int,
            w1.positions@[i]->Some_0.y as int) by {
        if 0 <= i < w0.cap() && w0.positions@[i] == w1.positions@[i] {
            assert(w0.positions@[i] is Some);
        }
    }
    assert forall|i: int|
        0 <= i < w1.viewsheds@.len() && #[trigger] w1.viewsheds@[i] is Some
        implies 0 <= w1.viewsheds@[i]->Some_0.range <= 60 by {
        if 0 <= i < w0.cap() && w0.viewsheds@[i] == w1.viewsheds@[i] {
            assert(w0.viewsheds@[i] is Some);
        }
    }
    assert forall|i: int|
        0 <= i < w1.suffer_damage@.len() && #[trigger] w1.suffer_damage@[i] is Some
        implies w1.suffer_damage@[i]->Some_0.amount >= 0 by {}
    assert forall|i: int|
        0 <= i < w1.provides_healing@.len() && #[trigger] w1.provides_healing@[i] is Some
        implies w1.provides_healing@[i]->Some_0.heal_amount >= 0 by {}
    assert forall|i: int|
        0 <= i < w1.inflicts_damage@.len() && #[trigger] w1.inflicts_damage@[i] is Some
        implies w1.inflicts_damage@[i]->Some_0.damage >= 0 by {}
    assert forall|i: int|
        0 <= i < w1.area_of_effects@.len() && #[trigger] w1.area_of_effects@[i] is Some
        implies 0 <= w1.area_of_effects@[i]->Some_0.radius <= 60 by {}
}

impl State {
    /// One full pass of the turn pipeline, in its fixed order: visibility,
    /// monster AI, spatial reindex, melee resolution, damage application,
    /// death cleanup, pickup, drop, item use, hunger, cosmetic particle
    /// spawning, and finally the structural-deletion barrier.  Returns
    /// whether the player ran out of hit points.
    pub fn run_systems(&mut self, turn_player: bool, turn_monster: bool) -> (died: bool)
        requires
            old(self).wf(),
        ensures
            final(self).wf(),
            final(self).runstate == old(self).runstate,
            final(self).player == old(self).player,
            final(self).depth == old(self).depth,
            final(self).world.pending@.len() == 0,
            // every intent is one-shot: none survives the pass
            forall|j: int| 0 <= j < final(self).world.cap()
                ==> !(#[trigger] final(self).world.wants_to_melee@[j] is Some),
            forall|j: int| 0 <= j < final(self).world.cap()
                ==> !(#[trigger] final(self).world.wants_to_use@[j] is Some),
            forall|j: int| 0 <= j < final(self).world.cap()
                ==> !(#[trigger] final(self).world.wants_to_pickup@[j] is Some),
            forall|j: int| 0 <= j < final(self).world.cap()
                ==> !(#[trigger] final(self).world.wants_to_drop@[j] is Some),
            // hunger clocks of surviving entities ticked exactly once
            forall|i: int|
                #![trigger final(self).world.hunger_clocks@[i]]
                0 <= i < old(self).world.cap() && old(self).world.alive@[i]
                    && final(self).world.alive@[i]
                    && final(self).world.gens@[i] == old(self).world.gens@[i]
                    ==> final(self).world.hunger_clocks@[i]
                        == (if old(self).world.hunger_clocks@[i] is Some
                            && crate::hunger_system::hunger_proceeds(old(self).player,
                                turn_player, turn_monster, i) {
                        Some(crate::hunger_system::hunger_next(
                            old(self).world.hunger_clocks@[i]->Some_0))
                    } else {
                        old(self).world.hunger_clocks@[i]
                    }),
    {
        proof {
            assert forall|a: int, b: int|
                0 <= a < self.world.players@.len() && 0 <= b < self.world.players@.len()
                    && #[trigger] self.world.players@[a] is Some
                    && #[trigger] self.world.players@[b] is Some
                implies a == b by {}
        }
        VisibilitySystem::run(&mut self.world.viewsheds, &self.world.positions,
            &self.world.players, &mut self.map);
        MonsterAI::run(&self.world.alive, &self.world.monsters, &mut self.world.viewsheds,
            &mut self.world.positions, &self.map, self.player_pos);
        MapIndexingSystem::run(&mut self.map, &self.world.alive, &self.world.gens,
            &self.world.positions, &self.world.blocks_tile);
        proof {
            lemma_contents_disjoint(self.map, self.world.alive@, self.world.gens@,
                self.world.positions@, self.world.blocks_tile@);
        }
        MeleeCombatSystem::run(&self.world.alive, &self.world.gens,
            &mut self.world.wants_to_melee, &self.world.names, &self.world.combat_stats,
            &mut self.world.suffer_damage, &self.world.melee_power_bonuses,
            &self.world.defense_bonuses, &self.world.equipped, &self.world.positions,
            &mut self.particles, &mut self.log);
        DamageSystem::run(&mut self.world.combat_stats, &mut self.world.suffer_damage);
        // death cleanup comes right after combat, before the inventory passes
        let ghost before_sweep = self.world;
        let died = delete_the_dead(&mut self.world, self.player);
        let ghost after_sweep = self.world;
        ItemCollectionSystem::run(&self.world.alive, &self.world.gens,
            &mut self.world.wants_to_pickup, &mut self.world.positions, &self.world.names,
            &mut self.world.in_backpacks, self.player, &mut self.log);
        ItemDropSystem::run(&self.world.alive, &self.world.gens,
            &mut self.world.wants_to_drop, &mut self.world.positions, &self.world.names,
            &mut self.world.in_backpacks, self.player, &mut self.log);
        ItemUseSystem::run(&self.world.alive, &self.world.gens, &mut self.world.wants_to_use,
            &self.world.names, &self.world.consumables, &self.world.provides_healing,
            &self.world.inflicts_damage, &mut self.world.combat_stats,
            &mut self.world.suffer_damage, &self.world.area_of_effects,
            &mut self.world.confusions, &self.world.equippables, &mut self.world.equipped,
            &mut self.world.in_backpacks, &self.map, self.player, &mut self.log,
            &mut self.world.pending);
        HungerSystem::run(&self.world.alive, &mut self.world.hunger_clocks,
            &mut self.world.suffer_damage, self.player, turn_player, turn_monster,
            &mut self.log);
        let particle_count: usize = self.particles.len();
        let ghost before_spawn = self.world;
        if particle_count <= 0x0010_0000 && self.world.alive.len() <= 0x07F0_0000 {
            ParticleSpawnSystem::run(&mut self.world, &mut self.particles);
        } else {
            self.particles.clear();
        }
        let ghost before_maintain = self.world;
        self.world.maintain();
        proof {
            lemma_maintain_keeps(before_maintain, self.world, self.player);
            let w1 = self.world;
            let w0 = before_maintain;
            assert forall|j: int| 0 <= j < w1.cap()
                implies !(#[trigger] w1.wants_to_melee@[j] is Some) by {
                if w1.wants_to_melee@[j] is Some {
                    if w0.slot_doomed(j) {
                        assert(w1.record_empty(j));
                    } else {
                        assert(w1.record(j) == w0.record(j));
                        assert(w0.wants_to_melee@[j] is Some);
                        assert(0 <= j < before_spawn.cap()
                            && before_spawn.wants_to_melee@[j] is Some);
                        assert(after_sweep.record(j) == before_sweep.record(j));
                        assert(before_sweep.wants_to_melee@[j] is Some);
                    }
                    assert(false);
                }
            }
            assert forall|j: int| 0 <= j < w1.cap()
                implies !(#[trigger] w1.wants_to_use@[j] is Some) by {
                if w1.wants_to_use@[j] is Some {
                    if w0.slot_doomed(j) {
                        assert(w1.record_empty(j));
                    } else {
                        assert(w1.record(j) == w0.record(j));
                        assert(w0.wants_to_use@[j] is Some);
                        assert(0 <= j < before_spawn.cap()
                            && before_spawn.wants_to_use@[j] is Some);
                    }
                    assert(false);
                }
            }
            assert forall|j: int| 0 <= j < w1.cap()
                implies !(#[trigger] w1.wants_to_pickup@[j] is Some) by {
                if w1.wants_to_pickup@[j] is Some {
                    if w0.slot_doomed(j) {
                        assert(w1.record_empty(j));
                    } else {
                        assert(w1.record(j) == w0.record(j));
                        assert(w0.wants_to_pickup@[j] is Some);
                        assert(0 <= j < before_spawn.cap()
                            && before_spawn.wants_to_pickup@[j] is Some);
                    }
                    assert(false);
                }
            }
            assert forall|j: int| 0 <= j < w1.cap()
                implies !(#[trigger] w1.wants_to_drop@[j] is Some) by {
                if w1.wants_to_drop@[j] is Some {
                    if w0.slot_doomed(j) {
                        assert(w1.record_empty(j));
                    } else {
                        assert(w1.record(j) == w0.record(j));
                        assert(w0.wants_to_drop@[j] is Some);
                        assert(0 <= j < before_spawn.cap()
                            && before_spawn.wants_to_drop@[j] is Some);
                    }
                    assert(false);
                }
            }
            assert forall|i: int|
                0 <= i < old(self).world.cap() && old(self).world.alive@[i]
                    && w1.alive@[i] && w1.gens@[i] == old(self).world.gens@[i]
                implies w1.hunger_clocks@[i]
                    == (if old(self).world.hunger_clocks@[i] is Some
                        && crate::hunger_system::hunger_proceeds(old(self).player,
                            turn_player, turn_monster, i) {
                    Some(crate::hunger_system::hunger_next(
                        old(self).world.hunger_clocks@[i]->Some_0))
                } else {
                    old(self).world.hunger_clocks@[i]
                }) by {
                assert(before_sweep.cap() == old(self).world.cap());
                assert(after_sweep.cap() == before_sweep.cap());
                assert(before_spawn.cap() == after_sweep.cap());
                assert(0 <= i < w0.cap());
                if w0.slot_doomed(i) {
                    assert(!w1.alive@[i]);
                } else {
                    assert(w1.record(i) == w0.record(i));
                    assert(after_sweep.record(i) == before_sweep.record(i));
                    assert(after_sweep.alive@ == before_sweep.alive@);
                    assert(before_spawn.alive@[i]);
                    assert(w0.alive@[i] && w0.gens@[i] == before_spawn.gens@[i]
                        && w0.record(i) == before_spawn.record(i));
                }
            }
        }
        died
    }
}

/// The deletion barrier keeps every piece of the orchestrator's invariant
/// that speaks of the world: a retired slot carries nothing at all, and the
/// others are untouched.
pub proof fn lemma_maintain_keeps(w0: World, w1: World, player: EntityId)
    requires
        w0.wf(),
        w1.wf(),
        w1.cap() == w0.cap(),
        forall|i: int| 0 <= i < w0.cap() && !w0.slot_doomed(i)
            ==> w1.record(i) == w0.record(i) && w1.alive@[i] == w0.alive@[i]
                && w1.gens@[i] == w0.gens@[i],
        forall|i: int| 0 <= i < w0.cap() && w0.slot_doomed(i)
            ==> !w1.alive@[i] && w1.record_empty(i),
        positions_on_map(w0.positions@),
        ranges_ok(w0.viewsheds@),
        suffer_nonneg(w0.suffer_damage@),
        heal_ok(w0.provides_healing@),
        inflict_ok(w0.inflicts_damage@),
        aoe_ok(w0.area_of_effects@),
        forall|i: int| 0 <= i < w0.cap() && #[trigger] w0.players@[i] is Some
            ==> i == player.idx,
    ensures
        positions_on_map(w1.positions@),
        ranges_ok(w1.viewsheds@),
        suffer_nonneg(w1.suffer_damage@),
        heal_ok(w1.provides_healing@),
        inflict_ok(w1.inflicts_damage@),
        aoe_ok(w1.area_of_effects@),
        forall|i: int| 0 <= i < w1.cap() && #[trigger] w1.players@[i] is Some
            ==> i == player.idx,
{
    assert forall|i: int|
        0 <= i < w1.positions@.len() && #[trigger] w1.positions@[i] is Some
        implies on_map(w1.positions@[i]->Some_0.x as int,
            w1.positions@[i]->Some_0.y as int) by {
        if w0.slot_doomed(i) {
            assert(w1.record_empty(i));
            assert(false);
        } else {
            assert(w1.record(i) == w0.record(i));
            assert(w0.positions@[i] is Some);
        }
    }
    assert forall|i: int|
        0 <= i < w1.viewsheds@.len() && #[trigger] w1.viewsheds@[i] is Some
        implies 0 <= w1.viewsheds@[i]->Some_0.range <= 60 by {
        if w0.slot_doomed(i) {
            assert(w1.record_empty(i));
            assert(false);
        } else {
            assert(w1.record(i) == w0.record(i));
            assert(w0.viewsheds@[i] is Some);
        }
    }
    assert forall|i: int|
        0 <= i < w1.suffer_damage@.len() && #[trigger] w1.suffer_damage@[i] is Some
        implies w1.suffer_damage@[i]->Some_0.amount >= 0 by {
        if w0.slot_doomed(i) {
            assert(w1.record_empty(i));
            assert(false);
        } else {
            assert(w1.record(i) == w0.record(i));
            assert(w0.suffer_damage@[i] is Some);
        }
    }
    assert forall|i: int|
        0 <= i < w1.provides_healing@.len() && #[trigger] w1.provides_healing@[i] is Some
        implies w1.provides_healing@[i]->Some_0.heal_amount >= 0 by {
        if w0.slot_doomed(i) {
            assert(w1.record_empty(i));
            assert(false);
        } else {
            assert(w1.record(i) == w0.record(i));
            assert(w0.provides_healing@[i] is Some);
        }
    }
    assert forall|i: int|
        0 <= i < w1.inflicts_damage@.len() && #[trigger] w1.inflicts_damage@[i] is Some
        implies w1.inflicts_damage@[i]->Some_0.damage >= 0 by {
        if w0.slot_doomed(i) {
            assert(w1.record_empty(i));
            assert(false);
        } else {
            assert(w1.record(i) == w0.record(i));
            assert(w0.inflicts_damage@[i] is Some);
        }
    }
    assert forall|i: int|
        0 <= i < w1.area_of_effects@.len() && #[trigger] w1.area_of_effects@[i] is Some
        implies 0 <= w1.area_of_effects@[i]->Some_0.radius <= 60 by {
        if w0.slot_doomed(i) {
            assert(w1.record_empty(i));
            assert(false);
        } else {
            assert(w1.record(i) == w0.record(i));
            assert(w0.area_of_effects@[i] is Some);
        }
    }
    assert forall|i: int|
        0 <= i < w1.cap() && #[trigger] w1.players@[i] is Some
        implies i == player.idx by {
        if w0.slot_doomed(i) {
            assert(w1.record_empty(i));
            assert(false);
        } else {
            assert(w1.record(i) == w0.record(i));
            assert(w0.players@[i] is Some);
        }
    }
}

/// Stats after the breather on the stairs: hit points rise to at least half
/// the maximum.
pub open spec fn descend_heal(s: crate::components::CombatStats) -> crate::components::CombatStats {
    let half: int = if s.max_hp >= 0 { s.max_hp as int / 2 } else { 0 };
    crate::components::CombatStats {
        max_hp: s.max_hp,
        hp: if (s.hp as int) < half { half as i32 } else { s.hp },
        defense: s.defense,
        power: s.power,
    }
}

/// Slot `i` holds something of the player's: an item in the player's
/// backpack, or one the player wears.
pub open spec fn player_owned(w: World, player: EntityId, i: int) -> bool {
    ||| (w.in_backpacks@[i] matches Some(b) && b.owner == player)
    ||| (w.equipped@[i] matches Some(eq) && eq.owner == player)
}

/// The transitions the orchestrator may take in one tick, as laid down for
/// the turn pipeline.  A game over can arise only in the phases that run
/// the pipeline, where the player's death is noticed right after combat.
pub open spec fn tick_allowed(rs0: RunState, rs1: RunState) -> bool {
    match rs0 {
        RunState::PreRun => rs1 is AwaitingInput || rs1 is GameOver,
        RunState::AwaitingInput => rs1 is AwaitingInput || rs1 is PlayerTurn
            || rs1 is ShowInventory || rs1 is ShowDropItem || rs1 is SaveGame
            || rs1 is NextLevel,
        RunState::PlayerTurn => rs1 is MonsterTurn || rs1 is GameOver,
        RunState::MonsterTurn => rs1 is AwaitingInput || rs1 is GameOver,
        RunState::ShowInventory => rs1 is AwaitingInput || rs1 is ShowInventory
            || rs1 is ShowTargeting || rs1 is PlayerTurn,
        RunState::ShowDropItem => rs1 is AwaitingInput || rs1 is ShowDropItem
            || rs1 is PlayerTurn,
        RunState::ShowTargeting { .. } => rs1 is AwaitingInput || rs1 is ShowTargeting
            || rs1 is PlayerTurn,
        RunState::MainMenu { .. } => rs1 is MainMenu || rs1 is PreRun
            || rs1 is AwaitingInput,
        RunState::SaveGame => rs1 is MainMenu,
        RunState::NextLevel => rs1 is PreRun,
        RunState::GameOver => rs1 is GameOver || rs1 is MainMenu,
    }
}

/// How one command reads as a menu keystroke.
pub open spec fn menu_key_of(cmd: Option<Command>) -> Option<MenuKey> {
    match cmd {
        Option::None => Option::None,
        Option::Some(c) => Option::Some(match c {
            Command::MenuUp => MenuKey::Up,
            Command::MenuDown => MenuKey::Down,
            Command::MenuSelect => MenuKey::Select,
            Command::Cancel => MenuKey::Escape,
            _ => MenuKey::Other,
        }),
    }
}

/// One step clamped to a single tile in each direction.
pub open spec fn clamp_step(d: int) -> int {
    if d < -1 { -1 } else if d > 1 { 1 } else { d }
}

/// Nothing of the game changed hands: the world, the map, the shared player
/// position, the log and the particle queue are exactly as they were.
pub open spec fn input_idle(s0: State, s1: State) -> bool {
    s1.world == s0.world && s1.map == s0.map && s1.player_pos == s0.player_pos
        && s1.log == s0.log && s1.particles == s0.particles
}

impl State {
    /// Turns one player command into world changes or a new phase: moves
    /// attack or walk, a rest heals when nobody hostile watches, and the
    /// other commands open the matching modal phase or hand the turn on.
    pub fn player_input(&mut self, cmd: Option<Command>) -> (rs: RunState)
        requires
            old(self).wf(),
        ensures
            final(self).wf(),
            final(self).runstate == old(self).runstate,
            final(self).player == old(self).player,
            final(self).depth == old(self).depth,
            rs is AwaitingInput || rs is PlayerTurn || rs is ShowInventory
                || rs is ShowDropItem || rs is SaveGame || rs is NextLevel,
            ({
                match cmd {
                    Option::None => rs is AwaitingInput
                        && input_idle(*old(self), *final(self)),
                    Option::Some(c) => match c {
                        Command::Move { dx, dy } => rs is PlayerTurn
                            && crate::player::move_outcome(clamp_step(dx as int),
                                clamp_step(dy as int), old(self).world.alive@,
                                old(self).world.gens@, old(self).player, old(self).map,
                                old(self).world.combat_stats@,
                                old(self).world.positions@, final(self).world.positions@,
                                old(self).world.viewsheds@, final(self).world.viewsheds@,
                                old(self).world.wants_to_melee@,
                                final(self).world.wants_to_melee@,
                                old(self).player_pos, final(self).player_pos),
                        Command::Pickup => rs is PlayerTurn
                            && (old(self).player.idx < old(self).world.cap()
                                ==> crate::player::get_item_outcome(
                                    old(self).world.alive@, old(self).world.gens@,
                                    old(self).player, old(self).world.items@,
                                    old(self).world.positions@, old(self).player_pos,
                                    old(self).world.wants_to_pickup@,
                                    final(self).world.wants_to_pickup@,
                                    old(self).log.entries@, final(self).log.entries@))
                            && (old(self).player.idx >= old(self).world.cap()
                                ==> input_idle(*old(self), *final(self))),
                        Command::SkipTurn => rs is PlayerTurn
                            && crate::player::skip_outcome(old(self).world.alive@,
                                old(self).player, old(self).world.viewsheds@,
                                old(self).world.monsters@, old(self).map,
                                old(self).world.combat_stats@,
                                final(self).world.combat_stats@),
                        Command::ShowInventory => rs is ShowInventory
                            && input_idle(*old(self), *final(self)),
                        Command::ShowDropItem => rs is ShowDropItem
                            && input_idle(*old(self), *final(self)),
                        Command::SaveGame => rs is SaveGame
                            && input_idle(*old(self), *final(self)),
                        Command::Descend => (rs is NextLevel || rs is AwaitingInput)
                            && ((rs is NextLevel) == (old(self).map.tiles@[
                                crate::map::idx_of(old(self).player_pos.x as int,
                                    old(self).player_pos.y as int)] is DownStairs))
                            && (rs is NextLevel
                                ==> final(self).log.entries@ == old(self).log.entries@)
                            && (rs is AwaitingInput
                                ==> final(self).log.entries@
                                    == old(self).log.entries@.insert(0,
                                        final(self).log.entries@[0])
                                    && final(self).log.entries@[0]@
                                        == "There is no way down from here"@)
                            && final(self).world == old(self).world
                            && final(self).player_pos == old(self).player_pos,
                        _ => rs is AwaitingInput && input_idle(*old(self), *final(self)),
                    },
                }
            }),
    {
        match cmd {
            None => RunState::AwaitingInput,
            Some(c) => match c {
                Command::Move { dx, dy } => {
                    let sdx: i32 = if dx < -1 { -1 } else if dx > 1 { 1 } else { dx };
                    let sdy: i32 = if dy < -1 { -1 } else if dy > 1 { 1 } else { dy };
                    try_move_player(sdx, sdy, &self.world.alive, &self.world.gens,
                        self.player, &mut self.world.positions, &mut self.world.viewsheds,
                        &self.world.combat_stats, &mut self.world.wants_to_melee, &self.map,
                        &mut self.player_pos);
                    proof {
                        if !(self.player_pos == old(self).player_pos) {
                            assert(crate::player::move_in_bounds(self.player_pos.x as int,
                                self.player_pos.y as int));
                        }
                    }
                    RunState::PlayerTurn
                }
                Command::Pickup => {
                    if self.player.idx < self.world.alive.len() {
                        get_item(&self.world.alive, &self.world.gens, self.player,
                            &self.world.items, &self.world.positions, self.player_pos,
                            &mut self.world.wants_to_pickup, &mut self.log);
                    }
                    RunState::PlayerTurn
                }
                Command::ShowInventory => RunState::ShowInventory,
                Command::ShowDropItem => RunState::ShowDropItem,
                Command::SkipTurn => {
                    skip_turn(&self.world.alive, &self.world.gens, self.player,
                        &self.world.viewsheds, &self.world.monsters, &self.map,
                        &mut self.world.combat_stats);
                    RunState::PlayerTurn
                }
                Command::SaveGame => RunState::SaveGame,
                Command::Descend => {
                    if try_next_level(&self.map, self.player_pos, &mut self.log) {
                        RunState::NextLevel
                    } else {
                        RunState::AwaitingInput
                    }
                }
                _ => RunState::AwaitingInput,
            },
        }
    }

    /// Builds the next level: everything but the player and what the player
    /// carries or wears is deleted, a fresh dungeon one depth further down
    /// is generated and populated, the player is placed at its start and
    /// healed to at least half strength.
    pub fn descend(&mut self)
        requires
            old(self).wf(),
        ensures
            final(self).wf(),
            final(self).runstate == old(self).runstate,
            final(self).player == old(self).player,
            final(self).map.depth == (if old(self).map.depth < i32::MAX {
                old(self).map.depth + 1
            } else {
                old(self).map.depth as int
            }),
            final(self).depth == final(self).map.depth,
            generated_dungeon(final(self).map, crate::components::Position {
                x: final(self).player_pos.x,
                y: final(self).player_pos.y,
            }),
            // everything that is not the player and carries nothing of the
            // player's is gone
            forall|e: EntityId|
                old(self).world.spec_valid(e) && e.idx != old(self).player.idx
                    && !player_owned(old(self).world, old(self).player, e.idx as int)
                    ==> !final(self).world.spec_valid(e),
            // the player stands at the new start, refreshed: viewshed dirty
            // and hit points at least half the maximum
            old(self).world.spec_valid(old(self).player)
                && final(self).world.spec_valid(final(self).player) ==> ({
                let p = final(self).player.idx as int;
                &&& final(self).world.positions@[p] == Some(crate::components::Position {
                    x: final(self).player_pos.x,
                    y: final(self).player_pos.y,
                })
                &&& (old(self).world.viewsheds@[p] is Some
                    ==> final(self).world.viewsheds@[p] is Some
                        && final(self).world.viewsheds@[p]->Some_0.dirty)
                &&& (old(self).world.combat_stats@[p] is Some
                    ==> final(self).world.combat_stats@[p]
                        == Some(descend_heal(old(self).world.combat_stats@[p]->Some_0)))
            }),
            final(self).log.entries@ == old(self).log.entries@.insert(0,
                final(self).log.entries@[0]),
            (final(self).log.entries@[0])@
                == "You descend to the next level and take a moment to heal"@,
    {
        let n: usize = self.world.alive.len();
        let mut i: usize = 0;
        while i < n
            invariant
                self.wf(),
                n == self.world.cap(),
                i <= n,
                self.runstate == old(self).runstate,
                self.player == old(self).player,
                self.map == old(self).map,
                self.player_pos == old(self).player_pos,
                self.log == old(self).log,
                self.world.alive@ == old(self).world.alive@,
                self.world.gens@ == old(self).world.gens@,
                self.world.in_backpacks@ == old(self).world.in_backpacks@,
                self.world.equipped@ == old(self).world.equipped@,
                forall|j: int| 0 <= j < self.world.cap()
                    ==> self.world.record(j) == old(self).world.record(j),
                forall|j: int|
                    0 <= j < i && old(self).world.alive@[j] && j != old(self).player.idx
                        && !player_owned(old(self).world, old(self).player, j)
                        ==> exists|k: int|
                            0 <= k < self.world.pending@.len()
                                && #[trigger] self.world.pending@[k]
                                    == (EntityId { idx: j as usize, gen: old(self).world.gens@[j] }),
            decreases n - i,
        {
            let ghost pre_loop = self.world;
            if self.world.alive[i] && i != self.player.idx {
                let keep_backpack: bool = match self.world.in_backpacks.get(i) {
                    Some(b) => b.owner.idx == self.player.idx
                        && b.owner.gen == self.player.gen,
                    None => false,
                };
                let keep_equipped: bool = match self.world.equipped.get(i) {
                    Some(e) => e.owner.idx == self.player.idx
                        && e.owner.gen == self.player.gen,
                    None => false,
                };
                if !keep_backpack && !keep_equipped {
                    let g: u64 = self.world.gens[i];
                    self.world.delete_entity(EntityId { idx: i, gen: g });
                    proof {
                        assert(self.world.pending@.last()
                            == (EntityId { idx: i, gen: old(self).world.gens@[i as int] }));
                        assert forall|j: int|
                            0 <= j < i && old(self).world.alive@[j]
                                && j != old(self).player.idx
                                && !player_owned(old(self).world, old(self).player, j)
                            implies exists|k: int|
                                0 <= k < self.world.pending@.len()
                                    && #[trigger] self.world.pending@[k]
                                        == (EntityId {
                                        idx: j as usize,
                                        gen: old(self).world.gens@[j],
                                    }) by {
                            let k = choose|k: int|
                                0 <= k < pre_loop.pending@.len()
                                    && #[trigger] pre_loop.pending@[k]
                                        == (EntityId {
                                        idx: j as usize,
                                        gen: old(self).world.gens@[j],
                                    });
                            assert(self.world.pending@[k] == pre_loop.pending@[k]);
                        }
                    }
                }
            }
            proof {
                if !(self.world.alive@[i as int] && i != self.player.idx
                    && !player_owned(old(self).world, old(self).player, i as int)) {
                    assert forall|j: int|
                        0 <= j < i + 1 && old(self).world.alive@[j]
                            && j != old(self).player.idx
                            && !player_owned(old(self).world, old(self).player, j)
                        implies exists|k: int|
                            0 <= k < self.world.pending@.len()
                                && #[trigger] self.world.pending@[k]
                                    == (EntityId {
                                    idx: j as usize,
                                    gen: old(self).world.gens@[j],
                                }) by {
                        assert(j < i);
                    }
                }
            }
            i = i + 1;
        }
        let ghost before_maintain = self.world;
        self.world.maintain();
        proof {
            lemma_maintain_keeps(before_maintain, self.world, self.player);
            assert forall|e: EntityId|
                old(self).world.spec_valid(e) && e.idx != old(self).player.idx
                    && !player_owned(old(self).world, old(self).player, e.idx as int)
                implies !self.world.spec_valid(e)
                    && (self.world.gens@[e.idx as int] != e.gen
                        || (self.world.gens@[e.idx as int] == u64::MAX
                            && !self.world.alive@[e.idx as int])) by {
                let j = e.idx as int;
                let entry = (EntityId { idx: e.idx, gen: old(self).world.gens@[j] });
                assert(exists|k: int|
                    0 <= k < before_maintain.pending@.len()
                        && #[trigger] before_maintain.pending@[k] == entry);
                let k = choose|k: int|
                    0 <= k < before_maintain.pending@.len()
                        && #[trigger] before_maintain.pending@[k] == entry;
                assert(before_maintain.spec_valid(entry));
                assert(before_maintain.slot_doomed(j));
                assert(!self.world.alive@[j]);
            }
        }
        let ghost after_maintain = self.world;
        // a fresh dungeon one level down
        let new_depth: i32 = if self.map.depth < i32::MAX { self.map.depth + 1 } else {
            self.map.depth
        };
        let mut builder = crate::map_builders::SimpleMapBuilder::new(new_depth);
        builder.rooms_and_corridors(&mut self.rng);
        let start = builder.starting_pos;
        self.map = builder.map;
        self.depth = new_depth;
        if self.world.alive.len() <= 0x0800_0000 - 0x1000 {
            crate::map_builders::spawn(&mut self.world, &mut self.rng, &self.map);
        }
        // place and restore the player
        proof {
            assert(self.map.rooms@[0].spec_contains(start.x as int, start.y as int));
            assert(on_map(start.x as int, start.y as int));
        }
        proof {
            // a player that was real at the start and survives to the end
            // was never doomed, so the cells read below still hold the
            // original components
            if old(self).world.spec_valid(old(self).player)
                && self.world.spec_valid(self.player) {
                let p = self.player.idx as int;
                assert(before_maintain.spec_valid(self.player));
                assert(!before_maintain.slot_doomed(p)) by {
                    if before_maintain.slot_doomed(p) {
                        assert(!after_maintain.alive@[p]);
                        assert(self.world.gens@[p] == after_maintain.gens@[p]);
                        assert(!self.world.alive@[p] || self.world.gens@[p]
                            != old(self).world.gens@[p]);
                    }
                }
                assert(after_maintain.record(p) == before_maintain.record(p));
                assert(after_maintain.alive@[p]);
                assert(self.world.alive@[p]
                    && self.world.record(p) == after_maintain.record(p));
                assert(self.world.viewsheds@[p] == old(self).world.viewsheds@[p]);
                assert(self.world.combat_stats@[p] == old(self).world.combat_stats@[p]);
            }
        }
        if self.player.idx < self.world.alive.len() {
            self.world.positions.insert(self.player.idx,
                crate::components::Position { x: start.x, y: start.y });
            let vs: Option<crate::components::Viewshed> =
                match self.world.viewsheds.get(self.player.idx) {
                Some(v) => Some(crate::components::Viewshed {
                    tiles: v.tiles.clone(),
                    range: v.range,
                    dirty: true,
                }),
                None => None,
            };
            match vs {
                Some(v) => {
                    self.world.viewsheds.insert(self.player.idx, v);
                }
                None => {}
            }
            let stats: Option<crate::components::CombatStats> =
                match self.world.combat_stats.get(self.player.idx) {
                Some(s) => Some(*s),
                None => None,
            };
            match stats {
                Some(s) => {
                    let half: i32 = if s.max_hp >= 0 { s.max_hp / 2 } else { 0 };
                    let new_hp: i32 = if s.hp < half { half } else { s.hp };
                    self.world.combat_stats.insert(self.player.idx,
                        crate::components::CombatStats {
                        max_hp: s.max_hp,
                        hp: new_hp,
                        defense: s.defense,
                        power: s.power,
                    });
                }
                None => {}
            }
            proof {
                assert forall|j: int|
                    0 <= j < self.world.positions@.len()
                        && #[trigger] self.world.positions@[j] is Some
                    implies on_map(self.world.positions@[j]->Some_0.x as int,
                        self.world.positions@[j]->Some_0.y as int) by {}
                assert forall|j: int|
                    0 <= j < self.world.viewsheds@.len()
                        && #[trigger] self.world.viewsheds@[j] is Some
                    implies 0 <= self.world.viewsheds@[j]->Some_0.range <= 60 by {}
            }
        }
        self.player_pos = Point { x: start.x, y: start.y };
        self.log.log(crate::messages::fixed_message(
            "You descend to the next level and take a moment to heal"));
        proof {
            assert forall|e: EntityId|
                old(self).world.spec_valid(e) && e.idx != old(self).player.idx
                    && !player_owned(old(self).world, old(self).player, e.idx as int)
                implies !self.world.spec_valid(e) by {
                let j = e.idx as int;
                assert(j < after_maintain.cap());
                if after_maintain.gens@[j] != e.gen {
                    assert(self.world.gens@[j] == after_maintain.gens@[j]);
                } else {
                    assert(after_maintain.gens@[j] == u64::MAX
                        && !after_maintain.alive@[j]);
                    assert(!self.world.alive@[j]);
                }
            }
        }
    }

    /// Tears the ended run down and builds a brand-new one at depth one:
    /// every entity is deleted, a fresh dungeon is generated and populated,
    /// and a brand-new player stands at its start.
    pub fn game_over_cleanup(&mut self)
        requires
            old(self).wf(),
        ensures
            final(self).wf(),
            old(self).world.cap() < 0x0800_0000 - 0x1000
                ==> final(self).world.spec_valid(final(self).player)
                    && final(self).world.positions@[final(self).player.idx as int]
                        == Some(crate::components::Position {
                        x: final(self).player_pos.x,
                        y: final(self).player_pos.y,
                    })
                    && final(self).world.viewsheds@[final(self).player.idx as int] is Some
                    && final(self).world.viewsheds@[
                        final(self).player.idx as int]->Some_0.dirty
                    && final(self).world.viewsheds@[
                        final(self).player.idx as int]->Some_0.range == 8,
            final(self).runstate == old(self).runstate,
            final(self).map.depth == 1,
            final(self).depth == 1,
            generated_dungeon(final(self).map, crate::components::Position {
                x: final(self).player_pos.x,
                y: final(self).player_pos.y,
            }),
            // the ended run leaves nothing behind
            forall|e: EntityId| old(self).world.spec_valid(e)
                ==> !final(self).world.spec_valid(e),
    {
        let n: usize = self.world.alive.len();
        let mut i: usize = 0;
        while i < n
            invariant
                self.wf(),
                n == self.world.cap(),
                i <= n,
                self.runstate == old(self).runstate,
                self.map == old(self).map,
                self.player_pos == old(self).player_pos,
                self.player == old(self).player,
                self.world.alive@ == old(self).world.alive@,
                self.world.gens@ == old(self).world.gens@,
                forall|j: int|
                    0 <= j < i && old(self).world.alive@[j]
                        ==> exists|k: int|
                            0 <= k < self.world.pending@.len()
                                && #[trigger] self.world.pending@[k]
                                    == (EntityId { idx: j as usize, gen: old(self).world.gens@[j] }),
            decreases n - i,
        {
            let ghost pre_loop = self.world;
            if self.world.alive[i] {
                let g: u64 = self.world.gens[i];
                self.world.delete_entity(EntityId { idx: i, gen: g });
                proof {
                    assert(self.world.pending@.last()
                        == (EntityId { idx: i, gen: old(self).world.gens@[i as int] }));
                    assert forall|j: int|
                        0 <= j < i && old(self).world.alive@[j]
                        implies exists|k: int|
                            0 <= k < self.world.pending@.len()
                                && #[trigger] self.world.pending@[k]
                                    == (EntityId {
                                    idx: j as usize,
                                    gen: old(self).world.gens@[j],
                                }) by {
                        let k = choose|k: int|
                            0 <= k < pre_loop.pending@.len()
                                && #[trigger] pre_loop.pending@[k]
                                    == (EntityId {
                                    idx: j as usize,
                                    gen: old(self).world.gens@[j],
                                });
                        assert(self.world.pending@[k] == pre_loop.pending@[k]);
                    }
                }
            }
            i = i + 1;
        }
        let ghost before_maintain = self.world;
        self.world.maintain();
        proof {
            lemma_maintain_keeps(before_maintain, self.world, self.player);
            assert forall|e: EntityId| old(self).world.spec_valid(e)
                implies !self.world.spec_valid(e)
                    && (self.world.gens@[e.idx as int] != e.gen
                        || (self.world.gens@[e.idx as int] == u64::MAX
                            && !self.world.alive@[e.idx as int])) by {
                let j = e.idx as int;
                let entry = (EntityId { idx: e.idx, gen: old(self).world.gens@[j] });
                assert(exists|k: int|
                    0 <= k < before_maintain.pending@.len()
                        && #[trigger] before_maintain.pending@[k] == entry);
                assert(before_maintain.spec_valid(entry));
                assert(before_maintain.slot_doomed(j));
                assert(!self.world.alive@[j]);
            }
        }
        let ghost after_maintain = self.world;
        // no trace of a player tag may survive into the new run
        self.world.players.clear();
        let ghost after_clear = self.world;
        let mut builder = crate::map_builders::SimpleMapBuilder::new(1);
        builder.rooms_and_corridors(&mut self.rng);
        let start = builder.starting_pos;
        self.map = builder.map;
        self.depth = 1;
        proof {
            assert(self.map.rooms@[0].spec_contains(start.x as int, start.y as int));
            assert(on_map(start.x as int, start.y as int));
        }
        let ghost w_before_player = self.world;
        if self.world.alive.len() < 0x0800_0000 - 0x1000 {
            let new_player = spawner::player(&mut self.world, start.x, start.y);
            self.player = new_player;
            proof {
                lemma_spawn_wf(w_before_player, self.world);
            }
            if self.world.alive.len() <= 0x0800_0000 - 0x1000 {
                crate::map_builders::spawn(&mut self.world, &mut self.rng, &self.map);
                proof {
                    assert(self.world.spec_valid(self.player));
                }
            }
        }
        self.player_pos = Point { x: start.x, y: start.y };
        proof {
            assert(after_clear.gens@ == after_maintain.gens@);
            assert(after_clear.alive@ == after_maintain.alive@);
            assert forall|e: EntityId| old(self).world.spec_valid(e)
                implies !self.world.spec_valid(e) by {
                let j = e.idx as int;
                assert(j < after_clear.cap());
                if after_clear.gens@[j] != e.gen {
                    assert(self.world.gens@[j] == after_clear.gens@[j]);
                } else {
                    assert(after_clear.gens@[j] == u64::MAX && !after_clear.alive@[j]);
                    assert(!self.world.alive@[j]);
                }
            }
        }
    }

    /// One tick of the orchestrator: runs the phase the game is in, applies
    /// the player's command where one is awaited, and finally sweeps up the
    /// dead — a dead player ends the run in a game over.  Returns whether
    /// the player asked to quit from the main menu.
    pub fn tick(&mut self, cmd: Option<Command>, frame_ms: u32, save_exists: bool)
        -> (quit: bool)
        requires
            old(self).wf(),
        ensures
            final(self).wf(),
            tick_allowed(old(self).runstate, final(self).runstate),
            // a game over arises only where the pipeline runs
            final(self).runstate is GameOver && !(old(self).runstate is GameOver)
                ==> old(self).runstate is PreRun || old(self).runstate is PlayerTurn
                    || old(self).runstate is MonsterTurn,
            quit ==> old(self).runstate is MainMenu,
            ({
                match old(self).runstate {
                    RunState::PreRun | RunState::PlayerTurn | RunState::MonsterTurn => {
                        // the pipeline ran: intents are spent and the
                        // deletion queue is flushed
                        &&& forall|j: int| 0 <= j < final(self).world.cap()
                            ==> !(#[trigger] final(self).world.wants_to_melee@[j] is Some)
                        &&& forall|j: int| 0 <= j < final(self).world.cap()
                            ==> !(#[trigger] final(self).world.wants_to_use@[j] is Some)
                        &&& forall|j: int| 0 <= j < final(self).world.cap()
                            ==> !(#[trigger] final(self).world.wants_to_pickup@[j] is Some)
                        &&& forall|j: int| 0 <= j < final(self).world.cap()
                            ==> !(#[trigger] final(self).world.wants_to_drop@[j] is Some)
                        &&& final(self).world.pending@.len() == 0
                    }
                    RunState::AwaitingInput => {
                        &&& !(final(self).runstate is GameOver)
                        &&& (match cmd {
                            Option::None => final(self).runstate is AwaitingInput,
                            Option::Some(c) => match c {
                                Command::Move { .. } | Command::Pickup
                                    | Command::SkipTurn => final(self).runstate
                                        is PlayerTurn,
                                Command::ShowInventory => final(self).runstate
                                    is ShowInventory,
                                Command::ShowDropItem => final(self).runstate
                                    is ShowDropItem,
                                Command::SaveGame => final(self).runstate is SaveGame,
                                Command::Descend => (final(self).runstate is NextLevel)
                                    == (old(self).map.tiles@[crate::map::idx_of(
                                        old(self).player_pos.x as int,
                                        old(self).player_pos.y as int)] is DownStairs),
                                _ => final(self).runstate is AwaitingInput,
                            },
                        })
                    }
                    RunState::ShowInventory => {
                        match cmd {
                            Option::Some(Command::Cancel) => final(self).runstate
                                is AwaitingInput,
                            Option::Some(Command::SelectItem { item }) => {
                                if item.idx < old(self).world.cap()
                                    && old(self).world.ranged@[item.idx as int] is Some {
                                    final(self).runstate == (RunState::ShowTargeting {
                                        range: old(self).world.ranged@[
                                            item.idx as int]->Some_0.range,
                                        item,
                                    })
                                } else {
                                    final(self).runstate is PlayerTurn
                                        && (old(self).player.idx < old(self).world.cap()
                                            ==> final(self).world.wants_to_use@
                                                == old(self).world.wants_to_use@.update(
                                                    old(self).player.idx as int,
                                                    Some(crate::components::WantsToUseItem {
                                                    item,
                                                    target: Option::None,
                                                })))
                                }
                            }
                            _ => final(self).runstate == old(self).runstate,
                        }
                    }
                    RunState::ShowDropItem => {
                        match cmd {
                            Option::Some(Command::Cancel) => final(self).runstate
                                is AwaitingInput,
                            Option::Some(Command::SelectItem { item }) =>
                                final(self).runstate is PlayerTurn
                                    && (old(self).player.idx < old(self).world.cap()
                                        ==> final(self).world.wants_to_drop@
                                            == old(self).world.wants_to_drop@.update(
                                                old(self).player.idx as int,
                                                Some(crate::components::WantsToDropItem {
                                                item,
                                            }))),
                            _ => final(self).runstate == old(self).runstate,
                        }
                    }
                    RunState::ShowTargeting { range: _, item } => {
                        match cmd {
                            Option::Some(Command::Cancel) => final(self).runstate
                                is AwaitingInput,
                            Option::Some(Command::SelectTarget { x, y }) =>
                                final(self).runstate is PlayerTurn
                                    && (old(self).player.idx < old(self).world.cap()
                                        ==> final(self).world.wants_to_use@
                                            == old(self).world.wants_to_use@.update(
                                                old(self).player.idx as int,
                                                Some(crate::components::WantsToUseItem {
                                                item,
                                                target: Option::Some(Point { x, y }),
                                            }))),
                            _ => final(self).runstate == old(self).runstate,
                        }
                    }
                    RunState::MainMenu { menu_selection } => {
                        let outcome = crate::menu::spec_main_menu(menu_selection,
                            menu_key_of(cmd), save_exists);
                        &&& (outcome matches MainMenuResult::NoSelection { selected }
                            ==> final(self).runstate
                                == (RunState::MainMenu { menu_selection: selected })
                                && !quit)
                        &&& (outcome == (MainMenuResult::Selected {
                                selected: MainMenuSelection::NewGame,
                            }) ==> final(self).runstate is PreRun && !quit)
                        &&& (outcome == (MainMenuResult::Selected {
                                selected: MainMenuSelection::LoadGame,
                            }) ==> final(self).runstate is AwaitingInput && !quit)
                        &&& (outcome == (MainMenuResult::Selected {
                                selected: MainMenuSelection::Quit,
                            }) ==> quit)
                    }
                    RunState::SaveGame => final(self).runstate == (RunState::MainMenu {
                        menu_selection: MainMenuSelection::LoadGame,
                    }),
                    RunState::NextLevel => {
                        &&& final(self).runstate is PreRun
                        &&& final(self).map.depth == (if old(self).map.depth < i32::MAX {
                            old(self).map.depth + 1
                        } else {
                            old(self).map.depth as int
                        })
                        &&& generated_dungeon(final(self).map,
                            crate::components::Position {
                            x: final(self).player_pos.x,
                            y: final(self).player_pos.y,
                        })
                    }
                    RunState::GameOver => {
                        match cmd {
                            Option::Some(Command::MenuSelect)
                                | Option::Some(Command::Cancel) => final(self).runstate
                                    == (RunState::MainMenu {
                                    menu_selection: MainMenuSelection::NewGame,
                                }) && final(self).map.depth == 1,
                            _ => final(self).runstate is GameOver,
                        }
                    }
                }
            }),
    {
        cull_dead_particles(&mut self.world, frame_ms);
        let mut newrunstate = self.runstate;
        let mut quit = false;
        match newrunstate {
            RunState::PreRun => {
                let died = self.run_systems(false, false);
                newrunstate = if died { RunState::GameOver } else {
                    RunState::AwaitingInput
                };
            }
            RunState::AwaitingInput => {
                newrunstate = self.player_input(cmd);
            }
            RunState::PlayerTurn => {
                let died = self.run_systems(true, false);
                newrunstate = if died { RunState::GameOver } else {
                    RunState::MonsterTurn
                };
            }
            RunState::MonsterTurn => {
                let died = self.run_systems(false, true);
                newrunstate = if died { RunState::GameOver } else {
                    RunState::AwaitingInput
                };
            }
            RunState::ShowInventory => {
                match cmd {
                    Some(Command::Cancel) => {
                        newrunstate = RunState::AwaitingInput;
                    }
                    Some(Command::SelectItem { item }) => {
                        let mut is_ranged: Option<i32> = None;
                        if item.idx < self.world.ranged.len() {
                            match self.world.ranged.get(item.idx) {
                                Some(r) => {
                                    is_ranged = Some(r.range);
                                }
                                None => {}
                            }
                        }
                        match is_ranged {
                            Some(range) => {
                                newrunstate = RunState::ShowTargeting { range, item };
                            }
                            None => {
                                if self.player.idx < self.world.wants_to_use.len() {
                                    self.world.wants_to_use.insert(self.player.idx,
                                        crate::components::WantsToUseItem {
                                        item,
                                        target: None,
                                    });
                                }
                                newrunstate = RunState::PlayerTurn;
                            }
                        }
                    }
                    _ => {}
                }
            }
            RunState::ShowDropItem => {
                match cmd {
                    Some(Command::Cancel) => {
                        newrunstate = RunState::AwaitingInput;
                    }
                    Some(Command::SelectItem { item }) => {
                        if self.player.idx < self.world.wants_to_drop.len() {
                            self.world.wants_to_drop.insert(self.player.idx,
                                crate::components::WantsToDropItem { item });
                        }
                        newrunstate = RunState::PlayerTurn;
                    }
                    _ => {}
                }
            }
            RunState::ShowTargeting { range: _, item } => {
                match cmd {
                    Some(Command::Cancel) => {
                        newrunstate = RunState::AwaitingInput;
                    }
                    Some(Command::SelectTarget { x, y }) => {
                        if self.player.idx < self.world.wants_to_use.len() {
                            self.world.wants_to_use.insert(self.player.idx,
                                crate::components::WantsToUseItem {
                                item,
                                target: Some(Point { x, y }),
                            });
                        }
                        newrunstate = RunState::PlayerTurn;
                    }
                    _ => {}
                }
            }
            RunState::MainMenu { menu_selection } => {
                let key: Option<MenuKey> = match cmd {
                    None => None,
                    Some(Command::MenuUp) => Some(MenuKey::Up),
                    Some(Command::MenuDown) => Some(MenuKey::Down),
                    Some(Command::MenuSelect) => Some(MenuKey::Select),
                    Some(Command::Cancel) => Some(MenuKey::Escape),
                    Some(_) => Some(MenuKey::Other),
                };
                match main_menu(menu_selection, key, save_exists) {
                    MainMenuResult::NoSelection { selected } => {
                        newrunstate = RunState::MainMenu { menu_selection: selected };
                    }
                    MainMenuResult::Selected { selected } => {
                        match selected {
                            MainMenuSelection::NewGame => {
                                newrunstate = RunState::PreRun;
                            }
                            MainMenuSelection::LoadGame => {
                                newrunstate = RunState::AwaitingInput;
                            }
                            MainMenuSelection::Quit => {
                                quit = true;
                            }
                        }
                    }
                }
            }
            RunState::SaveGame => {
                newrunstate = RunState::MainMenu {
                    menu_selection: MainMenuSelection::LoadGame,
                };
            }
            RunState::NextLevel => {
                self.descend();
                newrunstate = RunState::PreRun;
            }
            RunState::GameOver => {
                match cmd {
                    Some(Command::MenuSelect) | Some(Command::Cancel) => {
                        self.game_over_cleanup();
                        newrunstate = RunState::MainMenu {
                            menu_selection: MainMenuSelection::NewGame,
                        };
                    }
                    _ => {}
                }
            }
        }
        self.runstate = newrunstate;
        quit
    }
}

} // verus!
