//! The orchestrator: menu, hunger, player actions, and the end-to-end turn
//! pipeline.

use rusty_roguelike::components::{HungerClock, HungerState, Point};
use rusty_roguelike::damage::DamageSystem;
use rusty_roguelike::ecs::EntityId;
use rusty_roguelike::gamelog::GameLog;
use rusty_roguelike::hunger_system::HungerSystem;
use rusty_roguelike::map::{GameMap, TileType};
use rusty_roguelike::menu::{main_menu, MainMenuResult, MainMenuSelection, MenuKey};
use rusty_roguelike::particles::ParticleBuilder;
use rusty_roguelike::player::try_next_level;
use rusty_roguelike::state::{Command, RunState, State};
use rusty_roguelike::world::World;

fn fresh_state(seed: u64) -> State {
    let mut s = State::new_game(seed);
    s.runstate = RunState::AwaitingInput;
    s
}

#[test]
fn new_game_starts_in_the_main_menu_at_depth_one() {
    let s = State::new_game(42);
    assert!(matches!(
        s.runstate,
        RunState::MainMenu { menu_selection: MainMenuSelection::NewGame }
    ));
    assert_eq!(s.map.depth, 1);
    assert!(s.world.is_valid(s.player));
    assert_eq!(s.log.entries[0], "Welcome to Rusty Roguelike");
}

#[test]
fn bumping_into_a_monster_resolves_melee_with_the_exact_message() {
    let mut s = fresh_state(7);
    // clear the field: a flat arena with the player and one orc side by side
    let mut w = World::new();
    let player = rusty_roguelike::spawner::player(&mut w, 10, 10);
    rusty_roguelike::spawner::monster(&mut w, 11, 10, 111, String::from("Orc"));
    s.world = w;
    s.player = player;
    s.player_pos = Point { x: 10, y: 10 };
    let mut map = GameMap::new(1);
    for x in 1..79 {
        for y in 1..49 {
            map.tiles[GameMap::xy_idx(x, y)] = TileType::Floor;
        }
    }
    s.map = map;
    s.log = GameLog::new();
    s.particles = ParticleBuilder::new();

    // a waiting turn first, so the spatial index gets built
    assert!(!s.tick(Some(Command::SkipTurn), 0, false));
    assert!(matches!(s.runstate, RunState::PlayerTurn));
    assert!(!s.tick(None, 0, false));
    assert!(matches!(s.runstate, RunState::MonsterTurn));
    assert!(!s.tick(None, 0, false));
    assert!(matches!(s.runstate, RunState::AwaitingInput));

    // walk into the orc: that raises a melee intent instead of moving
    assert!(!s.tick(Some(Command::Move { dx: 1, dy: 0 }), 0, false));
    assert!(matches!(s.runstate, RunState::PlayerTurn));
    assert_eq!(s.player_pos, Point { x: 10, y: 10 });

    // the next pipeline pass resolves it: damage = max(0, 5 - 1) = 4
    assert!(!s.tick(None, 0, false));
    assert_eq!(s.log.entries[0], "Player hits Orc for 4 damage");
}

#[test]
fn menu_navigation_wraps_and_skips_a_missing_save() {
    // without a save, stepping down from the top skips the load entry
    assert_eq!(
        main_menu(MainMenuSelection::NewGame, Some(MenuKey::Down), false),
        MainMenuResult::NoSelection { selected: MainMenuSelection::Quit }
    );
    // with a save it lands on it
    assert_eq!(
        main_menu(MainMenuSelection::NewGame, Some(MenuKey::Down), true),
        MainMenuResult::NoSelection { selected: MainMenuSelection::LoadGame }
    );
    assert_eq!(
        main_menu(MainMenuSelection::Quit, Some(MenuKey::Down), true),
        MainMenuResult::NoSelection { selected: MainMenuSelection::NewGame }
    );
    assert_eq!(
        main_menu(MainMenuSelection::Quit, Some(MenuKey::Up), false),
        MainMenuResult::NoSelection { selected: MainMenuSelection::NewGame }
    );
    assert_eq!(
        main_menu(MainMenuSelection::LoadGame, Some(MenuKey::Select), true),
        MainMenuResult::Selected { selected: MainMenuSelection::LoadGame }
    );
    assert_eq!(
        main_menu(MainMenuSelection::NewGame, None, true),
        MainMenuResult::NoSelection { selected: MainMenuSelection::NewGame }
    );
}

#[test]
fn quitting_is_only_possible_from_the_menu() {
    let mut s = State::new_game(3);
    let quit = s.tick(Some(Command::MenuSelect), 0, false);
    // selecting "Begin New Game" does not quit; it starts the run
    assert!(!quit);
    assert!(matches!(s.runstate, RunState::PreRun));
}

#[test]
fn the_hunger_clock_worsens_step_by_step() {
    let mut w = World::new();
    let player = w.create_entity();
    w.hunger_clocks.insert(
        player.idx,
        HungerClock { state: HungerState::WellFed, duration: 1 },
    );
    let mut log = GameLog::new();
    HungerSystem::run(&w.alive, &mut w.hunger_clocks, &mut w.suffer_damage, player, true,
        false, &mut log);
    let c = *w.hunger_clocks.get(player.idx).unwrap();
    assert!(matches!(c.state, HungerState::Normal));
    assert_eq!(c.duration, 200);
    assert_eq!(log.entries[0], "You are no longer well fed");
    // nothing happens on the other side's turn
    HungerSystem::run(&w.alive, &mut w.hunger_clocks, &mut w.suffer_damage, player, false,
        true, &mut log);
    assert_eq!(w.hunger_clocks.get(player.idx).unwrap().duration, 200);
}

#[test]
fn starving_entities_take_damage() {
    let mut w = World::new();
    let player = w.create_entity();
    let monster = w.create_entity();
    w.hunger_clocks.insert(
        monster.idx,
        HungerClock { state: HungerState::Starving, duration: 1 },
    );
    let mut log = GameLog::new();
    HungerSystem::run(&w.alive, &mut w.hunger_clocks, &mut w.suffer_damage, player, false,
        true, &mut log);
    assert_eq!(w.suffer_damage.get(monster.idx).unwrap().amount, 1);
    // a second starving turn accumulates
    HungerSystem::run(&w.alive, &mut w.hunger_clocks, &mut w.suffer_damage, player, false,
        true, &mut log);
    assert_eq!(w.suffer_damage.get(monster.idx).unwrap().amount, 2);
    DamageSystem::run(&mut w.combat_stats, &mut w.suffer_damage);
    assert!(!w.suffer_damage.contains(monster.idx));
}

#[test]
fn there_is_no_way_down_from_a_plain_floor() {
    let mut map = GameMap::new(1);
    map.tiles[GameMap::xy_idx(10, 10)] = TileType::Floor;
    map.tiles[GameMap::xy_idx(11, 10)] = TileType::DownStairs;
    let mut log = GameLog::new();
    assert!(!try_next_level(&map, Point { x: 10, y: 10 }, &mut log));
    assert_eq!(log.entries[0], "There is no way down from here");
    assert!(try_next_level(&map, Point { x: 11, y: 10 }, &mut log));
}

#[test]
fn descending_rebuilds_the_dungeon_one_level_down() {
    let mut s = State::new_game(5);
    s.runstate = RunState::NextLevel;
    assert!(!s.tick(None, 0, false));
    assert!(matches!(s.runstate, RunState::PreRun));
    assert_eq!(s.map.depth, 2);
    assert!(s.world.is_valid(s.player));
    assert!(s
        .log
        .entries
        .iter()
        .any(|e| e == "You descend to the next level and take a moment to heal"));
}

#[test]
fn a_dead_player_ends_the_run_in_game_over() {
    let mut s = fresh_state(9);
    // strike the player down; the next pipeline pass notices the death
    let stats = *s.world.combat_stats.get(s.player.idx).unwrap();
    s.world.combat_stats.insert(
        s.player.idx,
        rusty_roguelike::components::CombatStats {
            max_hp: stats.max_hp,
            hp: 0,
            defense: stats.defense,
            power: stats.power,
        },
    );
    s.runstate = RunState::PlayerTurn;
    assert!(!s.tick(None, 0, false));
    assert!(matches!(s.runstate, RunState::GameOver));
    // acknowledging the defeat resets to the menu with a fresh world
    assert!(!s.tick(Some(Command::MenuSelect), 0, false));
    assert!(matches!(
        s.runstate,
        RunState::MainMenu { menu_selection: MainMenuSelection::NewGame }
    ));
    assert!(s.world.is_valid(s.player));
    assert_eq!(s.map.depth, 1);
}

#[test]
fn intent_handles_to_deleted_entities_are_ignored() {
    let mut s = fresh_state(11);
    let ghost_handle = EntityId { idx: 0, gen: 999 };
    // a melee intent against a handle that validates nowhere is skipped
    s.world
        .wants_to_melee
        .insert(s.player.idx, rusty_roguelike::components::WantsToMelee {
            target: ghost_handle,
        });
    let hp_before = s.world.combat_stats.get(s.player.idx).unwrap().hp;
    s.runstate = RunState::PlayerTurn;
    assert!(!s.tick(None, 0, false));
    assert_eq!(s.world.combat_stats.get(s.player.idx).unwrap().hp, hp_before);
    assert!(!s.world.wants_to_melee.contains(s.player.idx));
}


#[test]
fn a_slain_monster_is_gone_before_the_next_pass() {
    let mut s = fresh_state(13);
    let mut w = World::new();
    let player = rusty_roguelike::spawner::player(&mut w, 10, 10);
    let orc = rusty_roguelike::spawner::monster(&mut w, 11, 10, 111, String::from("Orc"));
    s.world = w;
    s.player = player;
    s.player_pos = Point { x: 10, y: 10 };
    let mut map = GameMap::new(1);
    for x in 1..79 {
        for y in 1..49 {
            map.tiles[GameMap::xy_idx(x, y)] = TileType::Floor;
        }
    }
    s.map = map;
    s.log = GameLog::new();
    s.particles = ParticleBuilder::new();
    // leave the orc at death's door and strike once
    s.world.combat_stats.insert(
        orc.idx,
        rusty_roguelike::components::CombatStats { max_hp: 16, hp: 1, defense: 1, power: 4 },
    );
    s.world.wants_to_melee.insert(
        player.idx,
        rusty_roguelike::components::WantsToMelee { target: orc },
    );
    s.runstate = RunState::PlayerTurn;
    assert!(!s.tick(None, 0, false));
    // the dead monster was removed in the same pass, at the flush
    assert!(!s.world.is_valid(orc));
}


#[test]
fn a_particle_with_exactly_one_frame_left_survives_it() {
    let mut w = World::new();
    let p = w.create_entity();
    w.particle_lifetimes.insert(
        p.idx,
        rusty_roguelike::components::ParticleLifetime { lifetime_ms: 16 },
    );
    rusty_roguelike::particles::cull_dead_particles(&mut w, 16);
    w.maintain();
    assert!(w.is_valid(p));
    assert_eq!(w.particle_lifetimes.get(p.idx).unwrap().lifetime_ms, 0);
    // the next frame takes it
    rusty_roguelike::particles::cull_dead_particles(&mut w, 16);
    w.maintain();
    assert!(!w.is_valid(p));
}
