//! Pickup, drop, item use: healing, area damage, equipping.

use rusty_roguelike::components::{
    AreaOfEffect, CombatStats, Confusion, Consumable, EquipmentSlot, Equippable, InBackpack,
    InflictsDamage, Item, Name, Point, Position, ProvidesHealing, WantsToDropItem,
    WantsToPickupItem, WantsToUseItem,
};
use rusty_roguelike::gamelog::GameLog;
use rusty_roguelike::inventory_system::{ItemCollectionSystem, ItemDropSystem, ItemUseSystem};
use rusty_roguelike::map::{GameMap, TileType};
use rusty_roguelike::map_indexing::MapIndexingSystem;
use rusty_roguelike::world::World;

fn open_map() -> GameMap {
    let mut map = GameMap::new(1);
    for x in 1..79 {
        for y in 1..49 {
            map.tiles[GameMap::xy_idx(x, y)] = TileType::Floor;
        }
    }
    map
}

fn named(w: &mut World, idx: usize, name: &str) {
    w.names.insert(idx, Name { name: String::from(name) });
}

fn run_use(w: &mut World, map: &GameMap, player: rusty_roguelike::ecs::EntityId,
    log: &mut GameLog) {
    ItemUseSystem::run(
        &w.alive,
        &w.gens,
        &mut w.wants_to_use,
        &w.names,
        &w.consumables,
        &w.provides_healing,
        &w.inflicts_damage,
        &mut w.combat_stats,
        &mut w.suffer_damage,
        &w.area_of_effects,
        &mut w.confusions,
        &w.equippables,
        &mut w.equipped,
        &mut w.in_backpacks,
        map,
        player,
        log,
        &mut w.pending,
    );
}

#[test]
fn pickup_use_and_consume_a_healing_potion() {
    let mut w = World::new();
    let map = open_map();
    let player = w.create_entity();
    let potion = w.create_entity();
    named(&mut w, player.idx, "Player");
    named(&mut w, potion.idx, "Health Potion");
    w.players.insert(player.idx, rusty_roguelike::components::Player {});
    w.positions.insert(player.idx, Position { x: 10, y: 10 });
    w.combat_stats.insert(
        player.idx,
        CombatStats { max_hp: 30, hp: 25, defense: 2, power: 5 },
    );
    w.items.insert(potion.idx, Item {});
    w.consumables.insert(potion.idx, Consumable {});
    w.provides_healing.insert(potion.idx, ProvidesHealing { heal_amount: 8 });
    w.positions.insert(potion.idx, Position { x: 10, y: 10 });

    // pick the potion up
    w.wants_to_pickup.insert(
        player.idx,
        WantsToPickupItem { collected_by: player, item: potion },
    );
    let mut log = GameLog::new();
    ItemCollectionSystem::run(
        &w.alive,
        &w.gens,
        &mut w.wants_to_pickup,
        &mut w.positions,
        &w.names,
        &mut w.in_backpacks,
        player,
        &mut log,
    );
    assert!(!w.positions.contains(potion.idx));
    assert_eq!(w.in_backpacks.get(potion.idx).unwrap().owner, player);
    assert_eq!(log.entries[0], "You pick up the Health Potion");

    // drink it: healing rises by the amount, capped at the maximum
    w.wants_to_use.insert(player.idx, WantsToUseItem { item: potion, target: None });
    run_use(&mut w, &map, player, &mut log);
    assert_eq!(w.combat_stats.get(player.idx).unwrap().hp, 30);
    // the consumable is queued for deletion and vanishes at the barrier
    w.maintain();
    assert!(!w.is_valid(potion));
    assert!(!w.in_backpacks.contains(potion.idx));
}

#[test]
fn healing_is_capped_at_max_hp() {
    let mut w = World::new();
    let map = open_map();
    let player = w.create_entity();
    let potion = w.create_entity();
    named(&mut w, player.idx, "Player");
    named(&mut w, potion.idx, "Potion");
    w.combat_stats.insert(
        player.idx,
        CombatStats { max_hp: 30, hp: 10, defense: 2, power: 5 },
    );
    w.provides_healing.insert(potion.idx, ProvidesHealing { heal_amount: 8 });
    w.wants_to_use.insert(player.idx, WantsToUseItem { item: potion, target: None });
    let mut log = GameLog::new();
    run_use(&mut w, &map, player, &mut log);
    // 10 + 8 = 18, well under the cap
    assert_eq!(w.combat_stats.get(player.idx).unwrap().hp, 18);
}

#[test]
fn area_damage_hits_everything_in_the_blast_and_nothing_outside() {
    let mut w = World::new();
    let mut map = open_map();
    let player = w.create_entity();
    let scroll = w.create_entity();
    let near = w.create_entity();
    let at_point = w.create_entity();
    let far = w.create_entity();
    named(&mut w, player.idx, "Player");
    named(&mut w, scroll.idx, "Fireball Scroll");
    w.positions.insert(player.idx, Position { x: 10, y: 10 });
    w.positions.insert(at_point.idx, Position { x: 30, y: 20 });
    w.positions.insert(near.idx, Position { x: 32, y: 20 });
    w.positions.insert(far.idx, Position { x: 50, y: 40 });
    w.inflicts_damage.insert(scroll.idx, InflictsDamage { damage: 20 });
    w.area_of_effects.insert(scroll.idx, AreaOfEffect { radius: 3 });
    // the spatial index must be fresh for targeting
    MapIndexingSystem::run(&mut map, &w.alive, &w.gens, &w.positions, &w.blocks_tile);
    w.wants_to_use.insert(
        player.idx,
        WantsToUseItem { item: scroll, target: Some(Point { x: 30, y: 20 }) },
    );
    let mut log = GameLog::new();
    run_use(&mut w, &map, player, &mut log);
    assert_eq!(w.suffer_damage.get(at_point.idx).unwrap().amount, 20);
    assert_eq!(w.suffer_damage.get(near.idx).unwrap().amount, 20);
    assert!(!w.suffer_damage.contains(far.idx));
    assert!(!w.suffer_damage.contains(player.idx));
}

#[test]
fn plain_targeted_item_hits_only_the_aimed_tile() {
    let mut w = World::new();
    let mut map = open_map();
    let player = w.create_entity();
    let dart = w.create_entity();
    let victim = w.create_entity();
    let bystander = w.create_entity();
    named(&mut w, player.idx, "Player");
    named(&mut w, dart.idx, "Dart");
    w.positions.insert(victim.idx, Position { x: 20, y: 20 });
    w.positions.insert(bystander.idx, Position { x: 21, y: 20 });
    w.inflicts_damage.insert(dart.idx, InflictsDamage { damage: 5 });
    MapIndexingSystem::run(&mut map, &w.alive, &w.gens, &w.positions, &w.blocks_tile);
    w.wants_to_use.insert(
        player.idx,
        WantsToUseItem { item: dart, target: Some(Point { x: 20, y: 20 }) },
    );
    let mut log = GameLog::new();
    run_use(&mut w, &map, player, &mut log);
    assert_eq!(w.suffer_damage.get(victim.idx).unwrap().amount, 5);
    assert!(!w.suffer_damage.contains(bystander.idx));
}

#[test]
fn equipping_a_second_item_unequips_exactly_the_previous_one() {
    let mut w = World::new();
    let map = open_map();
    let player = w.create_entity();
    let sword = w.create_entity();
    let axe = w.create_entity();
    let shield = w.create_entity();
    named(&mut w, player.idx, "Player");
    named(&mut w, sword.idx, "Sword");
    named(&mut w, axe.idx, "Axe");
    named(&mut w, shield.idx, "Shield");
    w.equippables.insert(sword.idx, Equippable { slot: EquipmentSlot::Melee });
    w.equippables.insert(axe.idx, Equippable { slot: EquipmentSlot::Melee });
    w.equippables.insert(shield.idx, Equippable { slot: EquipmentSlot::Shield });
    w.in_backpacks.insert(sword.idx, InBackpack { owner: player });
    w.in_backpacks.insert(axe.idx, InBackpack { owner: player });
    w.in_backpacks.insert(shield.idx, InBackpack { owner: player });
    let mut log = GameLog::new();

    // equip the sword, then the shield, then swap the sword for the axe
    w.wants_to_use.insert(player.idx, WantsToUseItem { item: sword, target: None });
    run_use(&mut w, &map, player, &mut log);
    w.wants_to_use.insert(player.idx, WantsToUseItem { item: shield, target: None });
    run_use(&mut w, &map, player, &mut log);
    w.wants_to_use.insert(player.idx, WantsToUseItem { item: axe, target: None });
    run_use(&mut w, &map, player, &mut log);

    // the axe took the melee slot; the sword went back to the backpack;
    // the shield in its own slot was left alone
    let eq_axe = w.equipped.get(axe.idx).unwrap();
    assert_eq!(eq_axe.owner, player);
    assert!(matches!(eq_axe.slot, EquipmentSlot::Melee));
    assert!(!w.equipped.contains(sword.idx));
    assert_eq!(w.in_backpacks.get(sword.idx).unwrap().owner, player);
    assert!(!w.in_backpacks.contains(axe.idx));
    assert!(w.equipped.contains(shield.idx));
}

#[test]
fn dropped_items_land_at_the_droppers_feet() {
    let mut w = World::new();
    let player = w.create_entity();
    let rock = w.create_entity();
    named(&mut w, player.idx, "Player");
    named(&mut w, rock.idx, "Rock");
    w.positions.insert(player.idx, Position { x: 33, y: 7 });
    w.in_backpacks.insert(rock.idx, InBackpack { owner: player });
    w.wants_to_drop.insert(player.idx, WantsToDropItem { item: rock });
    let mut log = GameLog::new();
    ItemDropSystem::run(
        &w.alive,
        &w.gens,
        &mut w.wants_to_drop,
        &mut w.positions,
        &w.names,
        &mut w.in_backpacks,
        player,
        &mut log,
    );
    let p = w.positions.get(rock.idx).unwrap();
    assert_eq!((p.x, p.y), (33, 7));
    assert!(!w.in_backpacks.contains(rock.idx));
    assert_eq!(log.entries[0], "You drop the Rock");
}


#[test]
fn a_confusing_item_marks_its_targets() {
    let mut w = World::new();
    let mut map = open_map();
    let player = w.create_entity();
    let scroll = w.create_entity();
    let victim = w.create_entity();
    named(&mut w, player.idx, "Player");
    named(&mut w, scroll.idx, "Confusion Scroll");
    named(&mut w, victim.idx, "Orc");
    w.positions.insert(victim.idx, Position { x: 25, y: 25 });
    w.confusions.insert(scroll.idx, Confusion { turns: 4 });
    MapIndexingSystem::run(&mut map, &w.alive, &w.gens, &w.positions, &w.blocks_tile);
    w.wants_to_use.insert(
        player.idx,
        WantsToUseItem { item: scroll, target: Some(Point { x: 25, y: 25 }) },
    );
    let mut log = GameLog::new();
    run_use(&mut w, &map, player, &mut log);
    assert_eq!(w.confusions.get(victim.idx).unwrap().turns, 4);
    assert!(!w.confusions.contains(player.idx));
}

#[test]
fn picking_up_nothing_is_gently_refused() {
    let mut w = World::new();
    let player = w.create_entity();
    let mut log = GameLog::new();
    rusty_roguelike::player::get_item(
        &w.alive,
        &w.gens,
        player,
        &w.items,
        &w.positions,
        Point { x: 4, y: 4 },
        &mut w.wants_to_pickup,
        &mut log,
    );
    assert!(!w.wants_to_pickup.contains(player.idx));
    assert_eq!(log.entries[0], "There is nothing here to pick up");
}


#[test]
fn self_use_affects_the_user_not_the_player() {
    let mut w = World::new();
    let map = open_map();
    let player = w.create_entity();
    let monster = w.create_entity();
    let scroll = w.create_entity();
    named(&mut w, player.idx, "Player");
    named(&mut w, monster.idx, "Orc");
    named(&mut w, scroll.idx, "Confusion Scroll");
    w.players.insert(player.idx, rusty_roguelike::components::Player {});
    w.confusions.insert(scroll.idx, Confusion { turns: 3 });
    // the monster uses the item on itself: no target point
    w.wants_to_use.insert(monster.idx, WantsToUseItem { item: scroll, target: None });
    let mut log = GameLog::new();
    run_use(&mut w, &map, player, &mut log);
    assert_eq!(w.confusions.get(monster.idx).unwrap().turns, 3);
    assert!(!w.confusions.contains(player.idx));
}

#[test]
fn the_player_reads_about_each_item_effect() {
    let mut w = World::new();
    let map = open_map();
    let player = w.create_entity();
    let potion = w.create_entity();
    named(&mut w, player.idx, "Player");
    named(&mut w, potion.idx, "Health Potion");
    w.combat_stats.insert(
        player.idx,
        CombatStats { max_hp: 30, hp: 20, defense: 2, power: 5 },
    );
    w.provides_healing.insert(potion.idx, ProvidesHealing { heal_amount: 8 });
    w.wants_to_use.insert(player.idx, WantsToUseItem { item: potion, target: None });
    let mut log = GameLog::new();
    run_use(&mut w, &map, player, &mut log);
    assert_eq!(log.entries[0], "The Health Potion heals you by 8 points");

    // and a confusing use on another entity reads as such
    let mut map2 = open_map();
    let victim = w.create_entity();
    let scroll = w.create_entity();
    named(&mut w, victim.idx, "Orc");
    named(&mut w, scroll.idx, "Confusion Scroll");
    w.positions.insert(victim.idx, Position { x: 25, y: 25 });
    w.confusions.insert(scroll.idx, Confusion { turns: 4 });
    MapIndexingSystem::run(&mut map2, &w.alive, &w.gens, &w.positions, &w.blocks_tile);
    w.wants_to_use.insert(
        player.idx,
        WantsToUseItem { item: scroll, target: Some(Point { x: 25, y: 25 }) },
    );
    run_use(&mut w, &map2, player, &mut log);
    assert_eq!(log.entries[0], "You use Confusion Scroll on Orc, confusing them");

    // and a damaging one
    let dart = w.create_entity();
    named(&mut w, dart.idx, "Dart");
    w.inflicts_damage.insert(dart.idx, InflictsDamage { damage: 5 });
    w.wants_to_use.insert(
        player.idx,
        WantsToUseItem { item: dart, target: Some(Point { x: 25, y: 25 }) },
    );
    run_use(&mut w, &map2, player, &mut log);
    assert_eq!(log.entries[0], "You use Dart on Orc and inflict 5 damage");
}
