//! Damage accumulation, melee resolution and death cleanup.

use rusty_roguelike::components::{
    CombatStats, Equipped, EquipmentSlot, MeleePowerBonus, Name, SufferDamage, WantsToMelee,
};
use rusty_roguelike::damage::{add_damage, delete_the_dead, DamageSystem};
use rusty_roguelike::gamelog::GameLog;
use rusty_roguelike::melee_combat::MeleeCombatSystem;
use rusty_roguelike::particles::ParticleBuilder;
use rusty_roguelike::world::World;

fn named(w: &mut World, idx: usize, name: &str) {
    w.names.insert(idx, Name { name: String::from(name) });
}

#[test]
fn two_hits_accumulate_and_hp_drops_once() {
    let mut w = World::new();
    let target = w.create_entity();
    w.combat_stats.insert(
        target.idx,
        CombatStats { max_hp: 20, hp: 20, defense: 0, power: 0 },
    );
    add_damage(&mut w.suffer_damage, target.idx, 4);
    add_damage(&mut w.suffer_damage, target.idx, 7);
    // the second hit adds to the first instead of overwriting it
    assert_eq!(w.suffer_damage.get(target.idx).unwrap().amount, 11);
    DamageSystem::run(&mut w.combat_stats, &mut w.suffer_damage);
    // hit points drop exactly once, by the whole sum
    assert_eq!(w.combat_stats.get(target.idx).unwrap().hp, 9);
    assert!(!w.suffer_damage.contains(target.idx));
}

#[test]
fn hit_points_never_go_negative() {
    let mut w = World::new();
    let target = w.create_entity();
    w.combat_stats.insert(
        target.idx,
        CombatStats { max_hp: 5, hp: 5, defense: 0, power: 0 },
    );
    add_damage(&mut w.suffer_damage, target.idx, 100);
    DamageSystem::run(&mut w.combat_stats, &mut w.suffer_damage);
    assert_eq!(w.combat_stats.get(target.idx).unwrap().hp, 0);
}

#[test]
fn melee_applies_the_damage_formula() {
    let mut w = World::new();
    let attacker = w.create_entity();
    let target = w.create_entity();
    named(&mut w, attacker.idx, "Player");
    named(&mut w, target.idx, "Orc");
    w.combat_stats.insert(
        attacker.idx,
        CombatStats { max_hp: 30, hp: 30, defense: 2, power: 5 },
    );
    w.combat_stats.insert(
        target.idx,
        CombatStats { max_hp: 16, hp: 16, defense: 1, power: 4 },
    );
    w.wants_to_melee.insert(attacker.idx, WantsToMelee { target });
    let mut particles = ParticleBuilder::new();
    let mut log = GameLog::new();
    MeleeCombatSystem::run(
        &w.alive,
        &w.gens,
        &mut w.wants_to_melee,
        &w.names,
        &w.combat_stats,
        &mut w.suffer_damage,
        &w.melee_power_bonuses,
        &w.defense_bonuses,
        &w.equipped,
        &w.positions,
        &mut particles,
        &mut log,
    );
    // damage = max(0, 5 + 0 - 1 - 0) = 4, recorded, not yet applied
    assert_eq!(w.suffer_damage.get(target.idx).unwrap().amount, 4);
    assert_eq!(w.combat_stats.get(target.idx).unwrap().hp, 16);
    assert_eq!(log.entries[0], "Player hits Orc for 4 damage");
    // intents are one-shot
    assert!(!w.wants_to_melee.contains(attacker.idx));
}

#[test]
fn melee_counts_only_currently_equipped_bonuses() {
    let mut w = World::new();
    let attacker = w.create_entity();
    let target = w.create_entity();
    let sword = w.create_entity();
    let stowed = w.create_entity();
    named(&mut w, attacker.idx, "Player");
    named(&mut w, target.idx, "Orc");
    named(&mut w, sword.idx, "Sword");
    named(&mut w, stowed.idx, "Spare");
    w.combat_stats.insert(
        attacker.idx,
        CombatStats { max_hp: 30, hp: 30, defense: 2, power: 5 },
    );
    w.combat_stats.insert(
        target.idx,
        CombatStats { max_hp: 16, hp: 16, defense: 1, power: 4 },
    );
    // an equipped bonus counts; a bonus lying around does not
    w.melee_power_bonuses.insert(sword.idx, MeleePowerBonus { power: 2 });
    w.equipped.insert(sword.idx, Equipped { owner: attacker, slot: EquipmentSlot::Melee });
    w.melee_power_bonuses.insert(stowed.idx, MeleePowerBonus { power: 50 });
    w.wants_to_melee.insert(attacker.idx, WantsToMelee { target });
    let mut particles = ParticleBuilder::new();
    let mut log = GameLog::new();
    MeleeCombatSystem::run(
        &w.alive,
        &w.gens,
        &mut w.wants_to_melee,
        &w.names,
        &w.combat_stats,
        &mut w.suffer_damage,
        &w.melee_power_bonuses,
        &w.defense_bonuses,
        &w.equipped,
        &w.positions,
        &mut particles,
        &mut log,
    );
    // damage = max(0, 5 + 2 - 1 - 0) = 6
    assert_eq!(w.suffer_damage.get(target.idx).unwrap().amount, 6);
}

#[test]
fn zero_damage_is_only_logged() {
    let mut w = World::new();
    let attacker = w.create_entity();
    let target = w.create_entity();
    named(&mut w, attacker.idx, "Mouse");
    named(&mut w, target.idx, "Golem");
    w.combat_stats.insert(
        attacker.idx,
        CombatStats { max_hp: 5, hp: 5, defense: 0, power: 1 },
    );
    w.combat_stats.insert(
        target.idx,
        CombatStats { max_hp: 50, hp: 50, defense: 9, power: 1 },
    );
    w.wants_to_melee.insert(attacker.idx, WantsToMelee { target });
    let mut particles = ParticleBuilder::new();
    let mut log = GameLog::new();
    MeleeCombatSystem::run(
        &w.alive,
        &w.gens,
        &mut w.wants_to_melee,
        &w.names,
        &w.combat_stats,
        &mut w.suffer_damage,
        &w.melee_power_bonuses,
        &w.defense_bonuses,
        &w.equipped,
        &w.positions,
        &mut particles,
        &mut log,
    );
    assert!(!w.suffer_damage.contains(target.idx));
    assert_eq!(log.entries[0], "Mouse is unable to hurt Golem");
}

#[test]
fn the_dead_are_removed_and_a_dead_player_is_reported() {
    let mut w = World::new();
    let player = w.create_entity();
    let monster = w.create_entity();
    w.combat_stats.insert(
        player.idx,
        CombatStats { max_hp: 30, hp: 12, defense: 2, power: 5 },
    );
    w.combat_stats.insert(
        monster.idx,
        CombatStats { max_hp: 16, hp: 0, defense: 1, power: 4 },
    );
    let died = delete_the_dead(&mut w, player);
    assert!(!died);
    w.maintain();
    assert!(w.is_valid(player));
    assert!(!w.is_valid(monster));

    // now the player runs out of hit points
    w.combat_stats.insert(
        player.idx,
        CombatStats { max_hp: 30, hp: 0, defense: 2, power: 5 },
    );
    let died = delete_the_dead(&mut w, player);
    assert!(died);
    w.maintain();
    // the player is reported, not deleted
    assert!(w.is_valid(player));
}


#[test]
fn two_attackers_in_one_turn_add_their_blows() {
    let mut w = World::new();
    let a1 = w.create_entity();
    let a2 = w.create_entity();
    let target = w.create_entity();
    named(&mut w, a1.idx, "Orc");
    named(&mut w, a2.idx, "Goblin");
    named(&mut w, target.idx, "Player");
    w.combat_stats.insert(a1.idx, CombatStats { max_hp: 16, hp: 16, defense: 1, power: 4 });
    w.combat_stats.insert(a2.idx, CombatStats { max_hp: 16, hp: 16, defense: 1, power: 7 });
    w.combat_stats.insert(target.idx, CombatStats { max_hp: 30, hp: 30, defense: 2, power: 5 });
    w.wants_to_melee.insert(a1.idx, WantsToMelee { target });
    w.wants_to_melee.insert(a2.idx, WantsToMelee { target });
    let mut particles = ParticleBuilder::new();
    let mut log = GameLog::new();
    MeleeCombatSystem::run(
        &w.alive,
        &w.gens,
        &mut w.wants_to_melee,
        &w.names,
        &w.combat_stats,
        &mut w.suffer_damage,
        &w.melee_power_bonuses,
        &w.defense_bonuses,
        &w.equipped,
        &w.positions,
        &mut particles,
        &mut log,
    );
    // (4 - 2) + (7 - 2) accumulate before any hit point moves
    assert_eq!(w.suffer_damage.get(target.idx).unwrap().amount, 7);
    assert_eq!(w.combat_stats.get(target.idx).unwrap().hp, 30);
    DamageSystem::run(&mut w.combat_stats, &mut w.suffer_damage);
    // hit points drop exactly once, by the whole sum
    assert_eq!(w.combat_stats.get(target.idx).unwrap().hp, 23);
}
