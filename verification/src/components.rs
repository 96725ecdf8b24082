//! The component kinds that can be attached to entities.  Each is plain data;
//! capabilities are expressed by which components an entity carries, not by
//! any hierarchy.

use vstd::prelude::*;
use crate::ecs::EntityId;

verus! {

/// An (x, y) tile coordinate pair.
#[derive(Clone, Copy, PartialEq, Eq, Structural, Debug, Hash)]
pub struct Point {
    pub x: i32,
    pub y: i32,
}

/// An RGB colour with 8-bit channels, used only for rendering data.
#[derive(Clone, Copy, PartialEq, Eq, Structural, Debug)]
pub struct Rgb {
    pub r: u8,
    pub g: u8,
    pub b: u8,
}

/// Tag: the entity is the player.
#[derive(Clone, Copy, Debug)]
pub struct Player {}

#[derive(Clone, Copy, PartialEq, Eq, Structural, Debug)]
pub enum HungerState {
    WellFed,
    Normal,
    Hungry,
    Starving,
}

/// Survival clock: counts down each turn and worsens `state` when it runs out.
#[derive(Clone, Copy, PartialEq, Eq, Structural, Debug)]
pub struct HungerClock {
    pub state: HungerState,
    pub duration: i32,
}

/// Tag: the entity is a hostile monster.
#[derive(Clone, Copy, Debug)]
pub struct Monster {}

#[derive(Clone, Copy, PartialEq, Eq, Structural, Debug)]
pub struct CombatStats {
    pub max_hp: i32,
    pub hp: i32,
    pub defense: i32,
    pub power: i32,
}

/// Intent: attack `target` in melee this turn.
#[derive(Clone, Copy, PartialEq, Eq, Structural, Debug)]
pub struct WantsToMelee {
    pub target: EntityId,
}

/// Damage accumulated against an entity this turn.  Several hits in one turn
/// add up here; hit points drop only once, when the damage system runs.
#[derive(Clone, Copy, PartialEq, Eq, Structural, Debug)]
pub struct SufferDamage {
    pub amount: i32,
}

#[derive(Clone, Copy, PartialEq, Eq, Structural, Debug)]
pub struct Position {
    pub x: i32,
    pub y: i32,
}

#[derive(Clone, Debug)]
pub struct Name {
    pub name: String,
}

/// Tag: the entity can be picked up.
#[derive(Clone, Copy, Debug)]
pub struct Item {}

/// Tag: the item disappears after one use.
#[derive(Clone, Copy, Debug)]
pub struct Consumable {}

/// Tag: eating the item feeds the user.
#[derive(Clone, Copy, Debug)]
pub struct ProvidesFood {}

/// Tag: using the item reveals the whole map.
#[derive(Clone, Copy, Debug)]
pub struct MagicMapper {}

#[derive(Clone, Copy, PartialEq, Eq, Structural, Debug)]
pub enum EquipmentSlot {
    Melee,
    Shield,
}

/// The item can be worn or wielded in `slot`.
#[derive(Clone, Copy, PartialEq, Eq, Structural, Debug)]
pub struct Equippable {
    pub slot: EquipmentSlot,
}

/// The item is currently worn or wielded by `owner` in `slot`.
#[derive(Clone, Copy, PartialEq, Eq, Structural, Debug)]
pub struct Equipped {
    pub owner: EntityId,
    pub slot: EquipmentSlot,
}

#[derive(Clone, Copy, PartialEq, Eq, Structural, Debug)]
pub struct MeleePowerBonus {
    pub power: i32,
}

#[derive(Clone, Copy, PartialEq, Eq, Structural, Debug)]
pub struct DefenseBonus {
    pub defense: i32,
}

/// The item is used at a distance of up to `range` tiles.
#[derive(Clone, Copy, PartialEq, Eq, Structural, Debug)]
pub struct Ranged {
    pub range: i32,
}

/// The item affects every entity in a blast of this radius.
#[derive(Clone, Copy, PartialEq, Eq, Structural, Debug)]
pub struct AreaOfEffect {
    pub radius: i32,
}

#[derive(Clone, Copy, PartialEq, Eq, Structural, Debug)]
pub struct InflictsDamage {
    pub damage: i32,
}

/// The entity stumbles for this many more turns.
#[derive(Clone, Copy, PartialEq, Eq, Structural, Debug)]
pub struct Confusion {
    pub turns: i32,
}

/// Intent: drop `item` at the dropper's feet this turn.
#[derive(Clone, Copy, PartialEq, Eq, Structural, Debug)]
pub struct WantsToDropItem {
    pub item: EntityId,
}

/// The item sits in `owner`'s backpack rather than on the map.
#[derive(Clone, Copy, PartialEq, Eq, Structural, Debug)]
pub struct InBackpack {
    pub owner: EntityId,
}

/// Intent: `collected_by` picks `item` up this turn.
#[derive(Clone, Copy, PartialEq, Eq, Structural, Debug)]
pub struct WantsToPickupItem {
    pub collected_by: EntityId,
    pub item: EntityId,
}

#[derive(Clone, Copy, PartialEq, Eq, Structural, Debug)]
pub struct ProvidesHealing {
    pub heal_amount: i32,
}

/// Intent: use `item` this turn, aimed at `target` if the item is ranged.
#[derive(Clone, Copy, PartialEq, Eq, Structural, Debug)]
pub struct WantsToUseItem {
    pub item: EntityId,
    pub target: Option<Point>,
}

/// Cosmetic drawing data.
#[derive(Clone, Copy, PartialEq, Eq, Structural, Debug)]
pub struct Renderable {
    pub glyph: u8,
    pub fg: Rgb,
    pub bg: Rgb,
    pub render_order: i32,
}

/// The set of tiles this entity can currently see, recomputed lazily when
/// `dirty` is set.
#[derive(Clone, Debug)]
pub struct Viewshed {
    pub tiles: Vec<Point>,
    pub range: i32,
    pub dirty: bool,
}

/// Tag: other entities cannot walk through this one.
#[derive(Clone, Copy, Debug)]
pub struct BlocksTile {}

/// Remaining life of a cosmetic particle, in milliseconds.
#[derive(Clone, Copy, PartialEq, Eq, Structural, Debug)]
pub struct ParticleLifetime {
    pub lifetime_ms: u32,
}

/// Tag: the entity belongs in a saved game.
#[derive(Clone, Copy, Debug)]
pub struct SerializeMe {}

} // verus!
