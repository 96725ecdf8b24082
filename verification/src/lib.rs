//! A turn-based dungeon-crawler game engine: procedural dungeon generation,
//! an entity-component world, and a per-turn pipeline of visibility, AI,
//! combat, and inventory systems.

pub mod components;
pub mod damage;
pub mod ecs;
pub mod gamelog;
pub mod hunger_system;
pub mod inventory_system;
pub mod map;
pub mod map_builders;
pub mod map_indexing;
pub mod melee_combat;
pub mod menu;
pub mod messages;
pub mod monster_ai;
pub mod particles;
pub mod player;
pub mod rect;
pub mod rng;
pub mod spawner;
pub mod state;
pub mod visibility;
pub mod world;
