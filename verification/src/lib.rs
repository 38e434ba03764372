//! The simulation core of a turn-based dungeon crawler, with contracts that
//! Verus checks.
//!
//! The world is an entity-component store: [`entity`] hands out identifiers
//! with a generation, [`storage`] keeps one kind of component per entity
//! slot, and [`world`] holds every storage together with the resources (the
//! map, the player, the phase, the log and the random source). [`outfit`]
//! is everything one entity can carry, taken together.
//!
//! A turn runs the passes in a fixed order: visibility ([`fov`]), the
//! hostile actors ([`monster_ai_system`]), the spatial index
//! ([`map_indexing_system`]), melee and damage ([`melee_combat_system`],
//! [`damage_system`]), the items ([`inventory_system`], [`item_use`]), and
//! the speed tick ([`movement_speed_modifier`]). [`state`] is the turn
//! controller that decides when a turn is run and what follows it.
//! [`map`] and [`map_builder`] are the dungeon and its generation,
//! [`spawner`] and [`random_table`] populate it, [`player`] carries out what
//! the user asks for, [`gui`] holds what the menus decide, and
//! [`save_system`] writes a world down and reads it back.
//!
//! The contract of a pass is a relation between the world before and the
//! world after, named `ran`. Where a pass works through the entity slots one
//! by one and each step builds on the one before, the relation says that a
//! chain of worlds leads from one to the other, each link the step of one
//! slot. General properties of the passes are stated as proof functions
//! beside them.
//!
//! Three things are taken from the `rltk` crate and believed as stated: its
//! dice ([`rng`]), its visibility sweep ([`fov`]), and its code page and
//! colours ([`spawner`]). The search for a way is handed to the hostile
//! pass as a function.

pub mod arith;
pub mod components;
pub mod damage_system;
pub mod entity;
pub mod fov;
pub mod gamelog;
pub mod gui;
pub mod inventory_system;
pub mod item_use;
pub mod map;
pub mod map_builder;
pub mod map_indexing_system;
pub mod melee_combat_system;
pub mod monster_ai_system;
pub mod movement_speed_modifier;
pub mod outfit;
pub mod player;
pub mod random_table;
pub mod rect;
pub mod rng;
pub mod save_system;
pub mod spawner;
pub mod state;
pub mod storage;
pub mod world;
