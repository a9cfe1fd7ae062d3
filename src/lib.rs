//! Turn-resolution core of a turn-based dungeon crawl: an entity store with
//! typed components, the melee and damage passes, the mortality sweep and the
//! turn state machine that orders them.
pub mod components;
pub mod world;
pub mod damage_system;
pub mod melee_combat_system;
pub mod state;

pub use components::{CombatStats, EntityRecord, PlayerInput, RunState};
pub use world::World;
pub use damage_system::{delete_the_dead, DamageSystem};
pub use melee_combat_system::MeleeCombatSystem;
pub use state::{State, TickReport};
