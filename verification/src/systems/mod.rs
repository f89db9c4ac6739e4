//! The systems.  Each makes one pass over the store in slot order; a turn
//! runs them one after the other.

pub mod damage_system;
pub mod inventory_management;
pub mod map_indexing_system;
pub mod melee_combat_system;
pub mod monster_ai_system;
pub mod visibility_system;

pub use damage_system::DamageSystem;
pub use inventory_management::{ItemCollectionSystem, ItemDropSystem, ItemUseSystem};
pub use map_indexing_system::MapIndexingSystem;
pub use melee_combat_system::MeleeCombatSystem;
pub use monster_ai_system::MonsterAI;
pub use visibility_system::VisibilitySystem;
