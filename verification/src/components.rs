//! The components that an entity may carry.  Each is plain data; what a
//! component means is decided by the systems that read it.

use vstd::prelude::*;
use crate::coord::Coord;
use crate::store::Entity;

verus! {

/// Where an entity stands on the map.
#[derive(Clone, Copy, PartialEq, Eq, Structural, Debug)]
pub struct Position {
    pub x: i32,
    pub y: i32,
}

/// A colour by its red, green and blue parts.
#[derive(Clone, Copy, PartialEq, Eq, Structural, Debug)]
pub struct Color {
    pub r: u8,
    pub g: u8,
    pub b: u8,
}

/// How an entity is drawn.  The kernel carries this and never reads it.
#[derive(Clone, Copy, PartialEq, Eq, Structural, Debug)]
pub struct Renderable {
    pub glyph: u8,
    pub fg: Color,
    pub bg: Color,
    pub render_order: i32,
}

/// Marks an entity that drifts to the left.
#[derive(Clone, Copy, PartialEq, Eq, Structural, Debug)]
pub struct LeftMover {}

/// Marks the entity that the player steers.
#[derive(Clone, Copy, PartialEq, Eq, Structural, Debug)]
pub struct Player {}

/// What an actor sees: the tiles in view, how far it looks, and whether the
/// tiles have to be computed again.
#[derive(Clone, Debug)]
pub struct Viewshed {
    pub visible_tiles: Vec<Coord>,
    pub range: i32,
    pub dirty: bool,
}

/// Marks a hostile actor.
#[derive(Clone, Copy, PartialEq, Eq, Structural, Debug)]
pub struct Monster {}

/// The name under which an entity appears in messages.
#[derive(Clone, Debug)]
pub struct Name {
    pub name: String,
}

/// Marks an entity through which nobody can walk.
#[derive(Clone, Copy, PartialEq, Eq, Structural, Debug)]
pub struct BlocksTile {}

/// Health and fighting strength.
#[derive(Clone, Copy, PartialEq, Eq, Structural, Debug)]
pub struct CombatStats {
    pub max_hp: i32,
    pub hp: i32,
    pub defense: i32,
    pub power: i32,
}

/// The wish to strike `target` this turn.
#[derive(Clone, Copy, PartialEq, Eq, Structural, Debug)]
pub struct WantsToMelee {
    pub target: Entity,
}

/// Damage that waits to be taken off the health.
#[derive(Clone, Copy, PartialEq, Eq, Structural, Debug)]
pub struct SufferDamage {
    pub amount: i32,
}

/// Marks an entity that can be picked up.
#[derive(Clone, Copy, PartialEq, Eq, Structural, Debug)]
pub struct Item {}

/// Marks an item that `owner` carries.
#[derive(Clone, Copy, PartialEq, Eq, Structural, Debug)]
pub struct InBackpack {
    pub owner: Entity,
}

/// The wish of `collected_by` to pick up `item`.
#[derive(Clone, Copy, PartialEq, Eq, Structural, Debug)]
pub struct WantsToPickupItem {
    pub collected_by: Entity,
    pub item: Entity,
}

/// The wish to drink `potion`.
#[derive(Clone, Copy, PartialEq, Eq, Structural, Debug)]
pub struct WantsToDrinkPotion {
    pub potion: Entity,
}

/// The wish to use `item`, on the tile `target` if one is given and on
/// oneself if not.
#[derive(Clone, Copy, PartialEq, Eq, Structural, Debug)]
pub struct WantsToUseItem {
    pub item: Entity,
    pub target: Option<Coord>,
}

/// The wish to put `item` down.
#[derive(Clone, Copy, PartialEq, Eq, Structural, Debug)]
pub struct WantsToDropItem {
    pub item: Entity,
}

/// Marks an item that is gone once it has been used.
#[derive(Clone, Copy, PartialEq, Eq, Structural, Debug)]
pub struct Consumable {}

/// An item that restores `heal_amount` health.
#[derive(Clone, Copy, PartialEq, Eq, Structural, Debug)]
pub struct ProvidesHealing {
    pub heal_amount: i32,
}

/// An item that is aimed at a tile up to `range` away.
#[derive(Clone, Copy, PartialEq, Eq, Structural, Debug)]
pub struct Ranged {
    pub range: i32,
}

/// An item that deals `damage`.
#[derive(Clone, Copy, PartialEq, Eq, Structural, Debug)]
pub struct InflictsDamage {
    pub damage: i32,
}

/// An item that reaches every tile in view within `radius` of its target.
#[derive(Clone, Copy, PartialEq, Eq, Structural, Debug)]
pub struct AreaOfEffect {
    pub radius: i32,
}

/// On an item: it confuses for `turns` turns.  On an actor: it is confused
/// for that long.
#[derive(Clone, Copy, PartialEq, Eq, Structural, Debug)]
pub struct Confusion {
    pub turns: i32,
}

/// Everything one entity carries: for each kind of component either one
/// value or none.
#[derive(Clone, Debug)]
pub struct Components {
    pub position: Option<Position>,
    pub renderable: Option<Renderable>,
    pub left_mover: Option<LeftMover>,
    pub player: Option<Player>,
    pub viewshed: Option<Viewshed>,
    pub monster: Option<Monster>,
    pub name: Option<Name>,
    pub blocks_tile: Option<BlocksTile>,
    pub combat_stats: Option<CombatStats>,
    pub wants_to_melee: Option<WantsToMelee>,
    pub suffer_damage: Option<SufferDamage>,
    pub item: Option<Item>,
    pub in_backpack: Option<InBackpack>,
    pub wants_to_pickup: Option<WantsToPickupItem>,
    pub wants_to_drink: Option<WantsToDrinkPotion>,
    pub wants_to_use: Option<WantsToUseItem>,
    pub wants_to_drop: Option<WantsToDropItem>,
    pub consumable: Option<Consumable>,
    pub provides_healing: Option<ProvidesHealing>,
    pub ranged: Option<Ranged>,
    pub inflicts_damage: Option<InflictsDamage>,
    pub area_of_effect: Option<AreaOfEffect>,
    pub confusion: Option<Confusion>,
}

impl Components {
    /// The bundle that holds no component.
    pub open spec fn none() -> Components {
        Components {
            position: None,
            renderable: None,
            left_mover: None,
            player: None,
            viewshed: None,
            monster: None,
            name: None,
            blocks_tile: None,
            combat_stats: None,
            wants_to_melee: None,
            suffer_damage: None,
            item: None,
            in_backpack: None,
            wants_to_pickup: None,
            wants_to_drink: None,
            wants_to_use: None,
            wants_to_drop: None,
            consumable: None,
            provides_healing: None,
            ranged: None,
            inflicts_damage: None,
            area_of_effect: None,
            confusion: None,
        }
    }

    /// A bundle without components, to be filled field by field.
    pub fn new() -> (c: Components)
        ensures
            c == Components::none(),
    {
        Components {
            position: None,
            renderable: None,
            left_mover: None,
            player: None,
            viewshed: None,
            monster: None,
            name: None,
            blocks_tile: None,
            combat_stats: None,
            wants_to_melee: None,
            suffer_damage: None,
            item: None,
            in_backpack: None,
            wants_to_pickup: None,
            wants_to_drink: None,
            wants_to_use: None,
            wants_to_drop: None,
            consumable: None,
            provides_healing: None,
            ranged: None,
            inflicts_damage: None,
            area_of_effect: None,
            confusion: None,
        }
    }

    /// The name in this bundle as text, or `fallback` where it has none.
    pub open spec fn name_or(self, fallback: Seq<char>) -> Seq<char> {
        match self.name {
            Some(n) => n.name@,
            None => fallback,
        }
    }
}

} // verus!
