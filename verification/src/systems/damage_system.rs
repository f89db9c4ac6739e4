//! Takes the damage that waits on each entity off its health.

use vstd::prelude::*;
use crate::arith::{clamp, sub_clamped};
use crate::components::{CombatStats, Components};
use crate::store::EntityStore;

verus! {

/// The pass that applies damage.
pub struct DamageSystem {}

impl DamageSystem {
    /// What an entity carries after the pass: where it has health and
    /// damage waits on it, the damage is taken off the health; no damage
    /// waits on it any more.
    pub open spec fn damaged(c: Components) -> Components {
        Components {
            combat_stats: match (c.combat_stats, c.suffer_damage) {
                (Some(stats), Some(damage)) => Some(
                    CombatStats { hp: clamp(stats.hp - damage.amount) as i32, ..stats },
                ),
                _ => c.combat_stats,
            },
            suffer_damage: None,
            ..c
        }
    }

    /// Applies to every live entity the damage that waits on it.
    pub fn run(&mut self, store: &mut EntityStore)
        ensures
            old(store).same_entities(final(store)),
            forall|i: int|
                0 <= i < old(store).slots().len() ==> (#[trigger] final(store).slots()[i]).components
                    == if old(store).slots()[i].alive {
                    Self::damaged(old(store).slots()[i].components)
                } else {
                    old(store).slots()[i].components
                },
    {
        let n: usize = store.slots.len();
        let mut i: usize = 0;
        while i < n
            invariant
                i <= n,
                n == old(store).slots().len(),
                old(store).same_entities(store),
                forall|j: int|
                    0 <= j < n ==> (#[trigger] store.slots()[j]).components == if j < i && old(
                        store,
                    ).slots()[j].alive {
                        Self::damaged(old(store).slots()[j].components)
                    } else {
                        old(store).slots()[j].components
                    },
            decreases n - i,
        {
            if store.slots[i].alive {
                let damage = store.slots[i].components.suffer_damage;
                match (&mut store.slots[i].components.combat_stats, damage) {
                    (Some(stats), Some(damage)) => {
                        stats.hp = sub_clamped(stats.hp, damage.amount);
                    },
                    _ => {},
                }
                store.slots[i].components.suffer_damage = None;
            }
            i = i + 1;
        }
    }
}

} // verus!
