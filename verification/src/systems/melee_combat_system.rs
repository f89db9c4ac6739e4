//! Turns the wishes to strike into damage.

use vstd::prelude::*;
use crate::arith::{add_clamped, clamp, sub_clamped};
use crate::components::{Components, SufferDamage};
use crate::game_log::GameLog;
use crate::store::{carried_in, label_in, live, with_components, Entity, EntityStore, Slot};
use crate::systems::damage_system::DamageSystem;
use crate::systems::inventory_management::piled;
use crate::text::{hit_message, hit_text, miss_message, miss_text, nameless};

verus! {

/// The pass that resolves melee.
pub struct MeleeCombatSystem {}

/// The damage of a blow of strength `power` against `defense`: the
/// difference where it is positive, else nothing.
pub open spec fn blow_damage(power: int, defense: int) -> int {
    if power - defense > 0 {
        clamp(power - defense)
    } else {
        0
    }
}

/// The blow that the entity in slot `i` lands, with its target and its
/// damage: the entity lives, wishes to strike, and has health above 0, and
/// so has its target.
pub open spec fn blow(s: Seq<Slot>, i: int) -> Option<(Entity, int)> {
    match (s[i].components.wants_to_melee, s[i].components.combat_stats) {
        (Some(wish), Some(attacker)) => match carried_in(s, wish.target).combat_stats {
            Some(defender) => if s[i].alive && attacker.hp > 0 && defender.hp > 0 {
                Some((wish.target, blow_damage(attacker.power as int, defender.defense as int)))
            } else {
                None
            },
            None => None,
        },
        _ => None,
    }
}

/// `s` after the blows of the first `n` slots have landed: the damage of
/// each blow that does any is added to what waits on its target.
pub open spec fn fought(s: Seq<Slot>, n: int) -> Seq<Slot>
    decreases n,
{
    if n <= 0 {
        s
    } else {
        let before = fought(s, n - 1);
        match blow(s, n - 1) {
            Some((t, damage)) => if damage > 0 {
                with_components(
                    before,
                    t.index as int,
                    Components {
                        suffer_damage: Some(
                            piled(before[t.index as int].components.suffer_damage, damage),
                        ),
                        ..before[t.index as int].components
                    },
                )
            } else {
                before
            },
            None => before,
        }
    }
}

/// The messages for the blows of the first `n` slots, newest first.
pub open spec fn melee_lines(s: Seq<Slot>, n: int) -> Seq<Seq<char>>
    decreases n,
{
    if n <= 0 {
        Seq::empty()
    } else {
        (match blow(s, n - 1) {
            Some((t, damage)) => if damage > 0 {
                seq![hit_text(s[n - 1].components.name_or(nameless()), label_in(s, t), damage)]
            } else {
                seq![miss_text(s[n - 1].components.name_or(nameless()), label_in(s, t))]
            },
            None => Seq::empty(),
        }) + melee_lines(s, n - 1)
    }
}

/// `s` with no wish to strike left.
pub open spec fn without_blows(s: Seq<Slot>) -> Seq<Slot> {
    Seq::new(
        s.len(),
        |j: int|
            if s[j].alive {
                Slot { components: Components { wants_to_melee: None, ..s[j].components }, ..s[j] }
            } else {
                s[j]
            },
    )
}

/// Whether `b` is `a` but for the damage that waits on the entities.
pub open spec fn same_but_damage(a: Seq<Slot>, b: Seq<Slot>) -> bool {
    &&& a.len() == b.len()
    &&& forall|i: int|
        0 <= i < a.len() ==> (#[trigger] b[i]) == (Slot {
            components: Components {
                suffer_damage: b[i].components.suffer_damage,
                ..a[i].components
            },
            ..a[i]
        })
}

/// Blows change nothing but the damage that waits.
pub proof fn lemma_fought_frame(s: Seq<Slot>, n: int)
    requires
        n <= s.len(),
    ensures
        same_but_damage(s, fought(s, n)),
    decreases n,
{
    if n > 0 {
        lemma_fought_frame(s, n - 1);
        let before = fought(s, n - 1);
        assert forall|i: int| 0 <= i < s.len() implies (#[trigger] fought(s, n)[i]) == (Slot {
            components: Components {
                suffer_damage: fought(s, n)[i].components.suffer_damage,
                ..s[i].components
            },
            ..s[i]
        }) by {
            assert(before[i].alive == s[i].alive);
        }
    }
}

/// The sum of the damage of the blows that the first `n` slots land on `t`.
pub open spec fn blows_on(s: Seq<Slot>, t: Entity, n: int) -> int
    decreases n,
{
    if n <= 0 {
        0
    } else {
        blows_on(s, t, n - 1) + match blow(s, n - 1) {
            Some((target, damage)) => if target == t {
                damage
            } else {
                0
            },
            None => 0,
        }
    }
}

/// The damage that waits on an entity, 0 where none does.
pub open spec fn waiting(c: Components) -> int {
    match c.suffer_damage {
        Some(d) => d.amount as int,
        None => 0,
    }
}

/// Blows add up: after the blows of the first `n` slots, the damage that
/// waits on a live entity `t` is what waited before plus the sum of the
/// damage of every blow on it, as far as an `i32` holds it.  A blow that
/// came later does not take the place of one that came before.
pub proof fn lemma_blows_add_up(s: Seq<Slot>, t: Entity, n: int)
    requires
        live(s, t),
        0 <= n <= s.len(),
    ensures
        blows_on(s, t, n) >= 0,
        waiting(fought(s, n)[t.index as int].components) == if waiting(s[t.index as int].components)
            + blows_on(s, t, n) > i32::MAX {
            i32::MAX as int
        } else {
            waiting(s[t.index as int].components) + blows_on(s, t, n)
        },
        blows_on(s, t, n) == 0 ==> fought(s, n)[t.index as int].components.suffer_damage
            == s[t.index as int].components.suffer_damage,
    decreases n,
{
    if n > 0 {
        lemma_blows_add_up(s, t, n - 1);
        lemma_fought_frame(s, n - 1);
        let before = fought(s, n - 1);
        match blow(s, n - 1) {
            Some((target, damage)) => {
                assert(before[target.index as int].generation == s[target.index as int].generation);
                if target.index == t.index {
                    assert(target == t);
                }
            },
            None => {},
        }
    }
}

/// Several blows on one defender in one turn take the sum of their damage
/// off its health: where no damage waited on the live entity `t`, and
/// neither the sum nor the health left leaves the range of an `i32`, the
/// melee pass followed by the damage pass lowers the health of `t` by the
/// sum of the damage of every blow on it.
pub proof fn lemma_simultaneous_blows_sum(s: Seq<Slot>, t: Entity)
    requires
        live(s, t),
        s[t.index as int].components.combat_stats.is_some(),
        s[t.index as int].components.suffer_damage.is_none(),
        blows_on(s, t, s.len() as int) <= i32::MAX,
        s[t.index as int].components.combat_stats.unwrap().hp - blows_on(s, t, s.len() as int)
            >= i32::MIN,
    ensures
        DamageSystem::damaged(
            without_blows(fought(s, s.len() as int))[t.index as int].components,
        ).combat_stats.unwrap().hp == s[t.index as int].components.combat_stats.unwrap().hp
            - blows_on(s, t, s.len() as int),
{
    lemma_blows_add_up(s, t, s.len() as int);
    lemma_fought_frame(s, s.len() as int);
    let after = fought(s, s.len() as int);
    assert(after[t.index as int].alive == s[t.index as int].alive);
}

impl MeleeCombatSystem {
    /// Lets every blow land, in slot order, and notes each in the log.
    /// Then no wish to strike is left.
    pub fn run(&mut self, store: &mut EntityStore, log: &mut GameLog)
        ensures
            final(store).slots() == without_blows(
                fought(old(store).slots(), old(store).slots().len() as int),
            ),
            final(log).lines() == melee_lines(old(store).slots(), old(store).slots().len() as int)
                + old(log).lines(),
            old(store).same_entities(final(store)),
    {
        let ghost s0 = store.slots();
        let ghost l0 = log.lines();
        let n: usize = store.len();
        let mut i: usize = 0;
        assert(log.lines() =~= Seq::<Seq<char>>::empty() + l0);
        while i < n
            invariant
                i <= n,
                n == s0.len(),
                store.slots() == fought(s0, i as int),
                log.lines() == melee_lines(s0, i as int) + l0,
            decreases n - i,
        {
            proof {
                lemma_fought_frame(s0, i as int);
                assert(store.slots()[i as int].alive == s0[i as int].alive);
            }
            if store.slots[i].alive {
                match (
                    store.slots[i].components.wants_to_melee,
                    store.slots[i].components.combat_stats,
                ) {
                    (Some(wants_to_melee), Some(attacker_stats)) => {
                        let target = wants_to_melee.target;
                        if attacker_stats.hp > 0 && store.is_alive(target) {
                            assert(store.slots()[target.index as int].alive
                                == s0[target.index as int].alive);
                            match store.slots[target.index].components.combat_stats {
                                Some(target_stats) => {
                                    if target_stats.hp > 0 {
                                        let attacker = Entity {
                                            index: i,
                                            generation: store.slots[i].generation,
                                        };
                                        let name = store.label(attacker);
                                        let victim_name = store.label(target);
                                        let damage = if attacker_stats.power
                                            > target_stats.defense {
                                            sub_clamped(attacker_stats.power, target_stats.defense)
                                        } else {
                                            0
                                        };
                                        if damage == 0 {
                                            log.add(
                                                miss_message(name.as_str(), victim_name.as_str()),
                                            );
                                        } else {
                                            log.add(
                                                hit_message(
                                                    name.as_str(),
                                                    victim_name.as_str(),
                                                    damage,
                                                ),
                                            );
                                            let waiting =
                                                match store.slots[target.index].components.suffer_damage {
                                                Some(d) => add_clamped(d.amount, damage),
                                                None => damage,
                                            };
                                            store.slots[target.index].components.suffer_damage =
                                                Some(SufferDamage { amount: waiting });
                                        }
                                        assert(store.slots() =~= fought(s0, i + 1));
                                    }
                                },
                                None => {},
                            }
                        }
                    },
                    _ => {},
                }
            }
            assert(log.lines() =~= melee_lines(s0, i + 1) + l0);
            i = i + 1;
        }
        let ghost s1 = store.slots();
        proof {
            lemma_fought_frame(s0, n as int);
        }
        let mut j: usize = 0;
        while j < n
            invariant
                j <= n,
                n == s1.len(),
                store.slots().len() == n,
                forall|k: int|
                    0 <= k < n ==> #[trigger] store.slots()[k] == if k < j {
                        without_blows(s1)[k]
                    } else {
                        s1[k]
                    },
            decreases n - j,
        {
            if store.slots[j].alive {
                store.slots[j].components.wants_to_melee = None;
            }
            j = j + 1;
        }
        assert(store.slots() =~= without_blows(s1));
        proof {
            assert forall|k: int| 0 <= k < n implies (#[trigger] store.slots()[k]).alive
                == s0[k].alive && store.slots()[k].generation == s0[k].generation by {
                assert(s1[k].alive == s0[k].alive);
            }
        }
    }
}

} // verus!
