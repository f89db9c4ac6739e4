//! What holds of the passes, beyond what each one promises by itself.

use vstd::prelude::*;
use crate::components::{Components, InBackpack, WantsToPickupItem};
use crate::map::MapView;
use crate::state::{
    after_collection, after_damage, after_drop, after_melee, after_use, resolved,
};
use crate::systems::melee_combat_system::lemma_fought_frame;
use crate::store::{carried_in, handle_in, live, Entity, Slot};
use crate::systems::inventory_management::{
    after_uses, collected, confused, drop_at, dropped, drops, harmed, healed, heals,
    lemma_after_uses_akin, pickup_at, raised, rested, spent, targets_of, used_slots, used_up,
    wish_at,
};

verus! {

/// Whether nobody in `s` has more health than its full health.
pub open spec fn healthy(s: Seq<Slot>) -> bool {
    forall|i: int|
        0 <= i < s.len() && (#[trigger] s[i]).alive && s[i].components.combat_stats.is_some()
            ==> s[i].components.combat_stats.unwrap().hp
            <= s[i].components.combat_stats.unwrap().max_hp
}

/// Whether no damage below 0 waits on anybody in `s`.
pub open spec fn no_negative_damage(s: Seq<Slot>) -> bool {
    forall|i: int|
        0 <= i < s.len() && (#[trigger] s[i]).alive && s[i].components.suffer_damage.is_some()
            ==> s[i].components.suffer_damage.unwrap().amount >= 0
}

/// The damage pass keeps health within bounds: where nobody had more than
/// its full health and no damage below 0 waited, nobody has more than its
/// full health afterwards.
pub proof fn lemma_damage_keeps_health_in_bounds(s: Seq<Slot>)
    requires
        healthy(s),
        no_negative_damage(s),
    ensures
        healthy(after_damage(s)),
{
    assert forall|i: int|
        0 <= i < s.len() && (#[trigger] after_damage(s)[i]).alive && after_damage(
            s,
        )[i].components.combat_stats.is_some() implies after_damage(
        s,
    )[i].components.combat_stats.unwrap().hp <= after_damage(
        s,
    )[i].components.combat_stats.unwrap().max_hp by {
        assert(s[i].alive);
    }
}

/// Healing keeps health within bounds.
pub proof fn lemma_healed_healthy(s: Seq<Slot>, targets: Seq<Entity>, amount: int, n: int)
    requires
        healthy(s),
    ensures
        healthy(healed(s, targets, amount, n)),
    decreases n,
{
    if n > 0 {
        lemma_healed_healthy(s, targets, amount, n - 1);
        let before = healed(s, targets, amount, n - 1);
        let after = healed(s, targets, amount, n);
        assert forall|i: int|
            0 <= i < after.len() && (#[trigger] after[i]).alive
                && after[i].components.combat_stats.is_some() implies after[i].components.combat_stats.unwrap().hp
            <= after[i].components.combat_stats.unwrap().max_hp by {
            assert(before[i].alive == after[i].alive);
        }
    }
}

/// Queuing damage keeps health within bounds.
pub proof fn lemma_harmed_healthy(s: Seq<Slot>, targets: Seq<Entity>, amount: int, n: int)
    requires
        healthy(s),
    ensures
        healthy(harmed(s, targets, amount, n)),
    decreases n,
{
    if n > 0 {
        lemma_harmed_healthy(s, targets, amount, n - 1);
        let before = harmed(s, targets, amount, n - 1);
        let after = harmed(s, targets, amount, n);
        assert forall|i: int|
            0 <= i < after.len() && (#[trigger] after[i]).alive
                && after[i].components.combat_stats.is_some() implies after[i].components.combat_stats.unwrap().hp
            <= after[i].components.combat_stats.unwrap().max_hp by {
            assert(before[i].alive == after[i].alive);
        }
    }
}

/// Confusing keeps health within bounds.
pub proof fn lemma_confused_healthy(s: Seq<Slot>, targets: Seq<Entity>, turns: i32, n: int)
    requires
        healthy(s),
    ensures
        healthy(confused(s, targets, turns, n)),
    decreases n,
{
    if n > 0 {
        lemma_confused_healthy(s, targets, turns, n - 1);
        let before = confused(s, targets, turns, n - 1);
        let after = confused(s, targets, turns, n);
        assert forall|i: int|
            0 <= i < after.len() && (#[trigger] after[i]).alive
                && after[i].components.combat_stats.is_some() implies after[i].components.combat_stats.unwrap().hp
            <= after[i].components.combat_stats.unwrap().max_hp by {
            assert(before[i].alive == after[i].alive);
        }
    }
}

/// One use of an item keeps health within bounds.
pub proof fn lemma_used_healthy(s: Seq<Slot>, targets: Seq<Entity>, item: Entity)
    requires
        healthy(s),
    ensures
        healthy(used_slots(s, targets, item)),
{
    let tags = carried_in(s, item);
    let n = targets.len() as int;
    let s1 = match tags.provides_healing {
        Some(h) => healed(s, targets, h.heal_amount as int, n),
        None => s,
    };
    if let Some(h) = tags.provides_healing {
        lemma_healed_healthy(s, targets, h.heal_amount as int, n);
    }
    let s2 = match tags.inflicts_damage {
        Some(d) => harmed(s1, targets, d.damage as int, n),
        None => s1,
    };
    if let Some(d) = tags.inflicts_damage {
        lemma_harmed_healthy(s1, targets, d.damage as int, n);
    }
    if let Some(c) = tags.confusion {
        lemma_confused_healthy(s2, targets, c.turns, n);
    }
}

/// Carrying out wishes to use items keeps health within bounds.
pub proof fn lemma_after_uses_healthy(s: Seq<Slot>, v: MapView, n: int)
    requires
        healthy(s),
    ensures
        healthy(after_uses(s, v, n)),
    decreases n,
{
    if n > 0 {
        lemma_after_uses_healthy(s, v, n - 1);
        let before = after_uses(s, v, n - 1);
        match wish_at(before, n - 1) {
            Some(wish) => {
                lemma_used_healthy(
                    before,
                    targets_of(before, v, handle_in(before, n - 1), wish),
                    wish.item,
                );
            },
            None => {},
        }
    }
}

/// The use pass keeps health within bounds: where nobody had more than its
/// full health, nobody has afterwards, whatever was healed by however
/// much.
pub proof fn lemma_use_keeps_health_in_bounds(s: Seq<Slot>, v: MapView)
    requires
        healthy(s),
    ensures
        healthy(after_use(s, v)),
{
    let n = s.len() as int;
    lemma_after_uses_healthy(s, v, n);
    lemma_after_uses_akin(s, v, n);
    let a = after_uses(s, v, n);
    let r = rested(a);
    let p = after_use(s, v);
    assert forall|i: int|
        0 <= i < p.len() && (#[trigger] p[i]).alive
            && p[i].components.combat_stats.is_some() implies p[i].components.combat_stats.unwrap().hp
        <= p[i].components.combat_stats.unwrap().max_hp by {
        assert(a[i].alive == r[i].alive);
        assert(p[i].alive ==> r[i].alive);
    }
}

/// A heal raises health to its full amount at most: the entity `t` that
/// is healed, alone, by `amount` has its old health plus the amount
/// afterwards, or its full health where that is less.
pub proof fn lemma_heal_is_capped(s: Seq<Slot>, t: Entity, amount: int)
    requires
        heals(s, t),
    ensures
        ({
            let before = s[t.index as int].components.combat_stats.unwrap();
            let after = healed(s, seq![t], amount, 1)[t.index as int].components.combat_stats.unwrap();
            &&& after.hp == raised(before.hp as int, before.max_hp as int, amount)
            &&& after.hp <= after.max_hp
            &&& after.max_hp == before.max_hp
        }),
{
    assert(healed(s, seq![t], amount, 0) == s);
}

/// Queuing damage leaves everybody's health as it is.
pub proof fn lemma_harmed_keeps_stats(s: Seq<Slot>, targets: Seq<Entity>, amount: int, n: int)
    ensures
        harmed(s, targets, amount, n).len() == s.len(),
        forall|j: int|
            0 <= j < s.len() ==> (#[trigger] harmed(
                s,
                targets,
                amount,
                n,
            )[j]).components.combat_stats == s[j].components.combat_stats,
    decreases n,
{
    if n > 0 {
        lemma_harmed_keeps_stats(s, targets, amount, n - 1);
        let before = harmed(s, targets, amount, n - 1);
        assert forall|j: int| 0 <= j < s.len() implies (#[trigger] harmed(
            s,
            targets,
            amount,
            n,
        )[j]).components.combat_stats == s[j].components.combat_stats by {
            assert(before[j].components.combat_stats == s[j].components.combat_stats);
        }
    }
}

/// Confusing leaves everybody's health as it is.
pub proof fn lemma_confused_keeps_stats(s: Seq<Slot>, targets: Seq<Entity>, turns: i32, n: int)
    ensures
        confused(s, targets, turns, n).len() == s.len(),
        forall|j: int|
            0 <= j < s.len() ==> (#[trigger] confused(
                s,
                targets,
                turns,
                n,
            )[j]).components.combat_stats == s[j].components.combat_stats,
    decreases n,
{
    if n > 0 {
        lemma_confused_keeps_stats(s, targets, turns, n - 1);
        let before = confused(s, targets, turns, n - 1);
        assert forall|j: int| 0 <= j < s.len() implies (#[trigger] confused(
            s,
            targets,
            turns,
            n,
        )[j]).components.combat_stats == s[j].components.combat_stats by {
            assert(before[j].components.combat_stats == s[j].components.combat_stats);
        }
    }
}

/// An item that heals heals its target: after one use of an item that
/// heals by `amount` on the single target `t`, which lives and has health,
/// the health of `t` is its old health plus the amount, or its full health
/// where that is less, whatever else the item does.
pub proof fn lemma_healing_item_heals(s: Seq<Slot>, t: Entity, item: Entity)
    requires
        heals(s, t),
        carried_in(s, item).provides_healing.is_some(),
    ensures
        ({
            let before = s[t.index as int].components.combat_stats.unwrap();
            let amount = carried_in(s, item).provides_healing.unwrap().heal_amount;
            let after = used_slots(s, seq![t], item)[t.index as int].components.combat_stats;
            after == Some(
                crate::components::CombatStats {
                    hp: raised(before.hp as int, before.max_hp as int, amount as int) as i32,
                    ..before
                },
            )
        }),
{
    let tags = carried_in(s, item);
    let targets = seq![t];
    let amount = tags.provides_healing.unwrap().heal_amount as int;
    assert(healed(s, targets, amount, 0) == s);
    let s1 = healed(s, targets, amount, 1);
    let s2 = match tags.inflicts_damage {
        Some(d) => harmed(s1, targets, d.damage as int, 1),
        None => s1,
    };
    if let Some(d) = tags.inflicts_damage {
        lemma_harmed_keeps_stats(s1, targets, d.damage as int, 1);
    }
    if let Some(c) = tags.confusion {
        lemma_confused_keeps_stats(s2, targets, c.turns, 1);
    }
}

/// A consumable item that heals is gone once it has been used: where a
/// live entity wishes to use an item that is consumable and heals, the
/// item does not live after the use pass.
pub proof fn lemma_spent_item_is_gone(s: Seq<Slot>, v: MapView, user: int)
    requires
        0 <= user < s.len(),
        wish_at(s, user).is_some(),
        carried_in(s, wish_at(s, user).unwrap().item).consumable.is_some(),
        carried_in(s, wish_at(s, user).unwrap().item).provides_healing.is_some(),
    ensures
        !live(after_use(s, v), wish_at(s, user).unwrap().item),
{
    let n = s.len() as int;
    let item = wish_at(s, user).unwrap().item;
    lemma_after_uses_akin(s, v, user);
    lemma_after_uses_akin(s, v, n);
    let before = after_uses(s, v, user);
    assert(before[user].alive == s[user].alive);
    assert(wish_at(before, user) == wish_at(s, user));
    if item.index < s.len() {
        assert(before[item.index as int].alive == s[item.index as int].alive);
    }
    assert(spent(before, item));
    lemma_used_up_grows(s, v, user + 1, n);
    assert(used_up(s, v, user + 1).last() == item);
    assert(used_up(s, v, user + 1).contains(item));
    assert(used_up(s, v, n).contains(item));
    let a = after_uses(s, v, n);
    let r = rested(a);
    if item.index < s.len() {
        assert(a[item.index as int].alive == s[item.index as int].alive);
        assert(r[item.index as int].generation == a[item.index as int].generation);
        if r[item.index as int].alive && r[item.index as int].generation == item.generation {
            assert(handle_in(r, item.index as int) == item);
        }
    }
}

/// What has been used up stays used up as the pass goes on.
pub proof fn lemma_used_up_grows(s: Seq<Slot>, v: MapView, m: int, n: int)
    requires
        m <= n,
    ensures
        forall|e: Entity| used_up(s, v, m).contains(e) ==> used_up(s, v, n).contains(e),
    decreases n - m,
{
    if m < n {
        lemma_used_up_grows(s, v, m, n - 1);
        assert forall|e: Entity| used_up(s, v, m).contains(e) implies used_up(s, v, n).contains(
            e,
        ) by {
            let before = used_up(s, v, n - 1);
            assert(before.contains(e));
            let w = choose|w: int| 0 <= w < before.len() && before[w] == e;
            let now = used_up(s, v, n);
            if now != before {
                assert(now[w] == e);
            }
        }
    }
}

/// What is used up in a pass was consumable when it was used.
pub proof fn lemma_used_up_was_consumable(s: Seq<Slot>, v: MapView, n: int, e: Entity)
    requires
        used_up(s, v, n).contains(e),
    ensures
        carried_in(s, e).consumable.is_some(),
    decreases n,
{
    if n > 0 {
        let before = after_uses(s, v, n - 1);
        let earlier = used_up(s, v, n - 1);
        let now = used_up(s, v, n);
        let w = choose|w: int| 0 <= w < now.len() && now[w] == e;
        if now != earlier && w == earlier.len() {
            lemma_after_uses_akin(s, v, n - 1);
            if e.index < s.len() {
                assert(before[e.index as int].alive == s[e.index as int].alive);
            }
        } else {
            assert(earlier[w] == e);
            lemma_used_up_was_consumable(s, v, n - 1, e);
        }
    }
}

/// An item that is not consumable outlasts the use pass, however often it
/// was used in it.
pub proof fn lemma_lasting_item_persists(s: Seq<Slot>, v: MapView, item: Entity)
    requires
        live(s, item),
        carried_in(s, item).consumable.is_none(),
    ensures
        live(after_use(s, v), item),
{
    let n = s.len() as int;
    lemma_after_uses_akin(s, v, n);
    let a = after_uses(s, v, n);
    let r = rested(a);
    assert(a[item.index as int].alive == s[item.index as int].alive);
    assert(r[item.index as int].alive);
    if used_up(s, v, n).contains(handle_in(r, item.index as int)) {
        lemma_used_up_was_consumable(s, v, n, item);
    }
}

/// Whether no other wish gets in the way of the wish of slot `i` to put an
/// item down: no later wish puts the same item down, and no earlier wish
/// puts the dropper itself down.
pub open spec fn drop_undisturbed(s: Seq<Slot>, i: int) -> bool {
    forall|j: int|
        0 <= j < s.len() && j != i ==> match #[trigger] drop_at(s, j) {
            Some(other) => !live(s, other.item) || ((j > i ==> other.item != drop_at(
                s,
                i,
            ).unwrap().item) && (j < i ==> other.item != handle_in(s, i))),
            None => true,
        }
}

/// Dropping changes nothing but where items lie and in whose backpack.
pub proof fn lemma_dropped_frame(s: Seq<Slot>, n: int)
    ensures
        dropped(s, n).len() == s.len(),
        forall|j: int|
            0 <= j < s.len() ==> (#[trigger] dropped(s, n)[j]) == (Slot {
                components: Components {
                    position: dropped(s, n)[j].components.position,
                    in_backpack: dropped(s, n)[j].components.in_backpack,
                    ..s[j].components
                },
                ..s[j]
            }),
    decreases n,
{
    if n > 0 {
        lemma_dropped_frame(s, n - 1);
        let before = dropped(s, n - 1);
        assert forall|j: int| 0 <= j < s.len() implies (#[trigger] dropped(s, n)[j]) == (Slot {
            components: Components {
                position: dropped(s, n)[j].components.position,
                in_backpack: dropped(s, n)[j].components.in_backpack,
                ..s[j].components
            },
            ..s[j]
        }) by {
            assert(before[j].alive == s[j].alive);
        }
    }
}

/// Where no other wish gets in the way, the dropper stands where it stood
/// until its turn, and from then on the item lies there.
pub proof fn lemma_drop_in_turn(s: Seq<Slot>, i: int, n: int)
    requires
        0 <= i < s.len(),
        0 <= n <= s.len(),
        drop_at(s, i).is_some(),
        s[i].components.position.is_some(),
        live(s, drop_at(s, i).unwrap().item),
        drop_undisturbed(s, i),
    ensures
        n <= i ==> dropped(s, n)[i].components.position == s[i].components.position,
        n > i ==> {
            let item = drop_at(s, i).unwrap().item;
            &&& dropped(s, n)[item.index as int].components.position == s[i].components.position
            &&& dropped(s, n)[item.index as int].components.in_backpack.is_none()
        },
    decreases n,
{
    if n > 0 {
        lemma_drop_in_turn(s, i, n - 1);
        lemma_dropped_frame(s, n - 1);
        let before = dropped(s, n - 1);
        let item = drop_at(s, i).unwrap().item;
        let j = n - 1;
        assert(before[j].alive == s[j].alive);
        assert(drop_at(before, j) == drop_at(s, j));
        assert(before[item.index as int].alive == s[item.index as int].alive);
        if j != i {
            match drop_at(s, j) {
                Some(other) => {
                    if other.item.index < s.len() {
                        assert(before[other.item.index as int].alive
                            == s[other.item.index as int].alive);
                    }
                    if drops(before, j, other.item) {
                        assert(live(s, other.item));
                    }
                },
                None => {},
            }
        }
    }
}

/// Dropping an item takes it out of the backpack and puts it exactly
/// where the dropper stands: where a live entity that stands somewhere
/// wishes to put down an item that lives, and no other wish gets in the
/// way, the item lies at the dropper's position after the drop pass and is
/// in no backpack.
pub proof fn lemma_drop_puts_item_at_dropper(s: Seq<Slot>, i: int)
    requires
        0 <= i < s.len(),
        drop_at(s, i).is_some(),
        s[i].components.position.is_some(),
        live(s, drop_at(s, i).unwrap().item),
        drop_undisturbed(s, i),
    ensures
        ({
            let item = drop_at(s, i).unwrap().item;
            let after = after_drop(s)[item.index as int];
            &&& after.alive
            &&& after.generation == item.generation
            &&& after.components.position == s[i].components.position
            &&& after.components.in_backpack.is_none()
        }),
{
    lemma_drop_in_turn(s, i, s.len() as int);
    lemma_dropped_frame(s, s.len() as int);
    let item = drop_at(s, i).unwrap().item;
    assert(dropped(s, s.len() as int)[item.index as int].alive == s[item.index as int].alive);
}

/// Whether no later wish picks up the item that slot `i` wishes to pick
/// up.
pub open spec fn pickup_undisturbed(s: Seq<Slot>, i: int) -> bool {
    forall|j: int|
        i < j < s.len() ==> match #[trigger] pickup_at(s, j) {
            Some(other) => other.item != pickup_at(s, i).unwrap().item,
            None => true,
        }
}

/// Collecting changes nothing but where items lie and in whose backpack.
pub proof fn lemma_collected_frame(s: Seq<Slot>, n: int)
    ensures
        collected(s, n).len() == s.len(),
        forall|j: int|
            0 <= j < s.len() ==> (#[trigger] collected(s, n)[j]) == (Slot {
                components: Components {
                    position: collected(s, n)[j].components.position,
                    in_backpack: collected(s, n)[j].components.in_backpack,
                    ..s[j].components
                },
                ..s[j]
            }),
    decreases n,
{
    if n > 0 {
        lemma_collected_frame(s, n - 1);
        let before = collected(s, n - 1);
        assert forall|j: int| 0 <= j < s.len() implies (#[trigger] collected(s, n)[j]) == (Slot {
            components: Components {
                position: collected(s, n)[j].components.position,
                in_backpack: collected(s, n)[j].components.in_backpack,
                ..s[j].components
            },
            ..s[j]
        }) by {
            assert(before[j].alive == s[j].alive);
        }
    }
}

/// Where no later wish picks the item up, it lies in the backpack of its
/// collector from the turn of the wish on.
pub proof fn lemma_pickup_in_turn(s: Seq<Slot>, i: int, n: int)
    requires
        0 <= i < n <= s.len(),
        pickup_at(s, i).is_some(),
        live(s, pickup_at(s, i).unwrap().item),
        pickup_undisturbed(s, i),
    ensures
        ({
            let wish = pickup_at(s, i).unwrap();
            &&& collected(s, n)[wish.item.index as int].components.position.is_none()
            &&& collected(s, n)[wish.item.index as int].components.in_backpack == Some(
                InBackpack { owner: wish.collected_by },
            )
        }),
    decreases n,
{
    lemma_collected_frame(s, n - 1);
    let before = collected(s, n - 1);
    let wish = pickup_at(s, i).unwrap();
    let j = n - 1;
    assert(before[j].alive == s[j].alive);
    assert(pickup_at(before, j) == pickup_at(s, j));
    assert(before[wish.item.index as int].alive == s[wish.item.index as int].alive);
    if j > i {
        lemma_pickup_in_turn(s, i, n - 1);
        match pickup_at(s, j) {
            Some(other) => {
                if other.item.index < s.len() {
                    assert(before[other.item.index as int].alive
                        == s[other.item.index as int].alive);
                }
            },
            None => {},
        }
    }
}

/// Picking an item up takes it off the map and puts it in the backpack of
/// its collector: where a live entity wishes to pick up an item that
/// lives, and no later wish picks the same item up, the item has no
/// position after the collection pass and lies in the backpack of the
/// collector that the wish names.
pub proof fn lemma_pickup_puts_item_in_backpack(s: Seq<Slot>, i: int)
    requires
        0 <= i < s.len(),
        pickup_at(s, i).is_some(),
        live(s, pickup_at(s, i).unwrap().item),
        pickup_undisturbed(s, i),
    ensures
        ({
            let wish = pickup_at(s, i).unwrap();
            let after = after_collection(s)[wish.item.index as int];
            &&& after.alive
            &&& after.generation == wish.item.generation
            &&& after.components.position.is_none()
            &&& after.components.in_backpack == Some(InBackpack { owner: wish.collected_by })
        }),
{
    lemma_pickup_in_turn(s, i, s.len() as int);
    lemma_collected_frame(s, s.len() as int);
    let wish = pickup_at(s, i).unwrap();
    assert(collected(s, s.len() as int)[wish.item.index as int].alive
        == s[wish.item.index as int].alive);
}

/// Whether no wish in `s` to put an item down names the entity in slot
/// `k`.
pub open spec fn no_drop_of(s: Seq<Slot>, k: int) -> bool {
    forall|j: int|
        0 <= j < s.len() ==> match #[trigger] drop_at(s, j) {
            Some(wish) => !live(s, wish.item) || wish.item.index != k,
            None => true,
        }
}

/// Whether no wish in `s` to pick an item up names the entity in slot `k`.
pub open spec fn no_pickup_of(s: Seq<Slot>, k: int) -> bool {
    forall|j: int|
        0 <= j < s.len() ==> match #[trigger] pickup_at(s, j) {
            Some(wish) => !live(s, wish.item) || wish.item.index != k,
            None => true,
        }
}

/// Dropping leaves an entity as it is that no wish names.
pub proof fn lemma_drop_spares(s: Seq<Slot>, k: int, n: int)
    requires
        0 <= k < s.len(),
        0 <= n <= s.len(),
        no_drop_of(s, k),
    ensures
        dropped(s, n)[k] == s[k],
    decreases n,
{
    if n > 0 {
        lemma_drop_spares(s, k, n - 1);
        lemma_dropped_frame(s, n - 1);
        let before = dropped(s, n - 1);
        let j = n - 1;
        assert(before[j].alive == s[j].alive);
        assert(drop_at(before, j) == drop_at(s, j));
        match drop_at(s, j) {
            Some(wish) => {
                if wish.item.index < s.len() {
                    assert(before[wish.item.index as int].alive
                        == s[wish.item.index as int].alive);
                }
            },
            None => {},
        }
    }
}

/// Collecting leaves an entity as it is that no wish names.
pub proof fn lemma_pickup_spares(s: Seq<Slot>, k: int, n: int)
    requires
        0 <= k < s.len(),
        0 <= n <= s.len(),
        no_pickup_of(s, k),
    ensures
        collected(s, n)[k] == s[k],
    decreases n,
{
    if n > 0 {
        lemma_pickup_spares(s, k, n - 1);
        lemma_collected_frame(s, n - 1);
        let before = collected(s, n - 1);
        let j = n - 1;
        assert(before[j].alive == s[j].alive);
        assert(pickup_at(before, j) == pickup_at(s, j));
        match pickup_at(s, j) {
            Some(wish) => {
                if wish.item.index < s.len() {
                    assert(before[wish.item.index as int].alive
                        == s[wish.item.index as int].alive);
                }
            },
            None => {},
        }
    }
}

/// `s` with the wish of the entity in slot `i` to pick `item` up.
pub open spec fn asking_pickup(s: Seq<Slot>, i: int, item: Entity) -> Seq<Slot> {
    s.update(
        i,
        Slot {
            components: Components {
                wants_to_pickup: Some(
                    WantsToPickupItem { collected_by: handle_in(s, i), item },
                ),
                ..s[i].components
            },
            ..s[i]
        },
    )
}

/// Picking an item up undoes dropping it.  Where an item lies in the
/// backpack of a live entity and on no cell, its owner stands somewhere
/// and wishes to put it down, the drop pass runs, the owner then wishes to
/// pick it up, and the collection pass runs, with no other wish in the way
/// in either pass, the item lies in the owner's backpack and on no cell
/// again, and carries what it carried before, but for its own wishes to
/// drop and to pick up, which the passes clear.  The same holds of the
/// owner, where no wish in either pass names the owner itself.
pub proof fn lemma_pickup_undoes_drop(s: Seq<Slot>, i: int)
    requires
        0 <= i < s.len(),
        drop_at(s, i).is_some(),
        s[i].components.position.is_some(),
        live(s, drop_at(s, i).unwrap().item),
        carried_in(s, drop_at(s, i).unwrap().item).in_backpack == Some(
            InBackpack { owner: handle_in(s, i) },
        ),
        carried_in(s, drop_at(s, i).unwrap().item).position.is_none(),
        drop_undisturbed(s, i),
        pickup_undisturbed(asking_pickup(after_drop(s), i, drop_at(s, i).unwrap().item), i),
    ensures
        ({
            let item = drop_at(s, i).unwrap().item;
            let asked = asking_pickup(after_drop(s), i, item);
            let after = after_collection(asked);
            &&& after.len() == s.len()
            &&& after[item.index as int].alive
            &&& after[item.index as int].generation == item.generation
            &&& after[item.index as int].components == (Components {
                wants_to_drop: None,
                wants_to_pickup: None,
                ..s[item.index as int].components
            })
            &&& no_drop_of(s, i) && no_pickup_of(asked, i) ==> after[i] == (Slot {
                components: Components {
                    wants_to_drop: None,
                    wants_to_pickup: None,
                    ..s[i].components
                },
                ..s[i]
            })
        }),
{
    let n = s.len() as int;
    let item = drop_at(s, i).unwrap().item;
    let k = item.index as int;
    lemma_drop_in_turn(s, i, n);
    lemma_dropped_frame(s, n);
    let d = dropped(s, n);
    let s1 = after_drop(s);
    assert(d[k].alive == s[k].alive);
    assert(d[i].alive == s[i].alive);
    let asked = asking_pickup(s1, i, item);
    assert(asked[i].alive);
    assert(pickup_at(asked, i) == Some(
        WantsToPickupItem { collected_by: handle_in(s1, i), item },
    ));
    assert(asked[k] == s1[k]);
    assert(live(asked, item));
    lemma_pickup_in_turn(asked, i, n);
    lemma_collected_frame(asked, n);
    let c = collected(asked, n);
    assert(c[k].alive == asked[k].alive);
    assert(c[i].alive == asked[i].alive);
    if no_drop_of(s, i) && no_pickup_of(asked, i) {
        lemma_drop_spares(s, i, n);
        lemma_pickup_spares(asked, i, n);
    }
}

/// Whether no live entity in `s` wishes to strike, to pick an item up, to
/// use one or to put one down.
pub open spec fn no_wishes(s: Seq<Slot>) -> bool {
    forall|i: int|
        0 <= i < s.len() && (#[trigger] s[i]).alive ==> {
            &&& s[i].components.wants_to_melee.is_none()
            &&& s[i].components.wants_to_pickup.is_none()
            &&& s[i].components.wants_to_use.is_none()
            &&& s[i].components.wants_to_drop.is_none()
        }
}

/// No wish outlasts the turn: after the passes from melee to drop, however
/// the store stood before them, no live entity wishes to strike, to pick
/// an item up, to use one or to put one down.
pub proof fn lemma_turn_drains_wishes(s: Seq<Slot>, v: MapView)
    ensures
        no_wishes(resolved(s, v)),
{
    let n = s.len() as int;
    let s1 = after_melee(s);
    let s2 = after_damage(s1);
    let s3 = after_collection(s2);
    let s4 = after_use(s3, v);
    let s5 = after_drop(s4);
    lemma_fought_frame(s, n);
    lemma_collected_frame(s2, n);
    lemma_after_uses_akin(s3, v, n);
    lemma_dropped_frame(s4, n);
    let c3 = crate::systems::inventory_management::collected(s2, n);
    let u4 = after_uses(s3, v, n);
    let r4 = rested(u4);
    let d5 = dropped(s4, n);
    assert forall|i: int| 0 <= i < s5.len() && (#[trigger] s5[i]).alive implies {
        &&& s5[i].components.wants_to_melee.is_none()
        &&& s5[i].components.wants_to_pickup.is_none()
        &&& s5[i].components.wants_to_use.is_none()
        &&& s5[i].components.wants_to_drop.is_none()
    } by {
        assert(d5[i].alive == s4[i].alive);
        assert(s4[i].alive ==> r4[i].alive);
        assert(u4[i].alive == s3[i].alive);
        assert(c3[i].alive == s2[i].alive);
        assert(s2[i].alive == s1[i].alive);
    }
}

} // verus!
