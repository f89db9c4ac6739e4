//! Picking items up, using them and putting them down.

use vstd::prelude::*;
use crate::arith::{add_clamped, clamp};
use crate::components::{
    CombatStats, Components, Confusion, InBackpack, SufferDamage, WantsToDropItem,
    WantsToPickupItem, WantsToUseItem,
};
use crate::coord::Coord;
use crate::game_log::GameLog;
use crate::map::{in_sight_range, GameMap, MapView};
use crate::store::{
    carried_in, handle_in, label_in, live, purged, same_cast, with_components, Entity,
    EntityStore, Slot,
};
use crate::text::{
    confuse_message, confuse_text, drop_message, drop_text, harm_message, harm_text, heal_message,
    heal_text, pickup_message, pickup_text,
};

verus! {

/// The pass that carries out the wishes to pick an item up.
pub struct ItemCollectionSystem {}

/// The pass that carries out the wishes to use an item.
pub struct ItemUseSystem {}

/// The pass that carries out the wishes to put an item down.
pub struct ItemDropSystem {}

/// Whether `c` is a cell of the map that is not on its rim.
pub open spec fn interior(v: MapView, c: Coord) -> bool {
    0 < c.x < v.width - 1 && 0 < c.y < v.height - 1
}

/// Who stands on those of the first `n` of `cells` that are not on the rim
/// of the map, cell by cell.
pub open spec fn occupants(v: MapView, cells: Seq<Coord>, n: int) -> Seq<Entity>
    decreases n,
{
    if n <= 0 {
        Seq::empty()
    } else if interior(v, cells[n - 1]) {
        occupants(v, cells, n - 1) + v.content[v.index(cells[n - 1].x as int, cells[n - 1].y as int)]
    } else {
        occupants(v, cells, n - 1)
    }
}

/// Whom the entity `user` reaches with the wish `wish`: itself where it
/// names no cell; whoever stands on the cell it names where the item has no
/// area of effect; else whoever stands on a cell off the rim that is in
/// view from the named cell within the item's radius.  A cell off the map,
/// and a radius that no field of view is computed for, reach nobody.
pub open spec fn targets_of(s: Seq<Slot>, v: MapView, user: Entity, wish: WantsToUseItem) -> Seq<
    Entity,
> {
    match wish.target {
        None => seq![user],
        Some(at) => if !v.contains(at.x as int, at.y as int) {
            Seq::empty()
        } else {
            match carried_in(s, wish.item).area_of_effect {
                None => v.content[v.index(at.x as int, at.y as int)],
                Some(area) => if in_sight_range(area.radius as int) {
                    occupants(
                        v,
                        v.in_view(at, area.radius as int),
                        v.in_view(at, area.radius as int).len() as int,
                    )
                } else {
                    Seq::empty()
                },
            }
        },
    }
}

/// Whether the wish `wish` reaches the cell it names, should it name one:
/// the item has no area of effect, or it has one with a radius that a field
/// of view is computed for, and the cell is not on the rim of the map.
pub open spec fn reaches_named_cell(s: Seq<Slot>, v: MapView, wish: WantsToUseItem, at: Coord) -> bool {
    v.contains(at.x as int, at.y as int) && match carried_in(s, wish.item).area_of_effect {
        None => true,
        Some(area) => in_sight_range(area.radius as int) && interior(v, at),
    }
}

/// Whoever stands on one of the cells stands among their occupants, where
/// the cell is not on the rim.
pub proof fn lemma_occupants_include(v: MapView, cells: Seq<Coord>, n: int, k: int)
    requires
        0 <= k < n <= cells.len(),
        interior(v, cells[k]),
    ensures
        forall|j: int|
            0 <= j < v.content[v.index(cells[k].x as int, cells[k].y as int)].len() ==> occupants(
                v,
                cells,
                n,
            ).contains(#[trigger] v.content[v.index(cells[k].x as int, cells[k].y as int)][j]),
    decreases n,
{
    let here = v.content[v.index(cells[k].x as int, cells[k].y as int)];
    let before = occupants(v, cells, n - 1);
    let all = occupants(v, cells, n);
    if k == n - 1 {
        assert forall|j: int| 0 <= j < here.len() implies all.contains(#[trigger] here[j]) by {
            assert(all[before.len() + j] == here[j]);
        }
    } else {
        lemma_occupants_include(v, cells, n - 1, k);
        assert forall|j: int| 0 <= j < here.len() implies all.contains(#[trigger] here[j]) by {
            assert(before.contains(here[j]));
            let p = choose|p: int| 0 <= p < before.len() && before[p] == here[j];
            assert(all[p] == here[j]);
        }
    }
}

/// Health `hp` raised by `amount`, but not above `max_hp`.
pub open spec fn raised(hp: int, max_hp: int, amount: int) -> int {
    if clamp(hp + amount) < max_hp {
        clamp(hp + amount)
    } else {
        max_hp
    }
}

/// Whether healing changes anything for `t`: it lives and has health.
pub open spec fn heals(s: Seq<Slot>, t: Entity) -> bool {
    live(s, t) && s[t.index as int].components.combat_stats.is_some()
}

/// `s` after the first `n` of `targets` have been healed by `amount` in
/// turn.
pub open spec fn healed(s: Seq<Slot>, targets: Seq<Entity>, amount: int, n: int) -> Seq<Slot>
    decreases n,
{
    if n <= 0 {
        s
    } else {
        let before = healed(s, targets, amount, n - 1);
        let t = targets[n - 1];
        if heals(before, t) {
            let c = before[t.index as int].components;
            let stats = c.combat_stats.unwrap();
            with_components(
                before,
                t.index as int,
                Components {
                    combat_stats: Some(
                        CombatStats {
                            hp: raised(stats.hp as int, stats.max_hp as int, amount) as i32,
                            ..stats
                        },
                    ),
                    ..c
                },
            )
        } else {
            before
        }
    }
}

/// The messages for healing the first `n` of `targets`, newest first.
pub open spec fn heal_lines(
    s: Seq<Slot>,
    targets: Seq<Entity>,
    item: Seq<char>,
    amount: int,
    n: int,
) -> Seq<Seq<char>>
    decreases n,
{
    if n <= 0 {
        Seq::empty()
    } else if heals(s, targets[n - 1]) {
        seq![heal_text(item, amount)] + heal_lines(s, targets, item, amount, n - 1)
    } else {
        heal_lines(s, targets, item, amount, n - 1)
    }
}

/// The damage that waits once `amount` has been added to `waiting`.
pub open spec fn piled(waiting: Option<SufferDamage>, amount: int) -> SufferDamage {
    match waiting {
        Some(d) => SufferDamage { amount: clamp(d.amount + amount) as i32 },
        None => SufferDamage { amount: clamp(amount) as i32 },
    }
}

/// `s` after `amount` damage has been queued on each of the first `n` of
/// `targets` that lives.
pub open spec fn harmed(s: Seq<Slot>, targets: Seq<Entity>, amount: int, n: int) -> Seq<Slot>
    decreases n,
{
    if n <= 0 {
        s
    } else {
        let before = harmed(s, targets, amount, n - 1);
        let t = targets[n - 1];
        if live(before, t) {
            let c = before[t.index as int].components;
            with_components(
                before,
                t.index as int,
                Components { suffer_damage: Some(piled(c.suffer_damage, amount)), ..c },
            )
        } else {
            before
        }
    }
}

/// The messages for harming the first `n` of `targets`, newest first.
pub open spec fn harm_lines(
    s: Seq<Slot>,
    targets: Seq<Entity>,
    item: Seq<char>,
    amount: int,
    n: int,
) -> Seq<Seq<char>>
    decreases n,
{
    if n <= 0 {
        Seq::empty()
    } else if live(s, targets[n - 1]) {
        seq![harm_text(item, label_in(s, targets[n - 1]), amount)] + harm_lines(
            s,
            targets,
            item,
            amount,
            n - 1,
        )
    } else {
        harm_lines(s, targets, item, amount, n - 1)
    }
}

/// `s` after each of the first `n` of `targets` that lives has been
/// confused for `turns` turns.
pub open spec fn confused(s: Seq<Slot>, targets: Seq<Entity>, turns: i32, n: int) -> Seq<Slot>
    decreases n,
{
    if n <= 0 {
        s
    } else {
        let before = confused(s, targets, turns, n - 1);
        let t = targets[n - 1];
        if live(before, t) {
            let c = before[t.index as int].components;
            with_components(
                before,
                t.index as int,
                Components { confusion: Some(Confusion { turns }), ..c },
            )
        } else {
            before
        }
    }
}

/// The messages for confusing the first `n` of `targets`, newest first.
pub open spec fn confuse_lines(s: Seq<Slot>, targets: Seq<Entity>, item: Seq<char>, n: int) -> Seq<
    Seq<char>,
>
    decreases n,
{
    if n <= 0 {
        Seq::empty()
    } else if live(s, targets[n - 1]) {
        seq![confuse_text(item, label_in(s, targets[n - 1]))] + confuse_lines(
            s,
            targets,
            item,
            n - 1,
        )
    } else {
        confuse_lines(s, targets, item, n - 1)
    }
}

/// Whether `b` holds the entities of `a` with the same names, and each
/// carries in `b` what it carries in `a` but for its health, the damage
/// that waits on it and its confusion; who has health in one has it in the
/// other.
pub open spec fn akin(a: Seq<Slot>, b: Seq<Slot>) -> bool {
    &&& a.len() == b.len()
    &&& forall|i: int|
        0 <= i < a.len() ==> {
            &&& (#[trigger] b[i]).alive == a[i].alive
            &&& b[i].generation == a[i].generation
            &&& b[i].components == (Components {
                combat_stats: b[i].components.combat_stats,
                suffer_damage: b[i].components.suffer_damage,
                confusion: b[i].components.confusion,
                ..a[i].components
            })
            &&& b[i].components.combat_stats.is_some() == a[i].components.combat_stats.is_some()
        }
}

/// What one use of `item` on `targets` makes of `s`: the targets are healed
/// where the item heals, then harmed where it harms, then confused where it
/// confuses.
pub open spec fn used_slots(s: Seq<Slot>, targets: Seq<Entity>, item: Entity) -> Seq<Slot> {
    let tags = carried_in(s, item);
    let n = targets.len() as int;
    let s1 = match tags.provides_healing {
        Some(h) => healed(s, targets, h.heal_amount as int, n),
        None => s,
    };
    let s2 = match tags.inflicts_damage {
        Some(d) => harmed(s1, targets, d.damage as int, n),
        None => s1,
    };
    match tags.confusion {
        Some(c) => confused(s2, targets, c.turns, n),
        None => s2,
    }
}

/// The messages for one use of `item` on `targets`, newest first.
pub open spec fn used_lines(s: Seq<Slot>, targets: Seq<Entity>, item: Entity) -> Seq<Seq<char>> {
    let tags = carried_in(s, item);
    let name = label_in(s, item);
    let n = targets.len() as int;
    (match tags.confusion {
        Some(c) => confuse_lines(s, targets, name, n),
        None => Seq::empty(),
    }) + (match tags.inflicts_damage {
        Some(d) => harm_lines(s, targets, name, d.damage as int, n),
        None => Seq::empty(),
    }) + (match tags.provides_healing {
        Some(h) => heal_lines(s, targets, name, h.heal_amount as int, n),
        None => Seq::empty(),
    })
}

/// Whether a use of `item` uses it up: it is consumable and it heals, harms
/// or confuses.
pub open spec fn spent(s: Seq<Slot>, item: Entity) -> bool {
    let tags = carried_in(s, item);
    tags.consumable.is_some() && (tags.provides_healing.is_some() || tags.inflicts_damage.is_some()
        || tags.confusion.is_some())
}

/// Being akin is reflexive.
pub proof fn lemma_akin_refl(a: Seq<Slot>)
    ensures
        akin(a, a),
{
}

/// Being akin carries over.
pub proof fn lemma_akin_trans(a: Seq<Slot>, b: Seq<Slot>, c: Seq<Slot>)
    requires
        akin(a, b),
        akin(b, c),
    ensures
        akin(a, c),
{
    assert forall|i: int| 0 <= i < a.len() implies {
        &&& (#[trigger] c[i]).alive == a[i].alive
        &&& c[i].generation == a[i].generation
        &&& c[i].components == (Components {
            combat_stats: c[i].components.combat_stats,
            suffer_damage: c[i].components.suffer_damage,
            confusion: c[i].components.confusion,
            ..a[i].components
        })
        &&& c[i].components.combat_stats.is_some() == a[i].components.combat_stats.is_some()
    } by {
        assert(b[i].alive == a[i].alive);
    }
}

/// Stores that are akin give the same messages for harming.
pub proof fn lemma_harm_lines_akin(
    a: Seq<Slot>,
    b: Seq<Slot>,
    targets: Seq<Entity>,
    item: Seq<char>,
    amount: int,
    n: int,
)
    requires
        akin(a, b),
        n <= targets.len(),
    ensures
        harm_lines(a, targets, item, amount, n) == harm_lines(b, targets, item, amount, n),
    decreases n,
{
    if n > 0 {
        lemma_harm_lines_akin(a, b, targets, item, amount, n - 1);
        let t = targets[n - 1];
        if t.index < a.len() {
            assert(b[t.index as int].alive == a[t.index as int].alive);
        }
    }
}

/// Stores that are akin give the same messages for confusing.
pub proof fn lemma_confuse_lines_akin(
    a: Seq<Slot>,
    b: Seq<Slot>,
    targets: Seq<Entity>,
    item: Seq<char>,
    n: int,
)
    requires
        akin(a, b),
        n <= targets.len(),
    ensures
        confuse_lines(a, targets, item, n) == confuse_lines(b, targets, item, n),
    decreases n,
{
    if n > 0 {
        lemma_confuse_lines_akin(a, b, targets, item, n - 1);
        let t = targets[n - 1];
        if t.index < a.len() {
            assert(b[t.index as int].alive == a[t.index as int].alive);
        }
    }
}

impl ItemUseSystem {
    /// Heals each of `targets` that lives and has health by `amount`, up
    /// to its full health, and says so in the log where `by_player` holds.
    pub fn heal(
        store: &mut EntityStore,
        log: &mut GameLog,
        targets: &Vec<Entity>,
        item_name: &str,
        amount: i32,
        by_player: bool,
    )
        ensures
            final(store).slots() == healed(
                old(store).slots(),
                targets@,
                amount as int,
                targets@.len() as int,
            ),
            akin(old(store).slots(), final(store).slots()),
            final(log).lines() == (if by_player {
                heal_lines(
                    old(store).slots(),
                    targets@,
                    item_name@,
                    amount as int,
                    targets@.len() as int,
                )
            } else {
                Seq::empty()
            }) + old(log).lines(),
    {
        let ghost s0 = store.slots();
        let ghost l0 = log.lines();
        let mut k: usize = 0;
        assert(log.lines() =~= Seq::<Seq<char>>::empty() + l0);
        while k < targets.len()
            invariant
                k <= targets@.len(),
                store.slots() == healed(s0, targets@, amount as int, k as int),
                akin(s0, store.slots()),
                log.lines() == (if by_player {
                    heal_lines(s0, targets@, item_name@, amount as int, k as int)
                } else {
                    Seq::empty()
                }) + l0,
            decreases targets@.len() - k,
        {
            let t = targets[k];
            let ghost before = store.slots();
            if store.is_alive(t) {
                assert(before[t.index as int].alive == s0[t.index as int].alive);
                match store.slots[t.index].components.combat_stats {
                    Some(stats) => {
                        let up = add_clamped(stats.hp, amount);
                        let hp = if up < stats.max_hp {
                            up
                        } else {
                            stats.max_hp
                        };
                        store.slots[t.index].components.combat_stats = Some(
                            CombatStats { hp, ..stats },
                        );
                        if by_player {
                            log.add(heal_message(item_name, amount));
                            assert(log.lines() =~= heal_lines(
                                s0,
                                targets@,
                                item_name@,
                                amount as int,
                                k + 1,
                            ) + l0);
                        }
                        assert(store.slots() =~= healed(s0, targets@, amount as int, k + 1));
                    },
                    None => {},
                }
            }
            k = k + 1;
        }
    }

    /// Queues `amount` damage on each of `targets` that lives, and says so
    /// in the log where `by_player` holds.
    pub fn harm(
        store: &mut EntityStore,
        log: &mut GameLog,
        targets: &Vec<Entity>,
        item_name: &str,
        amount: i32,
        by_player: bool,
    )
        ensures
            final(store).slots() == harmed(
                old(store).slots(),
                targets@,
                amount as int,
                targets@.len() as int,
            ),
            akin(old(store).slots(), final(store).slots()),
            final(log).lines() == (if by_player {
                harm_lines(
                    old(store).slots(),
                    targets@,
                    item_name@,
                    amount as int,
                    targets@.len() as int,
                )
            } else {
                Seq::empty()
            }) + old(log).lines(),
    {
        let ghost s0 = store.slots();
        let ghost l0 = log.lines();
        let mut k: usize = 0;
        assert(log.lines() =~= Seq::<Seq<char>>::empty() + l0);
        while k < targets.len()
            invariant
                k <= targets@.len(),
                store.slots() == harmed(s0, targets@, amount as int, k as int),
                akin(s0, store.slots()),
                log.lines() == (if by_player {
                    harm_lines(s0, targets@, item_name@, amount as int, k as int)
                } else {
                    Seq::empty()
                }) + l0,
            decreases targets@.len() - k,
        {
            let t = targets[k];
            let ghost before = store.slots();
            if store.is_alive(t) {
                assert(before[t.index as int].alive == s0[t.index as int].alive);
                if by_player {
                    let victim = store.label(t);
                    log.add(harm_message(item_name, victim.as_str(), amount));
                    assert(log.lines() =~= harm_lines(
                        s0,
                        targets@,
                        item_name@,
                        amount as int,
                        k + 1,
                    ) + l0);
                }
                let waiting = match store.slots[t.index].components.suffer_damage {
                    Some(d) => add_clamped(d.amount, amount),
                    None => amount,
                };
                store.slots[t.index].components.suffer_damage = Some(
                    SufferDamage { amount: waiting },
                );
                assert(store.slots() =~= harmed(s0, targets@, amount as int, k + 1));
            }
            k = k + 1;
        }
    }

    /// Confuses each of `targets` that lives for `turns` turns, and says
    /// so in the log where `by_player` holds.
    pub fn confuse(
        store: &mut EntityStore,
        log: &mut GameLog,
        targets: &Vec<Entity>,
        item_name: &str,
        turns: i32,
        by_player: bool,
    )
        ensures
            final(store).slots() == confused(
                old(store).slots(),
                targets@,
                turns,
                targets@.len() as int,
            ),
            akin(old(store).slots(), final(store).slots()),
            final(log).lines() == (if by_player {
                confuse_lines(old(store).slots(), targets@, item_name@, targets@.len() as int)
            } else {
                Seq::empty()
            }) + old(log).lines(),
    {
        let ghost s0 = store.slots();
        let ghost l0 = log.lines();
        let mut k: usize = 0;
        assert(log.lines() =~= Seq::<Seq<char>>::empty() + l0);
        while k < targets.len()
            invariant
                k <= targets@.len(),
                store.slots() == confused(s0, targets@, turns, k as int),
                akin(s0, store.slots()),
                log.lines() == (if by_player {
                    confuse_lines(s0, targets@, item_name@, k as int)
                } else {
                    Seq::empty()
                }) + l0,
            decreases targets@.len() - k,
        {
            let t = targets[k];
            let ghost before = store.slots();
            if store.is_alive(t) {
                assert(before[t.index as int].alive == s0[t.index as int].alive);
                if by_player {
                    let victim = store.label(t);
                    log.add(confuse_message(item_name, victim.as_str()));
                    assert(log.lines() =~= confuse_lines(s0, targets@, item_name@, k + 1) + l0);
                }
                store.slots[t.index].components.confusion = Some(Confusion { turns });
                assert(store.slots() =~= confused(s0, targets@, turns, k + 1));
            }
            k = k + 1;
        }
    }

    /// Lets `item` work on `targets` and says whether that used it up.
    /// Where `by_player` holds each effect on each target is noted in the
    /// log.
    pub fn apply(
        store: &mut EntityStore,
        log: &mut GameLog,
        by_player: bool,
        item: Entity,
        targets: &Vec<Entity>,
    ) -> (used_up: bool)
        ensures
            final(store).slots() == used_slots(old(store).slots(), targets@, item),
            akin(old(store).slots(), final(store).slots()),
            final(log).lines() == (if by_player {
                used_lines(old(store).slots(), targets@, item)
            } else {
                Seq::empty()
            }) + old(log).lines(),
            used_up == spent(old(store).slots(), item),
    {
        let ghost s0 = store.slots();
        let ghost l0 = log.lines();
        let ghost n = targets@.len() as int;
        let item_name = store.label(item);
        let (healing, damage, confusion, consumable) = match store.get(item) {
            Some(tags) => (
                tags.provides_healing,
                tags.inflicts_damage,
                tags.confusion,
                tags.consumable.is_some(),
            ),
            None => (None, None, None, false),
        };
        let mut used = false;
        proof {
            lemma_akin_refl(s0);
        }
        match healing {
            Some(h) => {
                Self::heal(store, log, targets, item_name.as_str(), h.heal_amount, by_player);
                used = true;
            },
            None => {
                assert(log.lines() =~= Seq::<Seq<char>>::empty() + l0);
            },
        }
        let ghost s1 = store.slots();
        let ghost l1 = log.lines();
        match damage {
            Some(d) => {
                Self::harm(store, log, targets, item_name.as_str(), d.damage, by_player);
                used = true;
                proof {
                    lemma_harm_lines_akin(s0, s1, targets@, item_name@, d.damage as int, n);
                    lemma_akin_trans(s0, s1, store.slots());
                }
            },
            None => {
                assert(log.lines() =~= Seq::<Seq<char>>::empty() + l1);
            },
        }
        let ghost s2 = store.slots();
        let ghost l2 = log.lines();
        match confusion {
            Some(c) => {
                Self::confuse(store, log, targets, item_name.as_str(), c.turns, by_player);
                used = true;
                proof {
                    lemma_confuse_lines_akin(s0, s2, targets@, item_name@, n);
                    lemma_akin_trans(s0, s2, store.slots());
                }
            },
            None => {
                assert(log.lines() =~= Seq::<Seq<char>>::empty() + l2);
            },
        }
        proof {
            if by_player {
                assert(log.lines() =~= used_lines(s0, targets@, item) + l0);
            } else {
                assert(log.lines() =~= Seq::<Seq<char>>::empty() + l0);
            }
        }
        used && consumable
    }
}

/// The wish to use an item that the entity in slot `i` has, if it lives
/// and has one.
pub open spec fn wish_at(s: Seq<Slot>, i: int) -> Option<WantsToUseItem> {
    if s[i].alive {
        s[i].components.wants_to_use
    } else {
        None
    }
}

/// `s` after the wishes of the first `n` slots have been carried out in
/// turn.
pub open spec fn after_uses(s: Seq<Slot>, v: MapView, n: int) -> Seq<Slot>
    decreases n,
{
    if n <= 0 {
        s
    } else {
        let before = after_uses(s, v, n - 1);
        match wish_at(before, n - 1) {
            Some(wish) => used_slots(
                before,
                targets_of(before, v, handle_in(before, n - 1), wish),
                wish.item,
            ),
            None => before,
        }
    }
}

/// The messages for the wishes of the first `n` slots, newest first: those
/// for the wishes of `player`.
pub open spec fn lines_of_uses(s: Seq<Slot>, v: MapView, player: Entity, n: int) -> Seq<Seq<char>>
    decreases n,
{
    if n <= 0 {
        Seq::empty()
    } else {
        let before = after_uses(s, v, n - 1);
        (match wish_at(before, n - 1) {
            Some(wish) => if handle_in(before, n - 1) == player {
                used_lines(
                    before,
                    targets_of(before, v, handle_in(before, n - 1), wish),
                    wish.item,
                )
            } else {
                Seq::empty()
            },
            None => Seq::empty(),
        }) + lines_of_uses(s, v, player, n - 1)
    }
}

/// The items that the wishes of the first `n` slots use up, in turn.
pub open spec fn used_up(s: Seq<Slot>, v: MapView, n: int) -> Seq<Entity>
    decreases n,
{
    if n <= 0 {
        Seq::empty()
    } else {
        let before = after_uses(s, v, n - 1);
        match wish_at(before, n - 1) {
            Some(wish) => if spent(before, wish.item) {
                used_up(s, v, n - 1).push(wish.item)
            } else {
                used_up(s, v, n - 1)
            },
            None => used_up(s, v, n - 1),
        }
    }
}

/// `s` with no wish to use an item left.
pub open spec fn rested(s: Seq<Slot>) -> Seq<Slot> {
    Seq::new(
        s.len(),
        |j: int|
            if s[j].alive {
                Slot { components: Components { wants_to_use: None, ..s[j].components }, ..s[j] }
            } else {
                s[j]
            },
    )
}

/// Carrying out wishes keeps the store akin to what it was.
pub proof fn lemma_after_uses_akin(s: Seq<Slot>, v: MapView, n: int)
    ensures
        akin(s, after_uses(s, v, n)),
    decreases n,
{
    if n > 0 {
        lemma_after_uses_akin(s, v, n - 1);
        let before = after_uses(s, v, n - 1);
        match wish_at(before, n - 1) {
            Some(wish) => {
                let targets = targets_of(before, v, handle_in(before, n - 1), wish);
                lemma_used_slots_akin(before, targets, wish.item);
                lemma_akin_trans(s, before, after_uses(s, v, n));
            },
            None => {},
        }
    }
}

/// Changing, for one entity, its health, the damage that waits on it or
/// its confusion keeps the store akin to what it was.
pub proof fn lemma_akin_update(a: Seq<Slot>, b: Seq<Slot>, i: int, c: Components)
    requires
        akin(a, b),
        0 <= i < b.len(),
        c == (Components {
            combat_stats: c.combat_stats,
            suffer_damage: c.suffer_damage,
            confusion: c.confusion,
            ..b[i].components
        }),
        c.combat_stats.is_some() == b[i].components.combat_stats.is_some(),
    ensures
        akin(a, with_components(b, i, c)),
{
    let d = with_components(b, i, c);
    assert forall|k: int| 0 <= k < a.len() implies {
        &&& (#[trigger] d[k]).alive == a[k].alive
        &&& d[k].generation == a[k].generation
        &&& d[k].components == (Components {
            combat_stats: d[k].components.combat_stats,
            suffer_damage: d[k].components.suffer_damage,
            confusion: d[k].components.confusion,
            ..a[k].components
        })
        &&& d[k].components.combat_stats.is_some() == a[k].components.combat_stats.is_some()
    } by {
        assert(b[k].alive == a[k].alive);
    }
}

/// Healing keeps the store akin to what it was.
pub proof fn lemma_healed_akin(s: Seq<Slot>, targets: Seq<Entity>, amount: int, n: int)
    ensures
        akin(s, healed(s, targets, amount, n)),
    decreases n,
{
    if n > 0 {
        lemma_healed_akin(s, targets, amount, n - 1);
        let before = healed(s, targets, amount, n - 1);
        let t = targets[n - 1];
        if heals(before, t) {
            let c = before[t.index as int].components;
            let stats = c.combat_stats.unwrap();
            lemma_akin_update(
                s,
                before,
                t.index as int,
                Components {
                    combat_stats: Some(
                        CombatStats {
                            hp: raised(stats.hp as int, stats.max_hp as int, amount) as i32,
                            ..stats
                        },
                    ),
                    ..c
                },
            );
        }
    }
}

/// Harming keeps the store akin to what it was.
pub proof fn lemma_harmed_akin(s: Seq<Slot>, targets: Seq<Entity>, amount: int, n: int)
    ensures
        akin(s, harmed(s, targets, amount, n)),
    decreases n,
{
    if n > 0 {
        lemma_harmed_akin(s, targets, amount, n - 1);
        let before = harmed(s, targets, amount, n - 1);
        let t = targets[n - 1];
        if live(before, t) {
            let c = before[t.index as int].components;
            lemma_akin_update(
                s,
                before,
                t.index as int,
                Components { suffer_damage: Some(piled(c.suffer_damage, amount)), ..c },
            );
        }
    }
}

/// Confusing keeps the store akin to what it was.
pub proof fn lemma_confused_akin(s: Seq<Slot>, targets: Seq<Entity>, turns: i32, n: int)
    ensures
        akin(s, confused(s, targets, turns, n)),
    decreases n,
{
    if n > 0 {
        lemma_confused_akin(s, targets, turns, n - 1);
        let before = confused(s, targets, turns, n - 1);
        let t = targets[n - 1];
        if live(before, t) {
            let c = before[t.index as int].components;
            lemma_akin_update(
                s,
                before,
                t.index as int,
                Components { confusion: Some(Confusion { turns }), ..c },
            );
        }
    }
}

/// One use keeps the store akin to what it was.
pub proof fn lemma_used_slots_akin(s: Seq<Slot>, targets: Seq<Entity>, item: Entity)
    ensures
        akin(s, used_slots(s, targets, item)),
{
    let tags = carried_in(s, item);
    let n = targets.len() as int;
    let s1 = match tags.provides_healing {
        Some(h) => healed(s, targets, h.heal_amount as int, n),
        None => s,
    };
    let s2 = match tags.inflicts_damage {
        Some(d) => harmed(s1, targets, d.damage as int, n),
        None => s1,
    };
    if let Some(h) = tags.provides_healing {
        lemma_healed_akin(s, targets, h.heal_amount as int, n);
    }
    if let Some(d) = tags.inflicts_damage {
        lemma_harmed_akin(s1, targets, d.damage as int, n);
    }
    lemma_akin_trans(s, s1, s2);
    if let Some(c) = tags.confusion {
        lemma_confused_akin(s2, targets, c.turns, n);
    }
    lemma_akin_trans(s, s2, used_slots(s, targets, item));
}

impl ItemUseSystem {
    /// Who stands on those of `cells` that are not on the rim of the map.
    pub fn occupants_of(map: &GameMap, cells: &Vec<Coord>) -> (r: Vec<Entity>)
        ensures
            r@ == occupants(map@, cells@, cells@.len() as int),
    {
        let mut r: Vec<Entity> = Vec::new();
        let mut k: usize = 0;
        while k < cells.len()
            invariant
                k <= cells@.len(),
                r@ == occupants(map@, cells@, k as int),
            decreases cells@.len() - k,
        {
            let c = cells[k];
            if 0 < c.x && c.x < map.width() - 1 && 0 < c.y && c.y < map.height() - 1 {
                let idx = map.xy_to_idx(c.x, c.y);
                let here = map.occupants_at(idx);
                let ghost base = r@;
                let mut j: usize = 0;
                while j < here.len()
                    invariant
                        j <= here@.len(),
                        r@ == base + here@.take(j as int),
                    decreases here@.len() - j,
                {
                    r.push(here[j]);
                    j = j + 1;
                    assert(r@ =~= base + here@.take(j as int));
                }
                assert(here@.take(here@.len() as int) =~= here@);
            }
            k = k + 1;
        }
        r
    }

    /// Whom `user` reaches with the wish `used_item`.  Whoever stands on
    /// the cell that the wish names is among them, where the wish reaches
    /// that cell.
    pub fn targets(
        store: &EntityStore,
        map: &GameMap,
        user: Entity,
        used_item: &WantsToUseItem,
    ) -> (r: Vec<Entity>)
        ensures
            r@ == targets_of(store.slots(), map@, user, *used_item),
            used_item.target matches Some(at) ==> (reaches_named_cell(
                store.slots(),
                map@,
                *used_item,
                at,
            ) ==> forall|j: int|
                0 <= j < map@.content[map@.index(at.x as int, at.y as int)].len() ==> r@.contains(
                    #[trigger] map@.content[map@.index(at.x as int, at.y as int)][j],
                )),
    {
        let mut action_targets: Vec<Entity> = Vec::new();
        match used_item.target {
            None => {
                action_targets.push(user);
                assert(action_targets@ =~= seq![user]);
            },
            Some(target) => {
                if map.in_bounds(target.x, target.y) {
                    let area = match store.get(used_item.item) {
                        Some(tags) => tags.area_of_effect,
                        None => None,
                    };
                    match area {
                        None => {
                            let idx = map.point_to_idx(target);
                            let here = map.occupants_at(idx);
                            let mut j: usize = 0;
                            while j < here.len()
                                invariant
                                    j <= here@.len(),
                                    action_targets@ == here@.take(j as int),
                                decreases here@.len() - j,
                            {
                                action_targets.push(here[j]);
                                j = j + 1;
                                assert(action_targets@ =~= here@.take(j as int));
                            }
                            assert(here@.take(here@.len() as int) =~= here@);
                        },
                        Some(area_of_effect) => {
                            match map.field_of_view(target, area_of_effect.radius) {
                                Some(blast) => {
                                    action_targets = Self::occupants_of(map, &blast);
                                    proof {
                                        if interior(map@, target) {
                                            let k = choose|k: int|
                                                0 <= k < blast@.len() && blast@[k] == target;
                                            lemma_occupants_include(
                                                map@,
                                                blast@,
                                                blast@.len() as int,
                                                k,
                                            );
                                        }
                                    }
                                },
                                None => {},
                            }
                        },
                    }
                }
            },
        }
        action_targets
    }

    /// Carries out every wish to use an item, in slot order: the item
    /// works on whom the wish reaches, and the effects of the player's
    /// wishes are noted in the log.  Then no wish is left, and the items
    /// that were used up are gone.
    pub fn run(
        &mut self,
        store: &mut EntityStore,
        map: &GameMap,
        log: &mut GameLog,
        player: Entity,
    )
        ensures
            final(store).slots() == purged(
                rested(after_uses(old(store).slots(), map@, old(store).slots().len() as int)),
                used_up(old(store).slots(), map@, old(store).slots().len() as int),
            ),
            final(log).lines() == lines_of_uses(
                old(store).slots(),
                map@,
                player,
                old(store).slots().len() as int,
            ) + old(log).lines(),
            old(store).succeeded_by(final(store)),
    {
        let ghost s0 = store.slots();
        let ghost l0 = log.lines();
        let ghost v = map@;
        let n: usize = store.len();
        let mut gone: Vec<Entity> = Vec::new();
        let mut i: usize = 0;
        assert(log.lines() =~= Seq::<Seq<char>>::empty() + l0);
        proof {
            lemma_akin_refl(s0);
        }
        while i < n
            invariant
                i <= n,
                n == s0.len(),
                v == map@,
                store.slots() == after_uses(s0, v, i as int),
                akin(s0, store.slots()),
                log.lines() == lines_of_uses(s0, v, player, i as int) + l0,
                gone@ == used_up(s0, v, i as int),
            decreases n - i,
        {
            let ghost before = store.slots();
            let wish = if store.slots[i].alive {
                store.slots[i].components.wants_to_use
            } else {
                None
            };
            match wish {
                Some(used_item) => {
                    let user = Entity { index: i, generation: store.slots[i].generation };
                    let action_targets = Self::targets(store, map, user, &used_item);
                    let used = Self::apply(
                        store,
                        log,
                        user == player,
                        used_item.item,
                        &action_targets,
                    );
                    if used {
                        gone.push(used_item.item);
                    }
                    proof {
                        lemma_akin_trans(s0, before, store.slots());
                        assert(log.lines() =~= lines_of_uses(s0, v, player, i + 1) + l0);
                    }
                },
                None => {
                    assert(log.lines() =~= lines_of_uses(s0, v, player, i + 1) + l0);
                },
            }
            i = i + 1;
        }
        let ghost s1 = store.slots();
        let mut j: usize = 0;
        while j < n
            invariant
                j <= n,
                n == s1.len(),
                store.slots().len() == n,
                akin(s0, s1),
                forall|k: int|
                    0 <= k < n ==> #[trigger] store.slots()[k] == if k < j {
                        rested(s1)[k]
                    } else {
                        s1[k]
                    },
            decreases n - j,
        {
            if store.slots[j].alive {
                store.slots[j].components.wants_to_use = None;
            }
            j = j + 1;
        }
        assert(store.slots() =~= rested(s1));
        store.delete_all(&gone);
        proof {
            let s2 = rested(s1);
            let s3 = store.slots();
            assert forall|k: int| 0 <= k < s0.len() implies s0[k].generation <= (
            #[trigger] s3[k]).generation && (s3[k].generation == s0[k].generation && s3[k].alive
                ==> s0[k].alive) by {
                assert(s1[k].alive == s0[k].alive);
                assert(s2[k].alive == s1[k].alive);
            }
        }
    }
}

/// The wish to pick an item up that the entity in slot `i` has, if it lives
/// and has one.
pub open spec fn pickup_at(s: Seq<Slot>, i: int) -> Option<WantsToPickupItem> {
    if s[i].alive {
        s[i].components.wants_to_pickup
    } else {
        None
    }
}

/// `s` after the wishes of the first `n` slots to pick an item up have been
/// carried out in turn: each item that lives has left the map and lies in
/// the backpack of its collector.
pub open spec fn collected(s: Seq<Slot>, n: int) -> Seq<Slot>
    decreases n,
{
    if n <= 0 {
        s
    } else {
        let before = collected(s, n - 1);
        match pickup_at(before, n - 1) {
            Some(pickup) => if live(before, pickup.item) {
                with_components(
                    before,
                    pickup.item.index as int,
                    Components {
                        position: None,
                        in_backpack: Some(InBackpack { owner: pickup.collected_by }),
                        ..before[pickup.item.index as int].components
                    },
                )
            } else {
                before
            },
            None => before,
        }
    }
}

/// The messages for the pickups of the first `n` slots, newest first: one
/// for each item that `player` collected.
pub open spec fn pickup_lines(s: Seq<Slot>, player: Entity, n: int) -> Seq<Seq<char>>
    decreases n,
{
    if n <= 0 {
        Seq::empty()
    } else {
        let before = collected(s, n - 1);
        (match pickup_at(before, n - 1) {
            Some(pickup) => if live(before, pickup.item) && pickup.collected_by == player {
                seq![pickup_text(label_in(before, pickup.item))]
            } else {
                Seq::empty()
            },
            None => Seq::empty(),
        }) + pickup_lines(s, player, n - 1)
    }
}

/// `s` with no wish to pick an item up left.
pub open spec fn without_pickups(s: Seq<Slot>) -> Seq<Slot> {
    Seq::new(
        s.len(),
        |j: int|
            if s[j].alive {
                Slot { components: Components { wants_to_pickup: None, ..s[j].components }, ..s[j] }
            } else {
                s[j]
            },
    )
}

/// Collecting keeps every entity in its slot.
pub proof fn lemma_collected_cast(s: Seq<Slot>, n: int)
    ensures
        same_cast(s, collected(s, n)),
    decreases n,
{
    if n > 0 {
        lemma_collected_cast(s, n - 1);
        let before = collected(s, n - 1);
        assert forall|i: int| 0 <= i < s.len() implies (#[trigger] collected(s, n)[i]).alive
            == s[i].alive && collected(s, n)[i].generation == s[i].generation by {
            assert(before[i].alive == s[i].alive);
        }
    }
}

impl ItemCollectionSystem {
    /// Carries out every wish to pick an item up, in slot order, and notes
    /// in the log what `player` picked up.  Then no such wish is left.
    pub fn run(&mut self, store: &mut EntityStore, log: &mut GameLog, player: Entity)
        ensures
            final(store).slots() == without_pickups(
                collected(old(store).slots(), old(store).slots().len() as int),
            ),
            final(log).lines() == pickup_lines(
                old(store).slots(),
                player,
                old(store).slots().len() as int,
            ) + old(log).lines(),
            old(store).same_entities(final(store)),
    {
        let ghost s0 = store.slots();
        let ghost l0 = log.lines();
        let n: usize = store.len();
        let mut i: usize = 0;
        assert(log.lines() =~= Seq::<Seq<char>>::empty() + l0);
        while i < n
            invariant
                i <= n,
                n == s0.len(),
                store.slots() == collected(s0, i as int),
                log.lines() == pickup_lines(s0, player, i as int) + l0,
            decreases n - i,
        {
            proof {
                lemma_collected_cast(s0, i as int);
            }
            let wish = if store.slots[i].alive {
                store.slots[i].components.wants_to_pickup
            } else {
                None
            };
            match wish {
                Some(pickup) => {
                    if store.is_alive(pickup.item) {
                        if pickup.collected_by == player {
                            let name = store.label(pickup.item);
                            log.add(pickup_message(name.as_str()));
                        }
                        store.slots[pickup.item.index].components.position = None;
                        store.slots[pickup.item.index].components.in_backpack = Some(
                            InBackpack { owner: pickup.collected_by },
                        );
                        assert(store.slots() =~= collected(s0, i + 1));
                    }
                },
                None => {},
            }
            assert(log.lines() =~= pickup_lines(s0, player, i + 1) + l0);
            i = i + 1;
        }
        let ghost s1 = store.slots();
        proof {
            lemma_collected_cast(s0, n as int);
        }
        let mut j: usize = 0;
        while j < n
            invariant
                j <= n,
                n == s1.len(),
                store.slots().len() == n,
                forall|k: int|
                    0 <= k < n ==> #[trigger] store.slots()[k] == if k < j {
                        without_pickups(s1)[k]
                    } else {
                        s1[k]
                    },
            decreases n - j,
        {
            if store.slots[j].alive {
                store.slots[j].components.wants_to_pickup = None;
            }
            j = j + 1;
        }
        assert(store.slots() =~= without_pickups(s1));
        proof {
            assert forall|k: int| 0 <= k < n implies (#[trigger] store.slots()[k]).alive
                == s0[k].alive && store.slots()[k].generation == s0[k].generation by {
                assert(s1[k].alive == s0[k].alive);
            }
        }
    }
}

/// The wish to put an item down that the entity in slot `i` has, if it
/// lives and has one.
pub open spec fn drop_at(s: Seq<Slot>, i: int) -> Option<WantsToDropItem> {
    if s[i].alive {
        s[i].components.wants_to_drop
    } else {
        None
    }
}

/// Whether the wish of slot `i` to put `item` down takes effect: the
/// dropper stands somewhere and the item lives.
pub open spec fn drops(s: Seq<Slot>, i: int, item: Entity) -> bool {
    s[i].components.position.is_some() && live(s, item)
}

/// `s` after the wishes of the first `n` slots to put an item down have
/// been carried out in turn: each item that lives lies where its dropper
/// stands and is in no backpack.
pub open spec fn dropped(s: Seq<Slot>, n: int) -> Seq<Slot>
    decreases n,
{
    if n <= 0 {
        s
    } else {
        let before = dropped(s, n - 1);
        match drop_at(before, n - 1) {
            Some(wish) => if drops(before, n - 1, wish.item) {
                with_components(
                    before,
                    wish.item.index as int,
                    Components {
                        position: before[n - 1].components.position,
                        in_backpack: None,
                        ..before[wish.item.index as int].components
                    },
                )
            } else {
                before
            },
            None => before,
        }
    }
}

/// The messages for the drops of the first `n` slots, newest first: one for
/// each item that `player` put down.
pub open spec fn drop_lines(s: Seq<Slot>, player: Entity, n: int) -> Seq<Seq<char>>
    decreases n,
{
    if n <= 0 {
        Seq::empty()
    } else {
        let before = dropped(s, n - 1);
        (match drop_at(before, n - 1) {
            Some(wish) => if drops(before, n - 1, wish.item) && handle_in(before, n - 1)
                == player {
                seq![drop_text(label_in(before, wish.item))]
            } else {
                Seq::empty()
            },
            None => Seq::empty(),
        }) + drop_lines(s, player, n - 1)
    }
}

/// `s` with no wish to put an item down left.
pub open spec fn without_drops(s: Seq<Slot>) -> Seq<Slot> {
    Seq::new(
        s.len(),
        |j: int|
            if s[j].alive {
                Slot { components: Components { wants_to_drop: None, ..s[j].components }, ..s[j] }
            } else {
                s[j]
            },
    )
}

/// Dropping keeps every entity in its slot.
pub proof fn lemma_dropped_cast(s: Seq<Slot>, n: int)
    ensures
        same_cast(s, dropped(s, n)),
    decreases n,
{
    if n > 0 {
        lemma_dropped_cast(s, n - 1);
        let before = dropped(s, n - 1);
        assert forall|i: int| 0 <= i < s.len() implies (#[trigger] dropped(s, n)[i]).alive
            == s[i].alive && dropped(s, n)[i].generation == s[i].generation by {
            assert(before[i].alive == s[i].alive);
        }
    }
}

impl ItemDropSystem {
    /// Carries out every wish to put an item down, in slot order, and
    /// notes in the log what `player` put down.  Then no such wish is
    /// left.
    pub fn run(&mut self, store: &mut EntityStore, log: &mut GameLog, player: Entity)
        ensures
            final(store).slots() == without_drops(
                dropped(old(store).slots(), old(store).slots().len() as int),
            ),
            final(log).lines() == drop_lines(
                old(store).slots(),
                player,
                old(store).slots().len() as int,
            ) + old(log).lines(),
            old(store).same_entities(final(store)),
    {
        let ghost s0 = store.slots();
        let ghost l0 = log.lines();
        let n: usize = store.len();
        let mut i: usize = 0;
        assert(log.lines() =~= Seq::<Seq<char>>::empty() + l0);
        while i < n
            invariant
                i <= n,
                n == s0.len(),
                store.slots() == dropped(s0, i as int),
                log.lines() == drop_lines(s0, player, i as int) + l0,
            decreases n - i,
        {
            proof {
                lemma_dropped_cast(s0, i as int);
            }
            let wish = if store.slots[i].alive {
                store.slots[i].components.wants_to_drop
            } else {
                None
            };
            match wish {
                Some(to_drop) => {
                    let position = store.slots[i].components.position;
                    if position.is_some() && store.is_alive(to_drop.item) {
                        let dropper = Entity { index: i, generation: store.slots[i].generation };
                        if dropper == player {
                            let name = store.label(to_drop.item);
                            log.add(drop_message(name.as_str()));
                        }
                        store.slots[to_drop.item.index].components.position = position;
                        store.slots[to_drop.item.index].components.in_backpack = None;
                        assert(store.slots() =~= dropped(s0, i + 1));
                    }
                },
                None => {},
            }
            assert(log.lines() =~= drop_lines(s0, player, i + 1) + l0);
            i = i + 1;
        }
        let ghost s1 = store.slots();
        proof {
            lemma_dropped_cast(s0, n as int);
        }
        let mut j: usize = 0;
        while j < n
            invariant
                j <= n,
                n == s1.len(),
                store.slots().len() == n,
                forall|k: int|
                    0 <= k < n ==> #[trigger] store.slots()[k] == if k < j {
                        without_drops(s1)[k]
                    } else {
                        s1[k]
                    },
            decreases n - j,
        {
            if store.slots[j].alive {
                store.slots[j].components.wants_to_drop = None;
            }
            j = j + 1;
        }
        assert(store.slots() =~= without_drops(s1));
        proof {
            assert forall|k: int| 0 <= k < n implies (#[trigger] store.slots()[k]).alive
                == s0[k].alive && store.slots()[k].generation == s0[k].generation by {
                assert(s1[k].alive == s0[k].alive);
            }
        }
    }
}

} // verus!
