//! The entity store: it hands out handles and keeps the components of every
//! live entity.

use vstd::prelude::*;
use crate::components::Components;
use crate::text::{nameless, nameless_name};
use vstd::string::*;

verus! {

/// A handle to an entity: the slot it lives in and the generation of that
/// slot at the time the entity was made.  A handle is only as good as the
/// store says: see [`EntityStore::alive`].
#[derive(Clone, Copy, PartialEq, Eq, Structural, Debug, Hash)]
pub struct Entity {
    pub index: usize,
    pub generation: u64,
}

/// One place in the store.  It holds at most one entity at a time, and each
/// entity that has lived in it had a generation of its own.
pub struct Slot {
    pub generation: u64,
    pub alive: bool,
    pub components: Components,
}

impl Slot {
    /// Whether a new entity can move into this slot: nobody lives in it and
    /// a generation is left for the newcomer.
    pub open spec fn reusable(self) -> bool {
        !self.alive && self.generation < u64::MAX
    }
}

/// The store.  Slots are never taken away, so an index that was once in
/// range stays in range; the systems visit the slots in index order.
pub struct EntityStore {
    pub(crate) slots: Vec<Slot>,
}

/// The first index from `from` on whose slot is reusable, or the length of
/// `slots` where there is none.
pub open spec fn first_reusable(slots: Seq<Slot>, from: int) -> int
    decreases slots.len() - from,
{
    if from < 0 || from >= slots.len() {
        slots.len() as int
    } else if slots[from].reusable() {
        from
    } else {
        first_reusable(slots, from + 1)
    }
}

/// Whether `e` names an entity that lives in `slots`.
pub open spec fn live(slots: Seq<Slot>, e: Entity) -> bool {
    &&& e.index < slots.len()
    &&& slots[e.index as int].alive
    &&& slots[e.index as int].generation == e.generation
}

/// What `e` carries in `slots`, and nothing where it does not live there.
pub open spec fn carried_in(slots: Seq<Slot>, e: Entity) -> Components {
    if live(slots, e) {
        slots[e.index as int].components
    } else {
        Components::none()
    }
}

/// The name of `e` in `slots`, or the stand-in where it has none or does not
/// live there.
pub open spec fn label_in(slots: Seq<Slot>, e: Entity) -> Seq<char> {
    carried_in(slots, e).name_or(nameless())
}

/// The handle of the entity in slot `i` of `slots`; meaningful where that
/// slot is alive.
pub open spec fn handle_in(slots: Seq<Slot>, i: int) -> Entity {
    Entity { index: i as usize, generation: slots[i].generation }
}

/// `slots` without the entities among `gone`.
pub open spec fn purged(slots: Seq<Slot>, gone: Seq<Entity>) -> Seq<Slot> {
    Seq::new(
        slots.len(),
        |j: int|
            if slots[j].alive && gone.contains(handle_in(slots, j)) {
                Slot { generation: slots[j].generation, alive: false, components: Components::none() }
            } else {
                slots[j]
            },
    )
}

/// Whether `b` holds the same entities as `a`, in the same slots; what they
/// carry may differ.
pub open spec fn same_cast(a: Seq<Slot>, b: Seq<Slot>) -> bool {
    &&& a.len() == b.len()
    &&& forall|i: int|
        0 <= i < a.len() ==> (#[trigger] b[i]).alive == a[i].alive && b[i].generation
            == a[i].generation
}

/// `slots` with the bundle of slot `i` replaced by `c`.
pub open spec fn with_components(slots: Seq<Slot>, i: int, c: Components) -> Seq<Slot> {
    slots.update(i, Slot { components: c, ..slots[i] })
}

impl EntityStore {
    /// The slots, in index order.
    pub open(crate) spec fn slots(&self) -> Seq<Slot> {
        self.slots@
    }

    /// Whether `e` names an entity that lives now.
    pub open spec fn alive(&self, e: Entity) -> bool {
        live(self.slots(), e)
    }

    /// Whether `e` has been handed out at some time, alive now or not.
    pub open spec fn issued(&self, e: Entity) -> bool {
        e.index < self.slots().len() && e.generation <= self.slots()[e.index as int].generation
    }

    /// What `e` carries; meaningful where `e` is alive.
    pub open spec fn carried(&self, e: Entity) -> Components {
        self.slots()[e.index as int].components
    }

    /// The handle of the entity in slot `i`; meaningful where that slot is
    /// alive.
    pub open spec fn handle(&self, i: int) -> Entity {
        handle_in(self.slots(), i)
    }

    /// The name of `e`, or the stand-in where it has none or does not live.
    pub fn label(&self, e: Entity) -> (r: String)
        ensures
            r@ == label_in(self.slots(), e),
    {
        if self.is_alive(e) {
            match &self.slots[e.index].components.name {
                Some(n) => n.name.clone(),
                None => String::from_str(nameless_name()),
            }
        } else {
            String::from_str(nameless_name())
        }
    }

    /// The live entities with what they carry.
    pub open spec fn view(&self) -> Map<Entity, Components> {
        Map::new(|e: Entity| self.alive(e), |e: Entity| self.carried(e))
    }

    /// Whether `next` holds the same entities in the same slots as this
    /// store; what they carry may differ.
    pub open spec fn same_entities(&self, next: &EntityStore) -> bool {
        same_cast(self.slots(), next.slots())
    }

    /// Whether `next` can come after this store: no slot is lost, no
    /// generation goes back, and no slot comes to life again under the
    /// generation it died with.  Every operation of the store and every
    /// system keeps to this, so a handle that has died stays dead.
    pub open spec fn succeeded_by(&self, next: &EntityStore) -> bool {
        &&& self.slots().len() <= next.slots().len()
        &&& forall|i: int|
            0 <= i < self.slots().len() ==> self.slots()[i].generation <= (
            #[trigger] next.slots()[i]).generation && (next.slots()[i].generation
                == self.slots()[i].generation && next.slots()[i].alive ==> self.slots()[i].alive)
    }

    /// A handle that has died stays dead: where `next` can come after
    /// this store, and `e` has been handed out by this store and does not
    /// live in it, `e` does not live in `next` either.
    pub proof fn lemma_dead_stays_dead(&self, next: &EntityStore, e: Entity)
        requires
            self.succeeded_by(next),
            self.issued(e),
            !self.alive(e),
        ensures
            next.issued(e),
            !next.alive(e),
    {
    }

    /// A store with the same entities can come after this store.
    pub proof fn lemma_same_entities_succeed(&self, next: &EntityStore)
        requires
            self.same_entities(next),
        ensures
            self.succeeded_by(next),
    {
    }

    /// What can come after what can come after this store can come after
    /// this store.
    pub proof fn lemma_succession(&self, then: &EntityStore, last: &EntityStore)
        requires
            self.succeeded_by(then),
            then.succeeded_by(last),
        ensures
            self.succeeded_by(last),
    {
        assert forall|i: int| 0 <= i < self.slots().len() implies self.slots()[i].generation <= (
        #[trigger] last.slots()[i]).generation && (last.slots()[i].generation
            == self.slots()[i].generation && last.slots()[i].alive ==> self.slots()[i].alive) by {
            assert(then.slots()[i].generation <= last.slots()[i].generation);
        }
    }

    /// A store without entities.
    pub fn new() -> (s: EntityStore)
        ensures
            s.slots().len() == 0,
            s@ == Map::<Entity, Components>::empty(),
    {
        let s = EntityStore { slots: Vec::new() };
        assert(s@ =~= Map::<Entity, Components>::empty());
        s
    }

    /// The number of slots, live or not.
    pub fn len(&self) -> (n: usize)
        ensures
            n == self.slots().len(),
    {
        self.slots.len()
    }

    /// Whether `e` names an entity that lives now.
    pub fn is_alive(&self, e: Entity) -> (r: bool)
        ensures
            r == self.alive(e),
    {
        e.index < self.slots.len() && self.slots[e.index].alive && self.slots[e.index].generation
            == e.generation
    }

    /// The entity that lives in slot `i`, if one does.
    pub fn entity_at(&self, i: usize) -> (r: Option<Entity>)
        ensures
            r == if i < self.slots().len() && self.slots()[i as int].alive {
                Some(self.handle(i as int))
            } else {
                None
            },
    {
        if i < self.slots.len() && self.slots[i].alive {
            Some(Entity { index: i, generation: self.slots[i].generation })
        } else {
            None
        }
    }

    /// What `e` carries, or nothing where `e` does not live.
    pub fn get(&self, e: Entity) -> (r: Option<&Components>)
        ensures
            r == if self.alive(e) {
                Some(&self.carried(e))
            } else {
                None
            },
    {
        if self.is_alive(e) {
            Some(&self.slots[e.index].components)
        } else {
            None
        }
    }

    /// Makes a new entity that carries `components`.  It moves into the
    /// first reusable slot, under the next generation of that slot, or into
    /// a new slot at the end where no slot can be reused.  Its handle has
    /// never been handed out before.
    pub fn spawn(&mut self, components: Components) -> (e: Entity)
        ensures
            e.index == first_reusable(old(self).slots(), 0),
            e.generation == if e.index < old(self).slots().len() {
                old(self).slots()[e.index as int].generation + 1
            } else {
                0
            },
            final(self).slots() == if e.index < old(self).slots().len() {
                old(self).slots().update(
                    e.index as int,
                    Slot { generation: e.generation, alive: true, components },
                )
            } else {
                old(self).slots().push(Slot { generation: 0, alive: true, components })
            },
            !old(self).issued(e),
            final(self)@ == old(self)@.insert(e, components),
            old(self).succeeded_by(final(self)),
    {
        let n: usize = self.slots.len();
        let mut i: usize = 0;
        while i < n && !(!self.slots[i].alive && self.slots[i].generation < u64::MAX)
            invariant
                n == self.slots@.len(),
                i <= n,
                self.slots@ == old(self).slots@,
                first_reusable(self.slots@, 0) == first_reusable(self.slots@, i as int),
            decreases n - i,
        {
            i = i + 1;
        }
        let e = if i < n {
            let generation: u64 = self.slots[i].generation + 1;
            self.slots[i] = Slot { generation, alive: true, components };
            Entity { index: i, generation }
        } else {
            self.slots.push(Slot { generation: 0, alive: true, components });
            Entity { index: n, generation: 0 }
        };
        assert(self@ =~= old(self)@.insert(e, components));
        e
    }

    /// Removes `e` with everything it carries, and says whether it lived.
    /// Its handle is dead from now on.
    pub fn delete(&mut self, e: Entity) -> (r: bool)
        ensures
            r == old(self).alive(e),
            final(self).slots() == if r {
                old(self).slots().update(
                    e.index as int,
                    Slot { generation: e.generation, alive: false, components: Components::none() },
                )
            } else {
                old(self).slots()
            },
            final(self)@ == old(self)@.remove(e),
            old(self).succeeded_by(final(self)),
    {
        if self.is_alive(e) {
            self.slots[e.index] = Slot {
                generation: e.generation,
                alive: false,
                components: Components::new(),
            };
            assert(self@ =~= old(self)@.remove(e));
            true
        } else {
            assert(self@ =~= old(self)@.remove(e));
            false
        }
    }

    /// Removes each of `gone` that lives.
    pub fn delete_all(&mut self, gone: &Vec<Entity>)
        ensures
            final(self).slots() == purged(old(self).slots(), gone@),
            old(self).succeeded_by(final(self)),
    {
        let ghost s0 = self.slots();
        let n: usize = self.slots.len();
        let mut k: usize = 0;
        assert(self.slots() =~= purged(s0, gone@.take(0)));
        while k < gone.len()
            invariant
                k <= gone@.len(),
                n == s0.len(),
                s0 == old(self).slots(),
                self.slots() == purged(s0, gone@.take(k as int)),
            decreases gone@.len() - k,
        {
            let e = gone[k];
            let ghost done = gone@.take(k as int);
            let ghost next = gone@.take(k + 1);
            proof {
                assert forall|x: Entity| next.contains(x) <==> (done.contains(x) || x == e) by {
                    if done.contains(x) {
                        let w = choose|w: int| 0 <= w < done.len() && done[w] == x;
                        assert(next[w] == x);
                    }
                    if x == e {
                        assert(next[k as int] == x);
                    }
                    if next.contains(x) {
                        let w = choose|w: int| 0 <= w < next.len() && next[w] == x;
                        if w < k {
                            assert(done[w] == x);
                        }
                    }
                }
            }
            let ghost cur = self.slots();
            self.delete(e);
            proof {
                assert forall|j: int| 0 <= j < s0.len() implies #[trigger] self.slots()[j]
                    == purged(s0, next)[j] by {
                    let h = handle_in(s0, j);
                    assert(cur[j] == purged(s0, done)[j]);
                    assert(next.contains(h) <==> (done.contains(h) || h == e));
                    assert(h == e <==> (j == e.index && s0[j].generation == e.generation));
                    if live(cur, e) {
                        assert(cur == purged(s0, done));
                        assert(cur[e.index as int] == purged(s0, done)[e.index as int]);
                        assert(self.slots()[j] == if j == e.index {
                            Slot {
                                generation: e.generation,
                                alive: false,
                                components: Components::none(),
                            }
                        } else {
                            cur[j]
                        });
                    } else {
                        assert(self.slots()[j] == cur[j]);
                    }
                }
                assert(self.slots() =~= purged(s0, next));
            }
            k = k + 1;
        }
        assert(gone@.take(gone@.len() as int) =~= gone@);
    }

    /// Gives `e` the bundle `components` in place of what it carried, and
    /// hands back the old bundle.  Where `e` does not live nothing changes
    /// and `components` comes back.
    pub fn replace(&mut self, e: Entity, components: Components) -> (r: Components)
        ensures
            r == if old(self).alive(e) {
                old(self).carried(e)
            } else {
                components
            },
            final(self).slots() == if old(self).alive(e) {
                old(self).slots().update(
                    e.index as int,
                    Slot { generation: e.generation, alive: true, components },
                )
            } else {
                old(self).slots()
            },
            final(self)@ == if old(self).alive(e) {
                old(self)@.insert(e, components)
            } else {
                old(self)@
            },
            old(self).same_entities(final(self)),
    {
        if self.is_alive(e) {
            let mut c = components;
            core::mem::swap(&mut self.slots[e.index].components, &mut c);
            assert(self@ =~= old(self)@.insert(e, components));
            c
        } else {
            assert(self@ =~= old(self)@);
            components
        }
    }
}

} // verus!
