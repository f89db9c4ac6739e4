//! Computes anew what each actor sees, and remembers on the map what has
//! been seen.

use vstd::prelude::*;
use crate::components::{Components, Viewshed};
use crate::coord::Coord;
use crate::map::{in_sight_range, GameMap, MapView};
use crate::store::{EntityStore, Slot};

verus! {

/// The pass that refreshes the viewsheds.
pub struct VisibilitySystem {}

/// The place from which the entity in slot `i` looks anew, and how far: it
/// lives, its viewshed is dirty, it stands on the map, and its range is one
/// that a field of view is computed for.
pub open spec fn looks(s: Seq<Slot>, v: MapView, i: int) -> Option<(Coord, int)> {
    match (s[i].components.viewshed, s[i].components.position) {
        (Some(viewshed), Some(p)) => if s[i].alive && viewshed.dirty && v.contains(
            p.x as int,
            p.y as int,
        ) && in_sight_range(viewshed.range as int) {
            Some((Coord { x: p.x, y: p.y }, viewshed.range as int))
        } else {
            None
        },
        _ => None,
    }
}

/// Whether the slot `b` is the slot `a` with `seen` in view and a viewshed
/// that is clean.
pub open spec fn sees(a: Slot, b: Slot, seen: Seq<Coord>) -> bool {
    &&& b.alive == a.alive
    &&& b.generation == a.generation
    &&& b.components == (Components { viewshed: b.components.viewshed, ..a.components })
    &&& a.components.viewshed.is_some()
    &&& b.components.viewshed.is_some()
    &&& b.components.viewshed.unwrap().visible_tiles@ == seen
    &&& b.components.viewshed.unwrap().range == a.components.viewshed.unwrap().range
    &&& !b.components.viewshed.unwrap().dirty
}

/// The map after the first `n` of `cells` that lie on it have been marked
/// as seen once, and as in view now where `in_view` holds.
pub open spec fn marked(v: MapView, cells: Seq<Coord>, n: int, in_view: bool) -> MapView
    decreases n,
{
    if n <= 0 {
        v
    } else {
        let before = marked(v, cells, n - 1, in_view);
        let c = cells[n - 1];
        if v.contains(c.x as int, c.y as int) {
            MapView {
                revealed: before.revealed.update(v.index(c.x as int, c.y as int), true),
                visible: if in_view {
                    before.visible.update(v.index(c.x as int, c.y as int), true)
                } else {
                    before.visible
                },
                ..before
            }
        } else {
            before
        }
    }
}

/// The map after an entity has seen `cells`: they are marked as seen once;
/// where the entity is the player, they are the cells in view now.
pub open spec fn noted(v: MapView, cells: Seq<Coord>, by_player: bool) -> MapView {
    if by_player {
        marked(
            MapView { visible: Seq::new(v.visible.len(), |i: int| false), ..v },
            cells,
            cells.len() as int,
            true,
        )
    } else {
        marked(v, cells, cells.len() as int, false)
    }
}

/// The map after the entities of the first `n` slots that look anew have
/// looked.
pub open spec fn sighted(v: MapView, s: Seq<Slot>, n: int) -> MapView
    decreases n,
{
    if n <= 0 {
        v
    } else {
        let before = sighted(v, s, n - 1);
        match looks(s, v, n - 1) {
            Some((from, range)) => noted(
                before,
                v.in_view(from, range),
                s[n - 1].components.player.is_some(),
            ),
            None => before,
        }
    }
}

/// Whether `b` is `a` after every entity whose viewshed was dirty has
/// looked anew on the map `v`.
pub open spec fn looked(a: Seq<Slot>, v: MapView, b: Seq<Slot>) -> bool {
    &&& b.len() == a.len()
    &&& forall|i: int|
        0 <= i < a.len() ==> match looks(a, v, i) {
            Some((from, range)) => sees(a[i], #[trigger] b[i], v.in_view(from, range)),
            None => b[i] == a[i],
        }
}

/// Marking cells changes only what the map says of seeing.
pub proof fn lemma_marked_frame(v: MapView, cells: Seq<Coord>, n: int, in_view: bool)
    ensures
        marked(v, cells, n, in_view) == (MapView {
            revealed: marked(v, cells, n, in_view).revealed,
            visible: marked(v, cells, n, in_view).visible,
            ..v
        }),
    decreases n,
{
    if n > 0 {
        lemma_marked_frame(v, cells, n - 1, in_view);
    }
}

/// Looking changes only what the map says of seeing.
pub proof fn lemma_sighted_frame(v: MapView, s: Seq<Slot>, n: int)
    ensures
        sighted(v, s, n) == (MapView {
            revealed: sighted(v, s, n).revealed,
            visible: sighted(v, s, n).visible,
            ..v
        }),
    decreases n,
{
    if n > 0 {
        lemma_sighted_frame(v, s, n - 1);
        let before = sighted(v, s, n - 1);
        match looks(s, v, n - 1) {
            Some((from, range)) => {
                let cells = v.in_view(from, range);
                if s[n - 1].components.player.is_some() {
                    lemma_marked_frame(
                        MapView { visible: Seq::new(before.visible.len(), |i: int| false), ..before },
                        cells,
                        cells.len() as int,
                        true,
                    );
                } else {
                    lemma_marked_frame(before, cells, cells.len() as int, false);
                }
            },
            None => {},
        }
    }
}

/// After the pass no viewshed that was looked through anew is dirty, so a
/// second pass over the same world looks through none of them again.
pub proof fn lemma_looked_is_clean(a: Seq<Slot>, v: MapView, b: Seq<Slot>, w: MapView, i: int)
    requires
        looked(a, v, b),
        0 <= i < a.len(),
        looks(a, v, i).is_some(),
    ensures
        looks(b, w, i).is_none(),
{
    assert(sees(a[i], b[i], v.in_view(looks(a, v, i).unwrap().0, looks(a, v, i).unwrap().1)));
}

/// What is in view depends on the walls alone: on two maps of the same size
/// with the same tiles, the same cells are in view from the same place
/// within the same range, whatever else the maps hold.
pub proof fn lemma_view_depends_on_walls(a: MapView, b: MapView, from: Coord, range: int)
    requires
        a.width == b.width,
        a.height == b.height,
        a.tiles == b.tiles,
    ensures
        a.in_view(from, range) == b.in_view(from, range),
{
}

impl VisibilitySystem {
    /// Whether `cell` is among the cells that `viewshed` holds.
    pub fn in_sight(viewshed: &Viewshed, cell: Coord) -> (r: bool)
        ensures
            r == viewshed.visible_tiles@.contains(cell),
    {
        let mut k: usize = 0;
        while k < viewshed.visible_tiles.len()
            invariant
                k <= viewshed.visible_tiles@.len(),
                forall|j: int| 0 <= j < k ==> viewshed.visible_tiles@[j] != cell,
            decreases viewshed.visible_tiles@.len() - k,
        {
            if viewshed.visible_tiles[k] == cell {
                return true;
            }
            k = k + 1;
        }
        false
    }

    /// Gives the entity in slot `i` the cells `seen` as what it sees, and
    /// notes them on the map.  Nothing happens where the slot is out of
    /// range or dead or has no viewshed.
    pub fn see(store: &mut EntityStore, map: &mut GameMap, i: usize, seen: Vec<Coord>)
        ensures
            old(store).same_entities(final(store)),
            forall|j: int|
                0 <= j < old(store).slots().len() && j != i ==> final(store).slots()[j] == old(
                    store,
                ).slots()[j],
            i < old(store).slots().len() ==> if old(store).slots()[i as int].alive && old(
                store,
            ).slots()[i as int].components.viewshed.is_some() {
                &&& sees(old(store).slots()[i as int], final(store).slots()[i as int], seen@)
                &&& final(map)@ == noted(
                    old(map)@,
                    seen@,
                    old(store).slots()[i as int].components.player.is_some(),
                )
            } else {
                final(store).slots()[i as int] == old(store).slots()[i as int] && final(map)@
                    == old(map)@
            },
            i >= old(store).slots().len() ==> final(map)@ == old(map)@,
    {
        if i >= store.slots.len() || !store.slots[i].alive {
            return ;
        }
        let range = match &store.slots[i].components.viewshed {
            Some(viewshed) => viewshed.range,
            None => {
                return ;
            },
        };
        let by_player = store.slots[i].components.player.is_some();
        let ghost v = map@;
        if by_player {
            map.hide_all();
        }
        let ghost base = map@;
        let mut k: usize = 0;
        while k < seen.len()
            invariant
                k <= seen@.len(),
                base.width == v.width,
                base.height == v.height,
                map@ == marked(base, seen@, k as int, by_player),
            decreases seen@.len() - k,
        {
            proof {
                lemma_marked_frame(base, seen@, k as int, by_player);
            }
            let c = seen[k];
            if map.in_bounds(c.x, c.y) {
                let idx = map.xy_to_idx(c.x, c.y);
                if by_player {
                    map.show(idx);
                } else {
                    map.mark_revealed(idx);
                }
            }
            k = k + 1;
        }
        store.slots[i].components.viewshed = Some(
            Viewshed { visible_tiles: seen, range, dirty: false },
        );
    }

    /// Lets every entity whose viewshed is dirty look anew, in slot order:
    /// it sees the cells in view from where it stands, within its range,
    /// and its viewshed is clean.  What it sees is marked on the map as
    /// seen once; what the player sees is what the map shows as in view
    /// now.  An entity that stands off the map, or whose range no field of
    /// view is computed for, is left as it is.
    pub fn run(&mut self, store: &mut EntityStore, map: &mut GameMap)
        ensures
            old(store).same_entities(final(store)),
            looked(old(store).slots(), old(map)@, final(store).slots()),
            final(map)@ == sighted(old(map)@, old(store).slots(), old(store).slots().len() as int),
    {
        let ghost s0 = store.slots();
        let ghost v = map@;
        let n: usize = store.len();
        let mut i: usize = 0;
        while i < n
            invariant
                i <= n,
                n == s0.len(),
                store.slots().len() == n,
                forall|j: int|
                    0 <= j < n ==> (#[trigger] store.slots()[j]).alive == s0[j].alive
                        && store.slots()[j].generation == s0[j].generation,
                forall|j: int|
                    0 <= j < n ==> if j < i {
                        match looks(s0, v, j) {
                            Some((from, range)) => sees(
                                s0[j],
                                #[trigger] store.slots()[j],
                                v.in_view(from, range),
                            ),
                            None => store.slots()[j] == s0[j],
                        }
                    } else {
                        store.slots()[j] == s0[j]
                    },
                map@ == sighted(v, s0, i as int),
            decreases n - i,
        {
            proof {
                lemma_sighted_frame(v, s0, i as int);
            }
            let ghost before = store.slots();
            let look = if store.slots[i].alive {
                match (&store.slots[i].components.viewshed, store.slots[i].components.position) {
                    (Some(viewshed), Some(p)) => if viewshed.dirty {
                        Some((Coord { x: p.x, y: p.y }, viewshed.range))
                    } else {
                        None
                    },
                    _ => None,
                }
            } else {
                None
            };
            match look {
                Some((from, range)) => {
                    match map.field_of_view(from, range) {
                        Some(seen) => {
                            assert(map@.in_view(from, range as int) == v.in_view(
                                from,
                                range as int,
                            ));
                            Self::see(store, map, i, seen);
                        },
                        None => {},
                    }
                },
                None => {},
            }
            proof {
                assert forall|j: int| 0 <= j < n implies if j < i + 1 {
                    match looks(s0, v, j) {
                        Some((from, range)) => sees(
                            s0[j],
                            #[trigger] store.slots()[j],
                            v.in_view(from, range),
                        ),
                        None => store.slots()[j] == s0[j],
                    }
                } else {
                    store.slots()[j] == s0[j]
                } by {
                    if j != i {
                        assert(store.slots()[j] == before[j]);
                    }
                }
            }
            i = i + 1;
        }
    }
}

} // verus!
