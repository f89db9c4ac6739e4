//! Notes on the map who stands where, and which cells are closed to
//! movement.

use vstd::prelude::*;
use crate::map::{GameMap, MapView};
use crate::store::{handle_in, Entity, EntityStore, Slot};

verus! {

/// The pass that indexes the map.
pub struct MapIndexingSystem {}

/// The index of the cell on which the entity in slot `i` stands, if it
/// lives and stands on the map.
pub open spec fn standing(s: Seq<Slot>, v: MapView, i: int) -> Option<int> {
    match s[i].components.position {
        Some(p) => if s[i].alive && v.contains(p.x as int, p.y as int) {
            Some(v.index(p.x as int, p.y as int))
        } else {
            None
        },
        None => None,
    }
}

/// The map with nobody on it and every wall, and nothing else, closed to
/// movement.
pub open spec fn swept(v: MapView) -> MapView {
    MapView {
        blocked: v.opacity(),
        content: Seq::new(v.content.len(), |i: int| Seq::empty()),
        ..v
    }
}

/// The swept map after the entities of the first `n` slots have been noted:
/// each stands on its cell, after those of the slots before it, and closes
/// the cell where it blocks.
pub open spec fn indexed(v: MapView, s: Seq<Slot>, n: int) -> MapView
    decreases n,
{
    if n <= 0 {
        swept(v)
    } else {
        let before = indexed(v, s, n - 1);
        match standing(s, v, n - 1) {
            Some(idx) => MapView {
                blocked: if s[n - 1].components.blocks_tile.is_some() {
                    before.blocked.update(idx, true)
                } else {
                    before.blocked
                },
                content: before.content.update(idx, before.content[idx].push(handle_in(s, n - 1))),
                ..before
            },
            None => before,
        }
    }
}

/// Indexing leaves the size of the map as it is.
pub proof fn lemma_indexed_size(v: MapView, s: Seq<Slot>, n: int)
    ensures
        indexed(v, s, n).width == v.width,
        indexed(v, s, n).height == v.height,
    decreases n,
{
    if n > 0 {
        lemma_indexed_size(v, s, n - 1);
    }
}

/// Whether the entity in slot `i` stands on the cell `idx` and closes it.
pub open spec fn blocks_at(s: Seq<Slot>, v: MapView, idx: int, i: int) -> bool {
    standing(s, v, i) == Some(idx) && s[i].components.blocks_tile.is_some()
}

/// After indexing, a cell is closed to movement exactly where it is a wall
/// or an entity that blocks stands on it, and the entities noted on a cell
/// are exactly those that stand on it.
pub proof fn lemma_indexed_cells(v: MapView, s: Seq<Slot>, n: int, idx: int)
    requires
        v.valid(),
        0 <= n <= s.len(),
        0 <= idx < v.area(),
    ensures
        indexed(v, s, n).blocked.len() == v.area(),
        indexed(v, s, n).content.len() == v.area(),
        indexed(v, s, n).blocked[idx] <==> (v.tiles[idx] == crate::map::TileType::Wall || exists|
            i: int,
        | 0 <= i < n && #[trigger] blocks_at(s, v, idx, i)),
        forall|e: Entity|
            indexed(v, s, n).content[idx].contains(e) <==> exists|i: int|
                0 <= i < n && #[trigger] standing(s, v, i) == Some(idx) && e == handle_in(s, i),
    decreases n,
{
    if n <= 0 {
        assert(swept(v).content[idx] == Seq::<Entity>::empty());
        assert forall|e: Entity| !swept(v).content[idx].contains(e) by {}
    } else {
        lemma_indexed_cells(v, s, n - 1, idx);
        lemma_indexed_size(v, s, n - 1);
        let before = indexed(v, s, n - 1);
        let after = indexed(v, s, n);
        match standing(s, v, n - 1) {
            Some(at) => {
                let p = s[n - 1].components.position.unwrap();
                crate::map::lemma_index_in_area(v.width, v.height, p.x as int, p.y as int);
                lemma_indexed_cells(v, s, n - 1, at);
                let who = handle_in(s, n - 1);
                if blocks_at(s, v, idx, n - 1) {
                    assert(after.blocked[idx]);
                }
                assert forall|e: Entity| after.content[idx].contains(e) <==> exists|i: int|
                    0 <= i < n && #[trigger] standing(s, v, i) == Some(idx) && e == handle_in(
                        s,
                        i,
                    ) by {
                    if at == idx {
                        let old_list = before.content[idx];
                        let new_list = after.content[idx];
                        assert(new_list == old_list.push(who));
                        if new_list.contains(e) {
                            let k = choose|k: int| 0 <= k < new_list.len() && new_list[k] == e;
                            if k < old_list.len() {
                                assert(old_list[k] == e);
                                assert(old_list.contains(e));
                            } else {
                                assert(standing(s, v, n - 1) == Some(idx) && e == who);
                            }
                        }
                        if old_list.contains(e) {
                            let k = choose|k: int| 0 <= k < old_list.len() && old_list[k] == e;
                            assert(new_list[k] == e);
                        }
                        if e == who {
                            assert(new_list[old_list.len() as int] == e);
                        }
                    }
                }
            },
            None => {},
        }
    }
}

impl MapIndexingSystem {
    /// Forgets what the map said of movement and of who stands where, and
    /// notes it anew from the store, in slot order.  An entity that stands
    /// off the map is not noted.
    pub fn run(&mut self, store: &EntityStore, map: &mut GameMap)
        ensures
            final(map)@ == indexed(old(map)@, store.slots(), store.slots().len() as int),
    {
        let ghost v = map@;
        let ghost s = store.slots();
        map.populate_blocked();
        map.clear_content_index();
        let n: usize = store.len();
        let mut i: usize = 0;
        while i < n
            invariant
                i <= n,
                n == s.len(),
                s == store.slots(),
                map@ == indexed(v, s, i as int),
            decreases n - i,
        {
            proof {
                lemma_indexed_size(v, s, i as int);
            }
            if store.slots[i].alive {
                match store.slots[i].components.position {
                    Some(position) => {
                        if map.in_bounds(position.x, position.y) {
                            let idx = map.xy_to_idx(position.x, position.y);
                            if store.slots[i].components.blocks_tile.is_some() {
                                map.block(idx);
                            }
                            let entity = Entity { index: i, generation: store.slots[i].generation };
                            map.add_occupant(idx, entity);
                        }
                    },
                    None => {},
                }
            }
            i = i + 1;
        }
    }
}

} // verus!
