//! Moves the monsters that see the player one step along the path to it.
//! The paths are searched outside; this pass says which are wanted and
//! follows the ones it is given.

use vstd::prelude::*;
use crate::components::{Components, Position};
use crate::coord::Coord;
use crate::map::{GameMap, MapView};
use crate::store::{handle_in, Entity, EntityStore, Slot};
use crate::systems::visibility_system::VisibilitySystem;

verus! {

/// The pass that steers the monsters.
pub struct MonsterAI {}

/// The outcome of a search for a path: whether one was found, and the
/// cells along it by index, the first of which is the start.
#[derive(Clone, Debug)]
pub struct NavigationPath {
    pub destination: usize,
    pub success: bool,
    pub steps: Vec<usize>,
}

/// A path that is wanted: for `entity`, from the cell `start` to the cell
/// `end`.
#[derive(Clone, Copy, PartialEq, Eq, Structural, Debug)]
pub struct PathQuery {
    pub entity: Entity,
    pub start: usize,
    pub end: usize,
}

/// Whether the entity in slot `i` hunts the player: it lives, is a monster
/// with a name, stands on the map, and sees the cell `goal`, which lies on
/// the map too.
pub open spec fn hunts(s: Seq<Slot>, v: MapView, goal: Coord, i: int) -> bool {
    let c = s[i].components;
    &&& s[i].alive
    &&& c.monster.is_some()
    &&& c.name.is_some()
    &&& c.viewshed.is_some()
    &&& c.position.is_some()
    &&& c.viewshed.unwrap().visible_tiles@.contains(goal)
    &&& v.contains(c.position.unwrap().x as int, c.position.unwrap().y as int)
    &&& v.contains(goal.x as int, goal.y as int)
}

/// The paths that the hunters among the first `n` slots want, in slot
/// order.
pub open spec fn wanted(s: Seq<Slot>, v: MapView, goal: Coord, n: int) -> Seq<PathQuery>
    decreases n,
{
    if n <= 0 {
        Seq::empty()
    } else if hunts(s, v, goal, n - 1) {
        wanted(s, v, goal, n - 1).push(
            PathQuery {
                entity: handle_in(s, n - 1),
                start: v.index(
                    s[n - 1].components.position.unwrap().x as int,
                    s[n - 1].components.position.unwrap().y as int,
                ) as usize,
                end: v.index(goal.x as int, goal.y as int) as usize,
            },
        )
    } else {
        wanted(s, v, goal, n - 1)
    }
}

/// The cell to which `path` leads next: the second of its cells, where the
/// search succeeded, the path has more than one cell, and that cell lies on
/// the map.
pub open spec fn next_step(path: NavigationPath, v: MapView) -> Option<int> {
    if path.success && path.steps@.len() > 1 && path.steps@[1] < v.area() {
        Some(path.steps@[1] as int)
    } else {
        None
    }
}

/// Whether the slot `b` is the slot `a` after a step to the cell `idx`: it
/// stands there, and its viewshed is dirty.
pub open spec fn stepped(a: Slot, b: Slot, v: MapView, idx: int) -> bool {
    &&& b.alive == a.alive
    &&& b.generation == a.generation
    &&& a.components.viewshed.is_some()
    &&& b.components.viewshed.is_some()
    &&& b.components == (Components {
        position: Some(Position { x: v.col(idx) as i32, y: v.row(idx) as i32 }),
        viewshed: b.components.viewshed,
        ..a.components
    })
    &&& b.components.viewshed.unwrap().visible_tiles == a.components.viewshed.unwrap().visible_tiles
    &&& b.components.viewshed.unwrap().range == a.components.viewshed.unwrap().range
    &&& b.components.viewshed.unwrap().dirty
}

/// Whether the slot `b` is what the pass makes of slot `i` of `s`: the
/// hunter that is given a path with a next step takes it, and nothing else
/// changes.  The hunters take the paths in slot order, one each.
pub open spec fn chased(
    s: Seq<Slot>,
    v: MapView,
    goal: Coord,
    paths: Seq<NavigationPath>,
    i: int,
    b: Slot,
) -> bool {
    let k = wanted(s, v, goal, i).len() as int;
    if hunts(s, v, goal, i) && k < paths.len() && next_step(paths[k], v).is_some() {
        stepped(s[i], b, v, next_step(paths[k], v).unwrap())
    } else {
        b == s[i]
    }
}

/// Whether `b` is `a` after each hunter has taken its path from `paths`.
pub open spec fn pursued(
    a: Seq<Slot>,
    v: MapView,
    goal: Coord,
    paths: Seq<NavigationPath>,
    b: Seq<Slot>,
) -> bool {
    &&& b.len() == a.len()
    &&& forall|i: int| 0 <= i < a.len() ==> chased(a, v, goal, paths, i, #[trigger] b[i])
}

impl MonsterAI {
    /// The paths that the hunters want, in slot order: each from where the
    /// monster stands to `player_pos`.
    pub fn queries(store: &EntityStore, map: &GameMap, player_pos: Coord) -> (r: Vec<PathQuery>)
        ensures
            r@ == wanted(store.slots(), map@, player_pos, store.slots().len() as int),
    {
        let mut r: Vec<PathQuery> = Vec::new();
        let n: usize = store.len();
        let mut i: usize = 0;
        while i < n
            invariant
                i <= n,
                n == store.slots().len(),
                r@ == wanted(store.slots(), map@, player_pos, i as int),
            decreases n - i,
        {
            if Self::is_hunter(store, map, player_pos, i) {
                let p = store.slots[i].components.position.unwrap();
                r.push(
                    PathQuery {
                        entity: Entity { index: i, generation: store.slots[i].generation },
                        start: map.xy_to_idx(p.x, p.y),
                        end: map.xy_to_idx(player_pos.x, player_pos.y),
                    },
                );
            }
            i = i + 1;
        }
        r
    }

    /// Whether the entity in slot `i` hunts the player at `player_pos`.
    pub fn is_hunter(store: &EntityStore, map: &GameMap, player_pos: Coord, i: usize) -> (r: bool)
        requires
            i < store.slots().len(),
        ensures
            r == hunts(store.slots(), map@, player_pos, i as int),
    {
        let c = &store.slots[i].components;
        if !store.slots[i].alive || c.monster.is_none() || c.name.is_none() {
            return false;
        }
        match (&c.viewshed, c.position) {
            (Some(viewshed), Some(p)) => VisibilitySystem::in_sight(viewshed, player_pos)
                && map.in_bounds(p.x, p.y) && map.in_bounds(player_pos.x, player_pos.y),
            _ => false,
        }
    }

    /// Moves each hunter one step along its path.  The hunters are the
    /// entities for which [`MonsterAI::queries`] wants a path, and
    /// `paths` holds the outcomes of the searches in the same order.  A
    /// hunter steps to the second cell of its path and its viewshed becomes
    /// dirty; it stays where the search failed, where the path has one
    /// cell or none, where its second cell is off the map, and where
    /// `paths` holds no outcome for it.
    pub fn run(
        &mut self,
        store: &mut EntityStore,
        map: &GameMap,
        player_pos: Coord,
        paths: &Vec<NavigationPath>,
    )
        ensures
            old(store).same_entities(final(store)),
            pursued(old(store).slots(), map@, player_pos, paths@, final(store).slots()),
    {
        let ghost s0 = store.slots();
        let ghost v = map@;
        let n: usize = store.len();
        let mut k: usize = 0;
        let mut i: usize = 0;
        while i < n
            invariant
                i <= n,
                n == s0.len(),
                store.slots().len() == n,
                k == wanted(s0, v, player_pos, i as int).len(),
                k <= i,
                v == map@,
                forall|j: int|
                    0 <= j < n ==> (#[trigger] store.slots()[j]).alive == s0[j].alive
                        && store.slots()[j].generation == s0[j].generation,
                forall|j: int|
                    0 <= j < n ==> if j < i {
                        chased(s0, v, player_pos, paths@, j, #[trigger] store.slots()[j])
                    } else {
                        store.slots()[j] == s0[j]
                    },
            decreases n - i,
        {
            let ghost before = store.slots();
            if Self::is_hunter(store, map, player_pos, i) {
                if k < paths.len() {
                    let path = &paths[k];
                    if path.success && path.steps.len() > 1 && path.steps[1] < map.area() {
                        let (x, y) = map.idx_to_xy(path.steps[1]);
                        store.slots[i].components.position = Some(Position { x, y });
                        match &mut store.slots[i].components.viewshed {
                            Some(viewshed) => {
                                viewshed.dirty = true;
                            },
                            None => {},
                        }
                    }
                }
                k = k + 1;
            }
            proof {
                assert forall|j: int| 0 <= j < n implies if j < i + 1 {
                    chased(s0, v, player_pos, paths@, j, #[trigger] store.slots()[j])
                } else {
                    store.slots()[j] == s0[j]
                } by {
                    if j != i {
                        assert(store.slots()[j] == before[j]);
                    }
                }
            }
            i = i + 1;
        }
    }
}

} // verus!
