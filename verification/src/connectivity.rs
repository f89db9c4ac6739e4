//! Which cells of a generated map can be reached from which.

use vstd::prelude::*;
use crate::map::{
    lemma_index_in_area, lemma_index_round_trip, on_tunnel, room_fits, room_sized, MapView,
    TileType,
};
use crate::rect::Rect;

verus! {

/// Whether `c` is a floor cell of the map.
pub open spec fn is_floor(v: MapView, c: (int, int)) -> bool {
    v.contains(c.0, c.1) && v.tiles[v.index(c.0, c.1)] == TileType::Floor
}

/// Whether `a` and `b` lie side by side in a row or in a column.
pub open spec fn next_to(a: (int, int), b: (int, int)) -> bool {
    ||| a.0 == b.0 && (a.1 == b.1 + 1 || a.1 + 1 == b.1)
    ||| a.1 == b.1 && (a.0 == b.0 + 1 || a.0 + 1 == b.0)
}

/// Whether `path` is a walk over the floor: it has a cell, each of its
/// cells is floor, and each lies next to the one before it.
pub open spec fn is_walk(v: MapView, path: Seq<(int, int)>) -> bool {
    &&& path.len() > 0
    &&& forall|k: int| 0 <= k < path.len() ==> is_floor(v, #[trigger] path[k])
    &&& forall|k: int| 0 <= k < path.len() - 1 ==> next_to(#[trigger] path[k], path[k + 1])
}

/// Whether a walk over the floor leads from `a` to `b`.
pub open spec fn reachable(v: MapView, a: (int, int), b: (int, int)) -> bool {
    exists|path: Seq<(int, int)>| #[trigger] is_walk(v, path) && path.first() == a && path.last() == b
}

/// A floor cell is reachable from itself.
pub proof fn lemma_reach_self(v: MapView, a: (int, int))
    requires
        is_floor(v, a),
    ensures
        reachable(v, a, a),
{
    let path = seq![a];
    assert(is_walk(v, path));
}

/// A floor cell is reachable from the floor cell next to it.
pub proof fn lemma_reach_step(v: MapView, a: (int, int), b: (int, int))
    requires
        is_floor(v, a),
        is_floor(v, b),
        next_to(a, b),
    ensures
        reachable(v, a, b),
{
    let path = seq![a, b];
    assert(is_walk(v, path));
}

/// What is reachable from a reachable cell is reachable.
pub proof fn lemma_reach_trans(v: MapView, a: (int, int), b: (int, int), c: (int, int))
    requires
        reachable(v, a, b),
        reachable(v, b, c),
    ensures
        reachable(v, a, c),
{
    let p = choose|p: Seq<(int, int)>| #[trigger] is_walk(v, p) && p.first() == a && p.last() == b;
    let q = choose|q: Seq<(int, int)>| #[trigger] is_walk(v, q) && q.first() == b && q.last() == c;
    let r = p + q.subrange(1, q.len() as int);
    assert forall|k: int| 0 <= k < r.len() implies is_floor(v, #[trigger] r[k]) by {
        if k < p.len() {
            assert(r[k] == p[k]);
        } else {
            assert(r[k] == q[k - p.len() + 1]);
        }
    }
    assert forall|k: int| 0 <= k < r.len() - 1 implies next_to(#[trigger] r[k], r[k + 1]) by {
        if k + 1 < p.len() {
            assert(r[k] == p[k] && r[k + 1] == p[k + 1]);
        } else if k + 1 == p.len() {
            assert(r[k] == p[k]);
            assert(r[k + 1] == q[1]);
            assert(p[k] == q[0]);
            assert(next_to(q[0], q[0int + 1]));
        } else {
            let m = k - p.len() + 1;
            assert(r[k] == q[m] && r[k + 1] == q[m + 1]);
        }
    }
    assert(is_walk(v, r));
    if q.len() == 1 {
        assert(r.last() == p.last());
    } else {
        assert(r.last() == q.last());
    }
    assert(r.first() == p.first());
}

/// Reaching goes both ways.
pub proof fn lemma_reach_back(v: MapView, a: (int, int), b: (int, int))
    requires
        reachable(v, a, b),
    ensures
        reachable(v, b, a),
{
    let p = choose|p: Seq<(int, int)>| #[trigger] is_walk(v, p) && p.first() == a && p.last() == b;
    let r = Seq::new(p.len(), |k: int| p[p.len() - 1 - k]);
    assert forall|k: int| 0 <= k < r.len() - 1 implies next_to(#[trigger] r[k], r[k + 1]) by {
        let m = p.len() - 2 - k;
        assert(next_to(p[m], p[m + 1]));
    }
    assert(is_walk(v, r));
}

/// Along a stretch of floor in a row, the one end is reachable from the
/// other.
pub proof fn lemma_reach_along_row(v: MapView, y: int, x0: int, x1: int)
    requires
        x0 <= x1,
        forall|x: int| x0 <= x <= x1 ==> #[trigger] is_floor(v, (x, y)),
    ensures
        reachable(v, (x0, y), (x1, y)),
        reachable(v, (x1, y), (x0, y)),
    decreases x1 - x0,
{
    if x0 == x1 {
        assert(is_floor(v, (x0, y)));
        lemma_reach_self(v, (x0, y));
    } else {
        lemma_reach_along_row(v, y, x0, x1 - 1);
        assert(is_floor(v, (x1 - 1, y)));
        assert(is_floor(v, (x1, y)));
        lemma_reach_step(v, (x1 - 1, y), (x1, y));
        lemma_reach_trans(v, (x0, y), (x1 - 1, y), (x1, y));
        lemma_reach_back(v, (x0, y), (x1, y));
    }
}

/// Along a stretch of floor in a column, the one end is reachable from the
/// other.
pub proof fn lemma_reach_along_column(v: MapView, x: int, y0: int, y1: int)
    requires
        y0 <= y1,
        forall|y: int| y0 <= y <= y1 ==> #[trigger] is_floor(v, (x, y)),
    ensures
        reachable(v, (x, y0), (x, y1)),
        reachable(v, (x, y1), (x, y0)),
    decreases y1 - y0,
{
    if y0 == y1 {
        assert(is_floor(v, (x, y0)));
        lemma_reach_self(v, (x, y0));
    } else {
        lemma_reach_along_column(v, x, y0, y1 - 1);
        assert(is_floor(v, (x, y1 - 1)));
        assert(is_floor(v, (x, y1)));
        lemma_reach_step(v, (x, y1 - 1), (x, y1));
        lemma_reach_trans(v, (x, y0), (x, y1 - 1), (x, y1));
        lemma_reach_back(v, (x, y0), (x, y1));
    }
}

/// Whether every cell that `room` carves is floor.
pub open spec fn room_is_floor(v: MapView, room: Rect) -> bool {
    forall|x: int, y: int| room.inner(x, y) ==> #[trigger] is_floor(v, (x, y))
}

/// Whether every cell of the corridor from `from` to `to` is floor.
pub open spec fn tunnel_is_floor(v: MapView, from: (int, int), to: (int, int)) -> bool {
    forall|x: int, y: int| on_tunnel(from, to, x, y) ==> #[trigger] is_floor(v, (x, y))
}

/// Within a room that is all floor, every cell is reachable from every
/// other.
pub proof fn lemma_reach_within_room(v: MapView, room: Rect, a: (int, int), b: (int, int))
    requires
        room_is_floor(v, room),
        room.inner(a.0, a.1),
        room.inner(b.0, b.1),
    ensures
        reachable(v, a, b),
{
    let corner = (b.0, a.1);
    assert forall|x: int| room.x1 < x <= room.x2 implies #[trigger] is_floor(v, (x, a.1)) by {
        assert(room.inner(x, a.1));
    }
    assert forall|y: int| room.y1 < y <= room.y2 implies #[trigger] is_floor(v, (b.0, y)) by {
        assert(room.inner(b.0, y));
    }
    if a.0 <= b.0 {
        lemma_reach_along_row(v, a.1, a.0, b.0);
    } else {
        lemma_reach_along_row(v, a.1, b.0, a.0);
    }
    if a.1 <= b.1 {
        lemma_reach_along_column(v, b.0, a.1, b.1);
    } else {
        lemma_reach_along_column(v, b.0, b.1, a.1);
    }
    lemma_reach_trans(v, a, corner, b);
}

/// Along a corridor that is all floor, both of its far ends are reachable
/// from the cell `to` at which it ends, and that cell from them.
pub proof fn lemma_reach_along_tunnel(v: MapView, from: (int, int), to: (int, int))
    requires
        tunnel_is_floor(v, from, to),
    ensures
        reachable(v, to, (from.0, to.1)),
        reachable(v, (from.0, to.1), to),
        reachable(v, to, (to.0, from.1)),
        reachable(v, (to.0, from.1), to),
{
    assert forall|x: int| (from.0 <= x <= to.0 || to.0 <= x <= from.0) implies #[trigger] is_floor(v, (x, to.1)) by {
        assert(on_tunnel(from, to, x, to.1));
    }
    assert forall|y: int| (from.1 <= y <= to.1 || to.1 <= y <= from.1) implies #[trigger] is_floor(v, (to.0, y)) by {
        assert(on_tunnel(from, to, to.0, y));
    }
    if from.0 <= to.0 {
        lemma_reach_along_row(v, to.1, from.0, to.0);
    } else {
        lemma_reach_along_row(v, to.1, to.0, from.0);
    }
    if from.1 <= to.1 {
        lemma_reach_along_column(v, to.0, from.1, to.1);
    } else {
        lemma_reach_along_column(v, to.0, to.1, from.1);
    }
}

/// Whether the corridor that ends at the centre of `next` meets `prev`:
/// one of its far ends, which lie in the row and in the column of the
/// centre of `prev`, is a cell that `prev` carves.
pub open spec fn joined(prev: Rect, next: Rect) -> bool {
    prev.inner(prev.mid().0, next.mid().1) || prev.inner(next.mid().0, prev.mid().1)
}

/// Whether each of `rooms` but the first is joined to the room before it.
pub open spec fn chained(rooms: Seq<Rect>) -> bool {
    forall|k: int| 1 <= k < rooms.len() ==> joined(rooms[k - 1], #[trigger] rooms[k])
}

/// Whether the first `n` of `rooms` and the corridors between them are all
/// floor on the map.
pub open spec fn dug_out(v: MapView, rooms: Seq<Rect>, n: int) -> bool {
    &&& forall|k: int| 0 <= k < n ==> room_is_floor(v, #[trigger] rooms[k])
    &&& forall|k: int| 1 <= k < n ==> tunnel_is_floor(v, rooms[k - 1].mid(), #[trigger] rooms[k].mid())
}

/// The centre of a room of the generator's size is a cell that the room
/// carves.
pub proof fn lemma_mid_inner(room: Rect)
    requires
        room_sized(room),
    ensures
        room.inner(room.mid().0, room.mid().1),
{
}

/// Accepting a room leaves floor where floor was, and makes the room and
/// its corridor floor.
pub proof fn lemma_with_room_floor(v: MapView, room: Rect)
    requires
        v.valid(),
        v.fits(room),
        room_sized(room),
        v.rooms.len() > 0 ==> room_sized(v.rooms.last()),
    ensures
        forall|c: (int, int)| is_floor(v, c) ==> is_floor(v.with_room(room), c),
        room_is_floor(v.with_room(room), room),
        v.rooms.len() > 0 ==> tunnel_is_floor(v.with_room(room), v.rooms.last().mid(), room.mid()),
{
    let u = v.with_room(room);
    let w = v.width;
    assert forall|c: (int, int)| is_floor(v, c) implies is_floor(u, c) by {
        lemma_index_in_area(w, v.height, c.0, c.1);
    }
    assert forall|x: int, y: int| room.inner(x, y) implies #[trigger] is_floor(u, (x, y)) by {
        lemma_index_in_area(w, v.height, x, y);
        lemma_index_round_trip(w, x, y);
    }
    if v.rooms.len() > 0 {
        let from = v.rooms.last().mid();
        let to = room.mid();
        assert(room_fits(v.width, v.height, v.rooms[v.rooms.len() - 1]));
        assert forall|x: int, y: int| on_tunnel(from, to, x, y) implies #[trigger] is_floor(u, (x, y)) by {
            lemma_index_in_area(w, v.height, x, y);
            lemma_index_round_trip(w, x, y);
            assert(y * w + x > 0) by (nonlinear_arith)
                requires
                    x >= 1,
                    y >= 1,
                    w >= 1,
            ;
        }
    }
}

/// On the blank map with the first `n` of `rooms` accepted, these rooms
/// and the corridors between them are all floor.
pub proof fn lemma_with_rooms_dug_out(blank: MapView, rooms: Seq<Rect>, n: nat)
    requires
        blank.valid(),
        blank.rooms.len() == 0,
        n <= rooms.len(),
        forall|k: int| 0 <= k < rooms.len() ==> room_sized(#[trigger] rooms[k]) && blank.fits(rooms[k]),
    ensures
        blank.with_rooms(rooms, n).valid(),
        blank.with_rooms(rooms, n).width == blank.width,
        blank.with_rooms(rooms, n).height == blank.height,
        blank.with_rooms(rooms, n).rooms == rooms.take(n as int),
        dug_out(blank.with_rooms(rooms, n), rooms, n as int),
    decreases n,
{
    if n == 0 {
        assert(blank.with_rooms(rooms, 0).rooms =~= rooms.take(0));
    } else {
        lemma_with_rooms_dug_out(blank, rooms, (n - 1) as nat);
        let v = blank.with_rooms(rooms, (n - 1) as nat);
        let room = rooms[n - 1];
        let u = v.with_room(room);
        assert(u == blank.with_rooms(rooms, n));
        assert(u.rooms =~= rooms.take(n as int));
        if n > 1 {
            assert(v.rooms.last() == rooms[n - 2]);
        }
        lemma_with_room_floor(v, room);
        assert forall|k: int| 0 <= k < u.rooms.len() implies room_fits(
            u.width,
            u.height,
            #[trigger] u.rooms[k],
        ) by {
            assert(u.rooms[k] == rooms[k]);
        }
        assert forall|k: int| 0 <= k < n implies room_is_floor(u, #[trigger] rooms[k]) by {
            if k < n - 1 {
                assert(room_is_floor(v, rooms[k]));
                assert forall|x: int, y: int| rooms[k].inner(x, y) implies #[trigger] is_floor(u, (x, y)) by {
                    assert(is_floor(v, (x, y)));
                }
            }
        }
        assert forall|k: int| 1 <= k < n implies tunnel_is_floor(
            u,
            rooms[k - 1].mid(),
            #[trigger] rooms[k].mid(),
        ) by {
            if k < n - 1 {
                assert(tunnel_is_floor(v, rooms[k - 1].mid(), rooms[k].mid()));
                assert forall|x: int, y: int|
                    on_tunnel(rooms[k - 1].mid(), rooms[k].mid(), x, y) implies #[trigger] is_floor(u, (x, y)) by {
                    assert(is_floor(v, (x, y)));
                }
            }
        }
    }
}

/// On a generated map every room and every corridor is floor.
pub proof fn lemma_generated_dug_out(v: MapView)
    requires
        v.valid(),
        v.generated(),
    ensures
        dug_out(v, v.rooms, v.rooms.len() as int),
{
    let blank = MapView::blank(v.width, v.height);
    assert(blank.width * blank.height == v.area());
    assert forall|k: int| 0 <= k < v.rooms.len() implies room_sized(#[trigger] v.rooms[k])
        && blank.fits(v.rooms[k]) by {
        assert(room_fits(v.width, v.height, v.rooms[k]));
    }
    lemma_with_rooms_dug_out(blank, v.rooms, v.rooms.len());
}

/// On a generated map every cell of a room is reachable from every other
/// cell of the same room.
pub proof fn lemma_room_connected(v: MapView, i: int, a: (int, int), b: (int, int))
    requires
        v.valid(),
        v.generated(),
        0 <= i < v.rooms.len(),
        v.rooms[i].inner(a.0, a.1),
        v.rooms[i].inner(b.0, b.1),
    ensures
        reachable(v, a, b),
{
    lemma_generated_dug_out(v);
    lemma_reach_within_room(v, v.rooms[i], a, b);
}

/// On a generated map the corridor of a room leads from the centre of the
/// room to the row and to the column of the centre of the room before it:
/// the cells where it ends there are reachable from the centre.
pub proof fn lemma_corridor_connected(v: MapView, k: int)
    requires
        v.valid(),
        v.generated(),
        1 <= k < v.rooms.len(),
    ensures
        reachable(v, v.rooms[k].mid(), (v.rooms[k - 1].mid().0, v.rooms[k].mid().1)),
        reachable(v, v.rooms[k].mid(), (v.rooms[k].mid().0, v.rooms[k - 1].mid().1)),
{
    lemma_generated_dug_out(v);
    lemma_reach_along_tunnel(v, v.rooms[k - 1].mid(), v.rooms[k].mid());
}

/// On a generated map the centre of a room is reachable from the centre
/// of the room before it, and the other way round, where the two are
/// joined.
pub proof fn lemma_neighbours_connected(v: MapView, k: int)
    requires
        v.valid(),
        v.generated(),
        1 <= k < v.rooms.len(),
        joined(v.rooms[k - 1], v.rooms[k]),
    ensures
        reachable(v, v.rooms[k - 1].mid(), v.rooms[k].mid()),
        reachable(v, v.rooms[k].mid(), v.rooms[k - 1].mid()),
{
    lemma_generated_dug_out(v);
    let prev = v.rooms[k - 1];
    let next = v.rooms[k];
    lemma_mid_inner(prev);
    lemma_reach_along_tunnel(v, prev.mid(), next.mid());
    if prev.inner(prev.mid().0, next.mid().1) {
        let end = (prev.mid().0, next.mid().1);
        lemma_reach_within_room(v, prev, prev.mid(), end);
        lemma_reach_trans(v, prev.mid(), end, next.mid());
    } else {
        let end = (next.mid().0, prev.mid().1);
        lemma_reach_within_room(v, prev, prev.mid(), end);
        lemma_reach_trans(v, prev.mid(), end, next.mid());
    }
    lemma_reach_back(v, prev.mid(), next.mid());
}

/// On a generated map whose rooms are chained, the centre of every room
/// is reachable from the centre of the first.
pub proof fn lemma_first_reaches(v: MapView, k: int)
    requires
        v.valid(),
        v.generated(),
        chained(v.rooms),
        0 <= k < v.rooms.len(),
    ensures
        reachable(v, v.rooms[0].mid(), v.rooms[k].mid()),
    decreases k,
{
    lemma_generated_dug_out(v);
    if k == 0 {
        lemma_mid_inner(v.rooms[0]);
        assert(is_floor(v, (v.rooms[0].mid().0, v.rooms[0].mid().1)));
        lemma_reach_self(v, v.rooms[0].mid());
    } else {
        lemma_first_reaches(v, k - 1);
        lemma_neighbours_connected(v, k);
        lemma_reach_trans(v, v.rooms[0].mid(), v.rooms[k - 1].mid(), v.rooms[k].mid());
    }
}

/// Every room of a generated map is reachable from every other over the
/// floor, where each room is joined to the room before it: a walk leads
/// from any cell of any room to any cell of any room.
pub proof fn lemma_rooms_connected(v: MapView, i: int, j: int, a: (int, int), b: (int, int))
    requires
        v.valid(),
        v.generated(),
        chained(v.rooms),
        0 <= i < v.rooms.len(),
        0 <= j < v.rooms.len(),
        v.rooms[i].inner(a.0, a.1),
        v.rooms[j].inner(b.0, b.1),
    ensures
        reachable(v, a, b),
{
    lemma_generated_dug_out(v);
    lemma_mid_inner(v.rooms[i]);
    lemma_mid_inner(v.rooms[j]);
    lemma_reach_within_room(v, v.rooms[i], a, v.rooms[i].mid());
    lemma_first_reaches(v, i);
    lemma_reach_back(v, v.rooms[0].mid(), v.rooms[i].mid());
    lemma_first_reaches(v, j);
    lemma_reach_within_room(v, v.rooms[j], v.rooms[j].mid(), b);
    lemma_reach_trans(v, a, v.rooms[i].mid(), v.rooms[0].mid());
    lemma_reach_trans(v, a, v.rooms[0].mid(), v.rooms[j].mid());
    lemma_reach_trans(v, a, v.rooms[j].mid(), b);
}

} // verus!
