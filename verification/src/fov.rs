//! Field of view.  The cells in view are computed by `rltk`; this file holds
//! what the map needs for that and brings the outcome into a fixed order.

use vstd::prelude::*;
use crate::coord::Coord;
use crate::map::{
    in_sight_range, lemma_cell_of_index, lemma_index_in_area, lemma_index_round_trip, GameMap,
    MapView, TileType, MAX_SIGHT,
};

verus! {

/// `rltk::Point`, which `rltk` takes and hands out in place of
/// [`crate::coord::Coord`].
#[verifier::external_type_specification]
#[verifier::external_body]
pub struct ExPoint(rltk::Point);

/// The point that `rltk::Point::new` makes of the column `x` and the row
/// `y`.
pub uninterp spec fn rltk_point_of(x: int, y: int) -> rltk::Point;

/// Calls `rltk::Point::new`, which stores the two coordinates as they are.
/// Claimed is that the point depends on nothing but them.
#[verifier::external_body]
fn rltk_point(x: i32, y: i32) -> (p: rltk::Point)
    ensures
        p == rltk_point_of(x as int, y as int),
{
    rltk::Point::new(x, y)
}

impl rltk::BaseMap for GameMap {
    /// Whether the cell `idx` stops the eye: walls do, and so does
    /// everything beyond the map.
    fn is_opaque(&self, idx: usize) -> (opaque: bool)
        ensures
            opaque == (idx >= self@.area() || self@.opacity()[idx as int]),
    {
        idx >= self.area() || self.tile_at(idx) == TileType::Wall
    }
}

impl rltk::Algorithm2D for GameMap {
    /// The size of the map as `rltk` wants it: the point made of its width
    /// and its height.
    fn dimensions(&self) -> (size: rltk::Point)
        ensures
            size == rltk_point_of(self@.width, self@.height),
    {
        rltk_point(self.width(), self.height())
    }
}

/// The cells that `rltk::field_of_view` finds in view from `(x, y)` within
/// `range` on a map of the given size, of whose cells `opaque` says row by
/// row which stop the eye.
pub uninterp spec fn field_of_view_cells(
    x: int,
    y: int,
    range: int,
    width: int,
    height: int,
    opaque: Seq<bool>,
) -> Set<(int, int)>;

/// The cells that occur among `points`.
pub open spec fn cells_of(points: Seq<Coord>) -> Set<(int, int)> {
    Set::new(
        |c: (int, int)|
            exists|k: int| 0 <= k < points.len() && (#[trigger] points[k]).x == c.0 && points[k].y == c.1,
    )
}

/// Column and row of the cell with index `i` on a map of width `width`.
pub open spec fn cell_at(width: int, i: int) -> (int, int) {
    (i % width, i / width)
}

/// The cells with an index below `n`, on a map of width `width`, that are
/// in `cells`, in index order.
pub open spec fn listed(width: int, cells: Set<(int, int)>, n: int) -> Seq<Coord>
    decreases n,
{
    if n <= 0 {
        Seq::empty()
    } else if cells.contains(cell_at(width, n - 1)) {
        listed(width, cells, n - 1).push(
            Coord { x: cell_at(width, n - 1).0 as i32, y: cell_at(width, n - 1).1 as i32 },
        )
    } else {
        listed(width, cells, n - 1)
    }
}

impl MapView {
    /// The cells in view from `center` within `range`, in index order.
    pub open spec fn in_view(self, center: Coord, range: int) -> Seq<Coord> {
        listed(
            self.width,
            field_of_view_cells(
                center.x as int,
                center.y as int,
                range,
                self.width,
                self.height,
                self.opacity(),
            ),
            self.area(),
        )
    }
}

/// What is listed lies on the map.
pub proof fn lemma_listed_on_map(width: int, height: int, cells: Set<(int, int)>, n: int)
    requires
        0 < width <= i32::MAX,
        height <= i32::MAX,
        n <= width * height,
    ensures
        forall|k: int|
            0 <= k < listed(width, cells, n).len() ==> {
                &&& 0 <= (#[trigger] listed(width, cells, n)[k]).x < width
                &&& 0 <= listed(width, cells, n)[k].y < height
            },
    decreases n,
{
    if n > 0 {
        lemma_listed_on_map(width, height, cells, n - 1);
        lemma_cell_of_index(width, height, n - 1);
        let before = listed(width, cells, n - 1);
        let all = listed(width, cells, n);
        assert forall|k: int| 0 <= k < all.len() implies {
            &&& 0 <= (#[trigger] all[k]).x < width
            &&& 0 <= all[k].y < height
        } by {
            if k < before.len() {
                assert(all[k] == before[k]);
            }
        }
    }
}

/// A cell of the map is listed where it is among the cells and its index is
/// below the bound.
pub proof fn lemma_listed_holds(width: int, height: int, cells: Set<(int, int)>, n: int, c: Coord)
    requires
        0 <= c.x < width <= i32::MAX,
        0 <= c.y < height <= i32::MAX,
        c.y * width + c.x < n,
        cells.contains((c.x as int, c.y as int)),
    ensures
        listed(width, cells, n).contains(c),
    decreases n,
{
    lemma_index_round_trip(width, c.x as int, c.y as int);
    if c.y * width + c.x == n - 1 {
        let all = listed(width, cells, n);
        assert(all[all.len() - 1] == c);
    } else {
        lemma_listed_holds(width, height, cells, n - 1, c);
        let before = listed(width, cells, n - 1);
        let k = choose|k: int| 0 <= k < before.len() && before[k] == c;
        assert(listed(width, cells, n)[k] == c);
    }
}

/// Calls `rltk::field_of_view` with this map, whose `is_opaque` and
/// `dimensions` stand above.  It casts shadows from `center` as far as the
/// square of `range` allows and collects what it reaches in a hash set, so
/// the order of the outcome is left open.  Claimed is that the cells of the
/// outcome depend on nothing but the centre, the range, the size of the map
/// and its walls, that the centre is among them, which is put into the set
/// first, and that each lies on the map, since the set is sifted for that
/// at the end.  The centre has to lie on the map, since the cells beside it
/// are turned into indices unseen, and the range is bounded because the
/// square of twice the range is computed in an `i32`.
#[verifier::external_body]
fn field_of_view(center: Coord, range: i32, map: &GameMap) -> (seen: Vec<Coord>)
    requires
        map@.contains(center.x as int, center.y as int),
        in_sight_range(range as int),
    ensures
        cells_of(seen@) == field_of_view_cells(
            center.x as int,
            center.y as int,
            range as int,
            map@.width,
            map@.height,
            map@.opacity(),
        ),
        seen@.contains(center),
        forall|k: int|
            0 <= k < seen@.len() ==> map@.contains(
                (#[trigger] seen@[k]).x as int,
                seen@[k].y as int,
            ),
{
    rltk::field_of_view(rltk::Point::new(center.x, center.y), range, map)
        .into_iter()
        .map(|p| Coord { x: p.x, y: p.y })
        .collect()
}

impl GameMap {
    /// The cells of the map that occur among `points`, each once, in index
    /// order.
    pub fn in_index_order(&self, points: &Vec<Coord>) -> (r: Vec<Coord>)
        ensures
            r@ == listed(self@.width, cells_of(points@), self@.area()),
    {
        let n: usize = self.area();
        let ghost v = self@;
        let mut mask: Vec<bool> = Vec::new();
        let mut i: usize = 0;
        while i < n
            invariant
                i <= n,
                mask@.len() == i,
                forall|j: int| 0 <= j < i ==> !#[trigger] mask@[j],
            decreases n - i,
        {
            mask.push(false);
            i = i + 1;
        }
        let mut k: usize = 0;
        while k < points.len()
            invariant
                k <= points@.len(),
                n == v.area(),
                v == self@,
                v.valid(),
                mask@.len() == n,
                forall|j: int|
                    0 <= j < n ==> (#[trigger] mask@[j] <==> cells_of(points@.take(k as int)).contains(
                        (v.col(j), v.row(j)),
                    )),
            decreases points@.len() - k,
        {
            let p = points[k];
            let ghost before = mask@;
            let ghost seen = cells_of(points@.take(k as int));
            let ghost next = cells_of(points@.take(k + 1));
            proof {
                assert forall|c: (int, int)| next.contains(c) <==> (seen.contains(c) || (p.x == c.0
                    && p.y == c.1)) by {
                    if seen.contains(c) {
                        let w = choose|w: int|
                            0 <= w < k && (#[trigger] points@.take(k as int)[w]).x == c.0
                                && points@.take(k as int)[w].y == c.1;
                        assert(points@.take(k + 1)[w] == points@[w]);
                    }
                    if p.x == c.0 && p.y == c.1 {
                        assert(points@.take(k + 1)[k as int] == p);
                    }
                    if next.contains(c) {
                        let w = choose|w: int|
                            0 <= w < k + 1 && (#[trigger] points@.take(k + 1)[w]).x == c.0
                                && points@.take(k + 1)[w].y == c.1;
                        if w < k {
                            assert(points@.take(k as int)[w] == points@[w]);
                        }
                    }
                }
            }
            if self.in_bounds(p.x, p.y) {
                let idx = self.point_to_idx(p);
                mask[idx] = true;
                proof {
                    assert forall|j: int| 0 <= j < n implies (#[trigger] mask@[j] <==> next.contains(
                        (v.col(j), v.row(j)),
                    )) by {
                        lemma_cell_of_index(v.width, v.height, j);
                        assert(mask@[j] == (j == idx || before[j]));
                    }
                }
            } else {
                proof {
                    assert forall|j: int| 0 <= j < n implies (#[trigger] mask@[j] <==> next.contains(
                        (v.col(j), v.row(j)),
                    )) by {
                        lemma_cell_of_index(v.width, v.height, j);
                    }
                }
            }
            k = k + 1;
        }
        assert(points@.take(points@.len() as int) =~= points@);
        let ghost cells = cells_of(points@);
        let mut r: Vec<Coord> = Vec::new();
        let mut i: usize = 0;
        while i < n
            invariant
                i <= n,
                n == v.area(),
                v == self@,
                v.valid(),
                mask@.len() == n,
                forall|j: int|
                    0 <= j < n ==> (#[trigger] mask@[j] <==> cells.contains((v.col(j), v.row(j)))),
                r@ == listed(v.width, cells, i as int),
            decreases n - i,
        {
            if mask[i] {
                let (x, y) = self.idx_to_xy(i);
                r.push(Coord { x, y });
            }
            i = i + 1;
        }
        r
    }

    /// The cells in view from `center` within `range`, in index order;
    /// nothing where `center` is off the map or `range` is farther from 0
    /// than [`MAX_SIGHT`].  The centre is always in view, and what is in
    /// view lies on the map.
    pub fn field_of_view(&self, center: Coord, range: i32) -> (r: Option<Vec<Coord>>)
        ensures
            r.is_some() <==> self@.contains(center.x as int, center.y as int) && in_sight_range(
                range as int,
            ),
            r matches Some(seen) ==> {
                &&& seen@ == self@.in_view(center, range as int)
                &&& seen@.contains(center)
                &&& forall|k: int|
                    0 <= k < seen@.len() ==> self@.contains(
                        (#[trigger] seen@[k]).x as int,
                        seen@[k].y as int,
                    )
            },
    {
        if !self.in_bounds(center.x, center.y) || range < -MAX_SIGHT || range > MAX_SIGHT {
            return None;
        }
        let raw = field_of_view(center, range, self);
        let seen = self.in_index_order(&raw);
        proof {
            use_type_invariant(self);
            self.lemma_valid();
            let v = self@;
            let k = choose|k: int| 0 <= k < raw@.len() && raw@[k] == center;
            assert(cells_of(raw@).contains((center.x as int, center.y as int)));
            lemma_index_in_area(v.width, v.height, center.x as int, center.y as int);
            lemma_listed_holds(v.width, v.height, cells_of(raw@), v.area(), center);
            lemma_listed_on_map(v.width, v.height, cells_of(raw@), v.area());
        }
        Some(seen)
    }
}

} // verus!
