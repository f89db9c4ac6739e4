//! The dungeon map: a grid of tiles with its rooms, what has been seen of
//! it, and who stands where.

use vstd::prelude::*;
use vstd::arithmetic::div_mod::{lemma_fundamental_div_mod, lemma_fundamental_div_mod_converse};
use vstd::arithmetic::mul::lemma_mul_is_commutative;
use crate::coord::Coord;
use crate::rect::Rect;
use crate::store::Entity;

verus! {

/// The longest side a map can have.
pub const MAX_SIDE: i32 = 32768;

/// How many rooms the generator tries to place.
pub const MAX_ROOMS: i32 = 30;

/// The least width and height of a generated room.
pub const MIN_SIZE: i32 = 6;

/// The bound that the width and height of a generated room stay below.
pub const MAX_SIZE: i32 = 10;

/// The shortest side of a map that the generator can fill.
pub const MIN_GENERATED_SIDE: i32 = 11;

/// The widest range, to either side of 0, for which the field of view is
/// computed: the square of twice a wider range does not fit an `i32`.
pub const MAX_SIGHT: i32 = 23170;

/// Cost of a step along a row or a column, in hundredths.
pub const STRAIGHT_COST: u32 = 100;

/// Cost of a diagonal step, in hundredths.
pub const DIAGONAL_COST: u32 = 145;

/// What a map cell is made of.
#[derive(Clone, Copy, PartialEq, Eq, Structural, Debug)]
pub enum TileType {
    Wall,
    Floor,
}

/// A map as a plain value: the grids are stored row by row, so the cell in
/// column `x` of row `y` has index `y * width + x`.
pub struct MapView {
    pub width: int,
    pub height: int,
    pub tiles: Seq<TileType>,
    pub rooms: Seq<Rect>,
    pub revealed: Seq<bool>,
    pub visible: Seq<bool>,
    pub blocked: Seq<bool>,
    pub content: Seq<Seq<Entity>>,
}

impl MapView {
    /// The number of cells.
    pub open spec fn area(self) -> int {
        self.width * self.height
    }

    /// Every grid covers the whole map, the map is neither empty nor longer
    /// than [`MAX_SIDE`] on a side, and every room fits on it.
    pub open spec fn valid(self) -> bool {
        &&& 0 < self.width <= MAX_SIDE
        &&& 0 < self.height <= MAX_SIDE
        &&& self.tiles.len() == self.area()
        &&& self.revealed.len() == self.area()
        &&& self.visible.len() == self.area()
        &&& self.blocked.len() == self.area()
        &&& self.content.len() == self.area()
        &&& rooms_fit(self.width, self.height, self.rooms)
    }

    /// Whether `(x, y)` is a cell of the map.
    pub open spec fn contains(self, x: int, y: int) -> bool {
        0 <= x < self.width && 0 <= y < self.height
    }

    /// The index of the cell `(x, y)`.
    pub open spec fn index(self, x: int, y: int) -> int {
        y * self.width + x
    }

    /// The column of the cell with index `idx`.
    pub open spec fn col(self, idx: int) -> int {
        idx % self.width
    }

    /// The row of the cell with index `idx`.
    pub open spec fn row(self, idx: int) -> int {
        idx / self.width
    }

    /// For each cell whether it stops the eye: walls do, floors do not.
    pub open spec fn opacity(self) -> Seq<bool> {
        Seq::new(self.tiles.len(), |i: int| self.tiles[i] == TileType::Wall)
    }

    /// Whether one may step onto `(x, y)`: the cell is on the map and not
    /// on its rim, and nothing blocks it.
    pub open spec fn exit_valid(self, x: int, y: int) -> bool {
        1 <= x < self.width - 1 && 1 <= y < self.height - 1 && !self.blocked[self.index(x, y)]
    }

    /// The step from the cell `idx` by `(dx, dy)` at the given cost, where
    /// one may take it.
    pub open spec fn exit(self, idx: int, dx: int, dy: int, cost: u32) -> Seq<(usize, u32)> {
        if self.exit_valid(self.col(idx) + dx, self.row(idx) + dy) {
            seq![((idx + dy * self.width + dx) as usize, cost)]
        } else {
            Seq::empty()
        }
    }

    /// The steps one may take from the cell `idx`, each with the cell it
    /// leads to and its cost in hundredths: west, east, north, south, then
    /// the four diagonals.
    pub open spec fn exits(self, idx: int) -> Seq<(usize, u32)> {
        self.exit(idx, -1, 0, STRAIGHT_COST) + self.exit(idx, 1, 0, STRAIGHT_COST) + self.exit(
            idx,
            0,
            -1,
            STRAIGHT_COST,
        ) + self.exit(idx, 0, 1, STRAIGHT_COST) + self.exit(idx, -1, -1, DIAGONAL_COST)
            + self.exit(idx, 1, -1, DIAGONAL_COST) + self.exit(idx, -1, 1, DIAGONAL_COST)
            + self.exit(idx, 1, 1, DIAGONAL_COST)
    }

    /// Whether a room may be dug at `room`.
    pub open spec fn fits(self, room: Rect) -> bool {
        room_fits(self.width, self.height, room)
    }

    /// Whether every cell that `room` carves lies on the map.
    pub open spec fn holds(self, room: Rect) -> bool {
        room.x1 < room.x2 && room.y1 < room.y2 ==> -1 <= room.x1 && room.x2 < self.width && -1
            <= room.y1 && room.y2 < self.height
    }

    /// Whether `room` keeps clear of every room of the map.
    pub open spec fn clear_of_rooms(self, room: Rect) -> bool {
        forall|i: int| 0 <= i < self.rooms.len() ==> !room.overlaps(#[trigger] self.rooms[i])
    }

    /// The tiles once `room` has been dug out.
    pub open spec fn room_dug(self, room: Rect) -> Seq<TileType> {
        Seq::new(
            self.tiles.len(),
            |i: int|
                if room.inner(self.col(i), self.row(i)) {
                    TileType::Floor
                } else {
                    self.tiles[i]
                },
        )
    }

    /// The tiles once the corridor from `from` to `to` has been dug out.
    /// The cell with index 0 is never dug.
    pub open spec fn tunnel_dug(self, from: (int, int), to: (int, int)) -> Seq<TileType> {
        Seq::new(
            self.tiles.len(),
            |i: int|
                if i > 0 && on_tunnel(from, to, self.col(i), self.row(i)) {
                    TileType::Floor
                } else {
                    self.tiles[i]
                },
        )
    }

    /// The map once `room` has been accepted: the room is dug out, a
    /// corridor joins its centre to that of the room accepted before it, if
    /// there is one, and the room is the last of the room list.
    pub open spec fn with_room(self, room: Rect) -> MapView {
        let dug = MapView { tiles: self.room_dug(room), ..self };
        MapView {
            tiles: if self.rooms.len() > 0 {
                dug.tunnel_dug(self.rooms.last().mid(), room.mid())
            } else {
                dug.tiles
            },
            rooms: self.rooms.push(room),
            ..self
        }
    }

    /// The map after `room` has been offered: it is accepted where it fits
    /// on the map and keeps clear of the rooms accepted so far, and else
    /// the map stays as it is.
    pub open spec fn offered(self, room: Rect) -> MapView {
        if self.fits(room) && self.clear_of_rooms(room) {
            self.with_room(room)
        } else {
            self
        }
    }

    /// The map after the first `n` of `rooms` have been offered in turn.
    pub open spec fn offered_all(self, rooms: Seq<Rect>, n: nat) -> MapView
        decreases n,
    {
        if n == 0 {
            self
        } else {
            self.offered_all(rooms, (n - 1) as nat).offered(rooms[n - 1])
        }
    }

    /// The map after the first `n` of `rooms` have been accepted in turn.
    pub open spec fn with_rooms(self, rooms: Seq<Rect>, n: nat) -> MapView
        decreases n,
    {
        if n == 0 {
            self
        } else {
            self.with_rooms(rooms, (n - 1) as nat).with_room(rooms[n - 1])
        }
    }

    /// What holds of every map that the generator made: it has between
    /// one and [`MAX_ROOMS`] rooms of the generator's sizes, no two of which
    /// share a point, and it is the blank map with these rooms accepted in
    /// turn, so its tiles are floor exactly in the rooms and along the
    /// corridors between each room and the next.
    pub open spec fn generated(self) -> bool {
        &&& 1 <= self.rooms.len() <= MAX_ROOMS
        &&& forall|i: int| 0 <= i < self.rooms.len() ==> room_sized(#[trigger] self.rooms[i])
        &&& rooms_apart(self.rooms)
        &&& self == MapView::blank(self.width, self.height).with_rooms(
            self.rooms,
            self.rooms.len(),
        )
    }

    /// The map of this size that is all wall, without rooms, unseen and
    /// empty.
    pub open spec fn blank(width: int, height: int) -> MapView {
        MapView {
            width,
            height,
            tiles: Seq::new((width * height) as nat, |i: int| TileType::Wall),
            rooms: Seq::empty(),
            revealed: Seq::new((width * height) as nat, |i: int| false),
            visible: Seq::new((width * height) as nat, |i: int| false),
            blocked: Seq::new((width * height) as nat, |i: int| false),
            content: Seq::new((width * height) as nat, |i: int| Seq::empty()),
        }
    }
}

/// Whether a room may be dug at `room` on a map of the given size: both
/// corners lie on the map and off its last row and column.
pub open spec fn room_fits(width: int, height: int, room: Rect) -> bool {
    &&& 0 <= room.x1 < width - 1
    &&& 0 <= room.x2 < width - 1
    &&& 0 <= room.y1 < height - 1
    &&& 0 <= room.y2 < height - 1
}

/// Whether each of `rooms` fits on a map of the given size.
pub open spec fn rooms_fit(width: int, height: int, rooms: Seq<Rect>) -> bool {
    forall|i: int| 0 <= i < rooms.len() ==> room_fits(width, height, #[trigger] rooms[i])
}

/// Whether `range` is a range for which the field of view is computed.
pub open spec fn in_sight_range(range: int) -> bool {
    -MAX_SIGHT <= range <= MAX_SIGHT
}

/// Whether `room` has a size that the generator gives a room.
pub open spec fn room_sized(room: Rect) -> bool {
    MIN_SIZE <= room.x2 - room.x1 < MAX_SIZE && MIN_SIZE <= room.y2 - room.y1 < MAX_SIZE
}

/// Whether no two of `rooms` share a point.
pub open spec fn rooms_apart(rooms: Seq<Rect>) -> bool {
    forall|i: int, j: int|
        0 <= i < j < rooms.len() ==> !(#[trigger] rooms[j]).overlaps(#[trigger] rooms[i])
}

/// Whether the generator can draw `room` for a map of the given size: the
/// room has one of the generator's sizes and fits on the map.
pub open spec fn drawn(room: Rect, width: int, height: int) -> bool {
    room_sized(room) && room_fits(width, height, room)
}

/// Placing rooms reads only the rooms that it places.
pub proof fn lemma_with_rooms_prefix(v: MapView, a: Seq<Rect>, b: Seq<Rect>, n: nat)
    requires
        n <= a.len(),
        n <= b.len(),
        forall|i: int| 0 <= i < n ==> a[i] == b[i],
    ensures
        v.with_rooms(a, n) == v.with_rooms(b, n),
    decreases n,
{
    if n > 0 {
        lemma_with_rooms_prefix(v, a, b, (n - 1) as nat);
    }
}

/// Offering rooms that the generator can draw to a blank map gives a
/// generated map, but for the least number of rooms: as many rooms as
/// were offered at most, each of the generator's sizes, no two sharing a
/// point, and the map is the blank map with its rooms accepted in turn.
pub proof fn lemma_offered_all(blank: MapView, offers: Seq<Rect>, n: nat)
    requires
        blank == MapView::blank(blank.width, blank.height),
        n <= offers.len(),
        forall|k: int| 0 <= k < n ==> drawn(#[trigger] offers[k], blank.width, blank.height),
    ensures
        ({
            let v = blank.offered_all(offers, n);
            &&& v.width == blank.width
            &&& v.height == blank.height
            &&& v.rooms.len() <= n
            &&& n > 0 ==> v.rooms.len() > 0
            &&& forall|i: int| 0 <= i < v.rooms.len() ==> room_sized(#[trigger] v.rooms[i])
            &&& rooms_apart(v.rooms)
            &&& v == blank.with_rooms(v.rooms, v.rooms.len())
        }),
    decreases n,
{
    if n > 0 {
        lemma_offered_all(blank, offers, (n - 1) as nat);
        let before = blank.offered_all(offers, (n - 1) as nat);
        let room = offers[n - 1];
        let v = before.offered(room);
        assert(before.fits(room));
        if before.clear_of_rooms(room) {
            let m = before.rooms.len();
            assert(v.rooms == before.rooms.push(room));
            lemma_with_rooms_prefix(blank, v.rooms, before.rooms, m);
            assert(blank.with_rooms(v.rooms, (m + 1) as nat) == blank.with_rooms(
                v.rooms,
                m,
            ).with_room(v.rooms[m as int]));
            assert forall|i: int, j: int| 0 <= i < j < v.rooms.len() implies !(
            #[trigger] v.rooms[j]).overlaps(#[trigger] v.rooms[i]) by {
                if j == m {
                    assert(!room.overlaps(before.rooms[i]));
                } else {
                    assert(v.rooms[i] == before.rooms[i] && v.rooms[j] == before.rooms[j]);
                }
            }
        }
    }
}

/// Whether `(x, y)` lies on the corridor from `from` to `to`: along the row
/// of `to` between the two columns, or along the column of `to` between the
/// two rows.
pub open spec fn on_tunnel(from: (int, int), to: (int, int), x: int, y: int) -> bool {
    ||| y == to.1 && (from.0 <= x <= to.0 || to.0 <= x <= from.0)
    ||| x == to.0 && (from.1 <= y <= to.1 || to.1 <= y <= from.1)
}

/// On a map of width `w`, index and coordinates determine each other.
pub proof fn lemma_index_round_trip(w: int, x: int, y: int)
    requires
        0 <= x < w,
        0 <= y,
    ensures
        (y * w + x) % w == x,
        (y * w + x) / w == y,
        0 <= y * w + x,
{
    lemma_mul_is_commutative(y, w);
    lemma_fundamental_div_mod_converse(y * w + x, w, y, x);
    assert(0 <= y * w) by (nonlinear_arith)
        requires
            0 <= y,
            0 < w,
    ;
}

/// On a map of width `w` and height `h`, every index below `w * h` names a
/// cell, and is the index of that cell.
pub proof fn lemma_cell_of_index(w: int, h: int, idx: int)
    requires
        0 < w,
        0 <= idx < w * h,
    ensures
        0 <= idx % w < w,
        0 <= idx / w < h,
        (idx / w) * w + idx % w == idx,
{
    lemma_fundamental_div_mod(idx, w);
    lemma_mul_is_commutative(idx / w, w);
    assert(0 <= idx / w) by (nonlinear_arith)
        requires
            0 <= idx,
            0 < w,
    ;
    if idx / w >= h {
        assert((idx / w) * w >= h * w) by (nonlinear_arith)
            requires
                idx / w >= h,
                0 < w,
        ;
        lemma_mul_is_commutative(h, w);
    }
}

/// On a valid map every cell has an index below the area.
pub proof fn lemma_index_in_area(w: int, h: int, x: int, y: int)
    requires
        0 <= x < w,
        0 <= y < h,
    ensures
        0 <= y * w + x < w * h,
{
    assert(y * w + x < w * h && 0 <= y * w + x) by (nonlinear_arith)
        requires
            0 <= x < w,
            0 <= y < h,
    ;
}

/// The dungeon.
pub struct GameMap {
    tiles: Vec<TileType>,
    rooms: Vec<Rect>,
    width: i32,
    height: i32,
    revealed_tiles: Vec<bool>,
    visible_tiles: Vec<bool>,
    blocked: Vec<bool>,
    tile_content: Vec<Vec<Entity>>,
    dimensions: usize,
}

impl GameMap {
    /// The map as a plain value.
    pub closed spec fn view(&self) -> MapView {
        MapView {
            width: self.width as int,
            height: self.height as int,
            tiles: self.tiles@,
            rooms: self.rooms@,
            revealed: self.revealed_tiles@,
            visible: self.visible_tiles@,
            blocked: self.blocked@,
            content: Seq::new(self.tile_content@.len(), |i: int| self.tile_content@[i]@),
        }
    }

    /// What holds of every map: its view is valid.
    #[verifier::type_invariant]
    pub closed spec fn wf(&self) -> bool {
        self@.valid() && self.dimensions == self@.area()
    }

    /// What holds of every map, said for other files: its view is valid.
    pub proof fn lemma_valid(&self)
        requires
            self.wf(),
        ensures
            self@.valid(),
    {
    }

    /// A map of `width` by `height` walls without rooms, unseen and empty;
    /// nothing where a side is shorter than 1 or longer than [`MAX_SIDE`].
    pub fn with_size(width: i32, height: i32) -> (r: Option<GameMap>)
        ensures
            r.is_some() <==> 0 < width <= MAX_SIDE && 0 < height <= MAX_SIDE,
            r matches Some(map) ==> map@ == MapView::blank(width as int, height as int),
    {
        if width < 1 || width > MAX_SIDE || height < 1 || height > MAX_SIDE {
            return None;
        }
        assert(width * height <= 0x4000_0000 && width * height >= 1) by (nonlinear_arith)
            requires
                0 < width <= 32768,
                0 < height <= 32768,
        ;
        let dimensions: usize = (width as usize) * (height as usize);
        let mut tiles: Vec<TileType> = Vec::new();
        let mut revealed_tiles: Vec<bool> = Vec::new();
        let mut visible_tiles: Vec<bool> = Vec::new();
        let mut blocked: Vec<bool> = Vec::new();
        let mut tile_content: Vec<Vec<Entity>> = Vec::new();
        let mut i: usize = 0;
        while i < dimensions
            invariant
                i <= dimensions,
                tiles@.len() == i,
                revealed_tiles@.len() == i,
                visible_tiles@.len() == i,
                blocked@.len() == i,
                tile_content@.len() == i,
                forall|j: int| 0 <= j < i ==> #[trigger] tiles@[j] == TileType::Wall,
                forall|j: int| 0 <= j < i ==> !#[trigger] revealed_tiles@[j],
                forall|j: int| 0 <= j < i ==> !#[trigger] visible_tiles@[j],
                forall|j: int| 0 <= j < i ==> !#[trigger] blocked@[j],
                forall|j: int| 0 <= j < i ==> (#[trigger] tile_content@[j])@.len() == 0,
            decreases dimensions - i,
        {
            tiles.push(TileType::Wall);
            revealed_tiles.push(false);
            visible_tiles.push(false);
            blocked.push(false);
            tile_content.push(Vec::new());
            i = i + 1;
        }
        let map = GameMap {
            tiles,
            rooms: Vec::new(),
            width,
            height,
            revealed_tiles,
            visible_tiles,
            blocked,
            tile_content,
            dimensions,
        };
        proof {
            let blank = MapView::blank(width as int, height as int);
            assert(dimensions == width * height);
            assert(map@.tiles =~= blank.tiles);
            assert(map@.rooms =~= blank.rooms);
            assert(map@.revealed =~= blank.revealed);
            assert(map@.visible =~= blank.visible);
            assert(map@.blocked =~= blank.blocked);
            assert forall|i: int| 0 <= i < dimensions implies #[trigger] map@.content[i]
                == blank.content[i] by {
                assert(map.tile_content@[i]@ =~= Seq::<Entity>::empty());
            }
            assert(map@.content =~= blank.content);
        }
        Some(map)
    }

    /// The map of the game: [`crate::MAP_WIDTH`] by [`crate::MAP_HEIGHT`]
    /// walls without rooms, unseen and empty.
    pub fn new() -> (map: GameMap)
        ensures
            map@ == MapView::blank(crate::MAP_WIDTH as int, crate::MAP_HEIGHT as int),
    {
        GameMap::with_size(crate::MAP_WIDTH, crate::MAP_HEIGHT).unwrap()
    }

    /// The width in cells.
    pub fn width(&self) -> (w: i32)
        ensures
            w == self@.width,
            0 < w <= MAX_SIDE,
    {
        proof {
            use_type_invariant(self);
        }
        self.width
    }

    /// The height in cells.
    pub fn height(&self) -> (h: i32)
        ensures
            h == self@.height,
            0 < h <= MAX_SIDE,
    {
        proof {
            use_type_invariant(self);
        }
        self.height
    }

    /// The number of cells.
    pub fn area(&self) -> (n: usize)
        ensures
            n == self@.area(),
            self@.valid(),
    {
        proof {
            use_type_invariant(self);
        }
        self.dimensions
    }

    /// Whether `(x, y)` is a cell of the map.
    pub fn in_bounds(&self, x: i32, y: i32) -> (r: bool)
        ensures
            r == self@.contains(x as int, y as int),
    {
        0 <= x && x < self.width && 0 <= y && y < self.height
    }

    /// The index of the cell `(x, y)`.
    pub fn xy_to_idx(&self, x: i32, y: i32) -> (idx: usize)
        requires
            self@.contains(x as int, y as int),
        ensures
            idx == self@.index(x as int, y as int),
            idx < self@.area(),
            self@.col(idx as int) == x,
            self@.row(idx as int) == y,
    {
        proof {
            use_type_invariant(self);
            lemma_index_round_trip(self.width as int, x as int, y as int);
            lemma_index_in_area(self.width as int, self.height as int, x as int, y as int);
        }
        (y as usize * self.width as usize) + x as usize
    }

    /// The index of the cell at `point`.
    pub fn point_to_idx(&self, point: Coord) -> (idx: usize)
        requires
            self@.contains(point.x as int, point.y as int),
        ensures
            idx == self@.index(point.x as int, point.y as int),
            idx < self@.area(),
            self@.col(idx as int) == point.x,
            self@.row(idx as int) == point.y,
    {
        self.xy_to_idx(point.x, point.y)
    }

    /// Column and row of the cell with index `idx`.
    pub fn idx_to_xy(&self, idx: usize) -> (xy: (i32, i32))
        requires
            idx < self@.area(),
        ensures
            xy.0 == self@.col(idx as int),
            xy.1 == self@.row(idx as int),
            self@.contains(xy.0 as int, xy.1 as int),
            self@.index(xy.0 as int, xy.1 as int) == idx,
    {
        proof {
            use_type_invariant(self);
            lemma_cell_of_index(self.width as int, self.height as int, idx as int);
        }
        let w: usize = self.width as usize;
        ((idx % w) as i32, (idx / w) as i32)
    }

    /// What the cell `idx` is made of.
    pub fn tile_at(&self, idx: usize) -> (t: TileType)
        requires
            idx < self@.area(),
        ensures
            t == self@.tiles[idx as int],
    {
        proof {
            use_type_invariant(self);
        }
        self.tiles[idx]
    }

    /// Whether the cell `idx` is closed to movement.
    pub fn is_blocked(&self, idx: usize) -> (b: bool)
        requires
            idx < self@.area(),
        ensures
            b == self@.blocked[idx as int],
    {
        proof {
            use_type_invariant(self);
        }
        self.blocked[idx]
    }

    /// Whether the cell `idx` has ever been seen.
    pub fn is_revealed(&self, idx: usize) -> (b: bool)
        requires
            idx < self@.area(),
        ensures
            b == self@.revealed[idx as int],
    {
        proof {
            use_type_invariant(self);
        }
        self.revealed_tiles[idx]
    }

    /// Whether the cell `idx` is in view now.
    pub fn is_visible(&self, idx: usize) -> (b: bool)
        requires
            idx < self@.area(),
        ensures
            b == self@.visible[idx as int],
    {
        proof {
            use_type_invariant(self);
        }
        self.visible_tiles[idx]
    }

    /// The entities that stand on the cell `idx`, as the last indexing left
    /// them.
    pub fn occupants_at(&self, idx: usize) -> (r: &Vec<Entity>)
        requires
            idx < self@.area(),
        ensures
            r@ == self@.content[idx as int],
    {
        proof {
            use_type_invariant(self);
        }
        &self.tile_content[idx]
    }

    /// The rooms, in the order in which they were accepted.
    pub fn rooms(&self) -> (r: &Vec<Rect>)
        ensures
            r@ == self@.rooms,
    {
        &self.rooms
    }

    /// Makes the cell `idx` a `tile`.
    pub fn set_tile(&mut self, idx: usize, tile: TileType)
        requires
            idx < old(self)@.area(),
        ensures
            final(self)@ == (MapView { tiles: old(self)@.tiles.update(idx as int, tile), ..old(self)@ }),
    {
        proof {
            use_type_invariant(&*self);
        }
        self.tiles[idx] = tile;
        assert(self@.content =~= old(self)@.content);
    }

    /// Closes the cell `idx` to movement.
    pub fn block(&mut self, idx: usize)
        requires
            idx < old(self)@.area(),
        ensures
            final(self)@ == (MapView {
                blocked: old(self)@.blocked.update(idx as int, true),
                ..old(self)@
            }),
    {
        proof {
            use_type_invariant(&*self);
        }
        self.blocked[idx] = true;
        assert(self@.content =~= old(self)@.content);
    }

    /// Notes that `entity` stands on the cell `idx`.
    pub fn add_occupant(&mut self, idx: usize, entity: Entity)
        requires
            idx < old(self)@.area(),
        ensures
            final(self)@ == (MapView {
                content: old(self)@.content.update(
                    idx as int,
                    old(self)@.content[idx as int].push(entity),
                ),
                ..old(self)@
            }),
    {
        proof {
            use_type_invariant(&*self);
        }
        self.tile_content[idx].push(entity);
        assert(self@.content =~= old(self)@.content.update(
            idx as int,
            old(self)@.content[idx as int].push(entity),
        ));
    }

    /// Marks the cell `idx` as seen once and in view now.
    pub fn show(&mut self, idx: usize)
        requires
            idx < old(self)@.area(),
        ensures
            final(self)@ == (MapView {
                revealed: old(self)@.revealed.update(idx as int, true),
                visible: old(self)@.visible.update(idx as int, true),
                ..old(self)@
            }),
    {
        proof {
            use_type_invariant(&*self);
        }
        self.revealed_tiles[idx] = true;
        self.visible_tiles[idx] = true;
        assert(self@.content =~= old(self)@.content);
    }

    /// Marks the cell `idx` as seen once.
    pub fn mark_revealed(&mut self, idx: usize)
        requires
            idx < old(self)@.area(),
        ensures
            final(self)@ == (MapView {
                revealed: old(self)@.revealed.update(idx as int, true),
                ..old(self)@
            }),
    {
        proof {
            use_type_invariant(&*self);
        }
        self.revealed_tiles[idx] = true;
        assert(self@.content =~= old(self)@.content);
    }

    /// Takes every cell out of view.
    pub fn hide_all(&mut self)
        ensures
            final(self)@ == (MapView {
                visible: Seq::new(old(self)@.visible.len(), |i: int| false),
                ..old(self)@
            }),
    {
        proof {
            use_type_invariant(&*self);
        }
        let n: usize = self.visible_tiles.len();
        let mut i: usize = 0;
        while i < n
            invariant
                i <= n,
                n == self.visible_tiles@.len(),
                self.wf(),
                self@ == (MapView { visible: self.visible_tiles@, ..old(self)@ }),
                forall|j: int| 0 <= j < i ==> !#[trigger] self.visible_tiles@[j],
            decreases n - i,
        {
            self.visible_tiles[i] = false;
            i = i + 1;
            assert(self@.content =~= old(self)@.content);
        }
        assert(self@.visible =~= Seq::new(old(self)@.visible.len(), |i: int| false));
    }

    /// Closes every wall to movement and opens every floor.
    pub fn populate_blocked(&mut self)
        ensures
            final(self)@ == (MapView { blocked: old(self)@.opacity(), ..old(self)@ }),
    {
        proof {
            use_type_invariant(&*self);
        }
        let n: usize = self.tiles.len();
        let mut i: usize = 0;
        while i < n
            invariant
                i <= n,
                n == self.tiles@.len(),
                self.wf(),
                self@ == (MapView { blocked: self.blocked@, ..old(self)@ }),
                forall|j: int|
                    0 <= j < i ==> #[trigger] self.blocked@[j] == (self.tiles@[j] == TileType::Wall),
            decreases n - i,
        {
            let wall = self.tiles[i] == TileType::Wall;
            self.blocked[i] = wall;
            i = i + 1;
            assert(self@.content =~= old(self)@.content);
        }
        assert(self@.blocked =~= old(self)@.opacity());
    }

    /// Forgets who stands where.
    pub fn clear_content_index(&mut self)
        ensures
            final(self)@ == (MapView {
                content: Seq::new(old(self)@.content.len(), |i: int| Seq::empty()),
                ..old(self)@
            }),
    {
        proof {
            use_type_invariant(&*self);
        }
        let n: usize = self.tile_content.len();
        let mut i: usize = 0;
        while i < n
            invariant
                i <= n,
                n == self.tile_content@.len(),
                self.wf(),
                self@ == (MapView { content: self@.content, ..old(self)@ }),
                forall|j: int| 0 <= j < i ==> (#[trigger] self.tile_content@[j])@.len() == 0,
            decreases n - i,
        {
            self.tile_content[i].clear();
            i = i + 1;
        }
        assert forall|j: int| 0 <= j < n implies #[trigger] self@.content[j] == Seq::<
            Entity,
        >::empty() by {
            assert(self.tile_content@[j]@ =~= Seq::<Entity>::empty());
        }
        assert(self@.content =~= Seq::new(old(self)@.content.len(), |i: int| Seq::empty()));
    }

    /// Whether one may step onto `(x, y)`.
    pub fn is_exit_valid(&self, x: i32, y: i32) -> (r: bool)
        ensures
            r == self@.exit_valid(x as int, y as int),
    {
        proof {
            use_type_invariant(self);
        }
        if x < 1 || x > self.width - 2 || y < 1 || y > self.height - 2 {
            return false;
        }
        let idx = self.xy_to_idx(x, y);
        !self.blocked[idx]
    }

    /// Appends to `exits` the step from the cell `idx`, which is `(x, y)`,
    /// by `(dx, dy)`, where one may take it.
    fn push_exit(&self, exits: &mut Vec<(usize, u32)>, idx: usize, dx: i32, dy: i32, cost: u32)
        requires
            idx < self@.area(),
            -1 <= dx <= 1,
            -1 <= dy <= 1,
        ensures
            final(exits)@ == old(exits)@ + self@.exit(idx as int, dx as int, dy as int, cost),
    {
        proof {
            use_type_invariant(self);
        }
        let (x, y) = self.idx_to_xy(idx);
        if self.is_exit_valid(x + dx, y + dy) {
            let target = self.xy_to_idx(x + dx, y + dy);
            proof {
                let w = self@.width;
                assert((y + dy) * w + (x + dx) == (y * w + x) + dy * w + dx) by (nonlinear_arith);
            }
            exits.push((target, cost));
            assert(exits@ =~= old(exits)@ + self@.exit(idx as int, dx as int, dy as int, cost));
        } else {
            assert(exits@ =~= old(exits)@ + self@.exit(idx as int, dx as int, dy as int, cost));
        }
    }

    /// The steps one may take from the cell `idx`, each with the cell it
    /// leads to and its cost in hundredths of a straight step.
    pub fn get_available_exits(&self, idx: usize) -> (exits: Vec<(usize, u32)>)
        requires
            idx < self@.area(),
        ensures
            exits@ == self@.exits(idx as int),
    {
        let mut exits: Vec<(usize, u32)> = Vec::new();
        self.push_exit(&mut exits, idx, -1, 0, STRAIGHT_COST);
        assert(exits@ =~= self@.exit(idx as int, -1, 0, STRAIGHT_COST));
        self.push_exit(&mut exits, idx, 1, 0, STRAIGHT_COST);
        self.push_exit(&mut exits, idx, 0, -1, STRAIGHT_COST);
        self.push_exit(&mut exits, idx, 0, 1, STRAIGHT_COST);
        self.push_exit(&mut exits, idx, -1, -1, DIAGONAL_COST);
        self.push_exit(&mut exits, idx, 1, -1, DIAGONAL_COST);
        self.push_exit(&mut exits, idx, -1, 1, DIAGONAL_COST);
        self.push_exit(&mut exits, idx, 1, 1, DIAGONAL_COST);
        exits
    }

    /// Digs `room` out of the rock.  Every cell that the room carves has
    /// to lie on the map.
    fn apply_room_to_map(&mut self, room: &Rect)
        requires
            old(self)@.holds(*room),
        ensures
            final(self)@ == (MapView { tiles: old(self)@.room_dug(*room), ..old(self)@ }),
    {
        proof {
            use_type_invariant(&*self);
        }
        let ghost v = self@;
        if room.x1 >= room.x2 || room.y1 >= room.y2 {
            assert(self@.tiles =~= v.room_dug(*room));
            return ;
        }
        let mut y: i32 = room.y1 + 1;
        while y <= room.y2
            invariant
                self.wf(),
                v == old(self)@,
                v.valid(),
                v.holds(*room),
                room.x1 < room.x2,
                room.y1 < y <= room.y2 + 1,
                self@ == (MapView { tiles: self@.tiles, ..v }),
                forall|i: int|
                    0 <= i < v.area() ==> #[trigger] self@.tiles[i] == if room.inner(
                        v.col(i),
                        v.row(i),
                    ) && v.row(i) < y {
                        TileType::Floor
                    } else {
                        v.tiles[i]
                    },
            decreases room.y2 + 1 - y,
        {
            let mut x: i32 = room.x1 + 1;
            while x <= room.x2
                invariant
                    self.wf(),
                    v.valid(),
                    v.holds(*room),
                    room.y1 < y <= room.y2,
                    room.x1 < x <= room.x2 + 1,
                    self@ == (MapView { tiles: self@.tiles, ..v }),
                    forall|i: int|
                        0 <= i < v.area() ==> #[trigger] self@.tiles[i] == if room.inner(
                            v.col(i),
                            v.row(i),
                        ) && (v.row(i) < y || (v.row(i) == y && v.col(i) < x)) {
                            TileType::Floor
                        } else {
                            v.tiles[i]
                        },
                decreases room.x2 + 1 - x,
            {
                let idx = self.xy_to_idx(x, y);
                let ghost before = self@.tiles;
                self.tiles[idx] = TileType::Floor;
                proof {
                    assert(self@.content =~= v.content);
                    assert forall|i: int| 0 <= i < v.area() implies #[trigger] self@.tiles[i]
                        == if room.inner(v.col(i), v.row(i)) && (v.row(i) < y || (v.row(i) == y
                        && v.col(i) < x + 1)) {
                        TileType::Floor
                    } else {
                        v.tiles[i]
                    } by {
                        lemma_cell_of_index(v.width, v.height, i);
                        assert(self@.tiles[i] == if i == idx {
                            TileType::Floor
                        } else {
                            before[i]
                        });
                    }
                }
                x = x + 1;
            }
            y = y + 1;
        }
        assert(self@.tiles =~= v.room_dug(*room));
    }

    /// Digs the corridor from `(prev_x, prev_y)` to `(new_x, new_y)`: along
    /// the row of the second point between the two columns, and along its
    /// column between the two rows.
    fn apply_tunnels(&mut self, prev_x: i32, prev_y: i32, new_x: i32, new_y: i32)
        requires
            old(self)@.contains(prev_x as int, prev_y as int),
            old(self)@.contains(new_x as int, new_y as int),
        ensures
            final(self)@ == (MapView {
                tiles: old(self)@.tunnel_dug(
                    (prev_x as int, prev_y as int),
                    (new_x as int, new_y as int),
                ),
                ..old(self)@
            }),
    {
        proof {
            use_type_invariant(&*self);
        }
        let ghost v = self@;
        let ghost from = (prev_x as int, prev_y as int);
        let ghost to = (new_x as int, new_y as int);
        let x_end: i32 = if prev_x < new_x { new_x } else { prev_x };
        let mut x: i32 = if prev_x < new_x { prev_x } else { new_x };
        let ghost x_start = x;
        while x <= x_end
            invariant
                self.wf(),
                v.valid(),
                v.contains(prev_x as int, prev_y as int),
                v.contains(new_x as int, new_y as int),
                x_start <= x <= x_end + 1,
                x_start == if prev_x < new_x { prev_x } else { new_x },
                x_end == if prev_x < new_x { new_x } else { prev_x },
                self@ == (MapView { tiles: self@.tiles, ..v }),
                forall|i: int|
                    0 <= i < v.area() ==> #[trigger] self@.tiles[i] == if i > 0 && v.row(i)
                        == new_y && x_start <= v.col(i) < x {
                        TileType::Floor
                    } else {
                        v.tiles[i]
                    },
            decreases x_end + 1 - x,
        {
            let idx = self.xy_to_idx(x, new_y);
            let ghost before = self@.tiles;
            if idx > 0 {
                self.tiles[idx] = TileType::Floor;
            }
            proof {
                assert(self@.content =~= v.content);
                assert forall|i: int| 0 <= i < v.area() implies #[trigger] self@.tiles[i] == if i
                    > 0 && v.row(i) == new_y && x_start <= v.col(i) < x + 1 {
                    TileType::Floor
                } else {
                    v.tiles[i]
                } by {
                    lemma_cell_of_index(v.width, v.height, i);
                    assert(self@.tiles[i] == if i == idx && idx > 0 {
                        TileType::Floor
                    } else {
                        before[i]
                    });
                }
            }
            x = x + 1;
        }
        let y_end: i32 = if prev_y < new_y { new_y } else { prev_y };
        let mut y: i32 = if prev_y < new_y { prev_y } else { new_y };
        let ghost y_start = y;
        while y <= y_end
            invariant
                self.wf(),
                v.valid(),
                v.contains(prev_x as int, prev_y as int),
                v.contains(new_x as int, new_y as int),
                y_start <= y <= y_end + 1,
                y_start == if prev_y < new_y { prev_y } else { new_y },
                y_end == if prev_y < new_y { new_y } else { prev_y },
                x_start == if prev_x < new_x { prev_x } else { new_x },
                x_end == if prev_x < new_x { new_x } else { prev_x },
                self@ == (MapView { tiles: self@.tiles, ..v }),
                forall|i: int|
                    0 <= i < v.area() ==> #[trigger] self@.tiles[i] == if i > 0 && ((v.row(i)
                        == new_y && x_start <= v.col(i) <= x_end) || (v.col(i) == new_x && y_start
                        <= v.row(i) < y)) {
                        TileType::Floor
                    } else {
                        v.tiles[i]
                    },
            decreases y_end + 1 - y,
        {
            let idx = self.xy_to_idx(new_x, y);
            let ghost before = self@.tiles;
            if idx > 0 {
                self.tiles[idx] = TileType::Floor;
            }
            proof {
                assert(self@.content =~= v.content);
                assert forall|i: int| 0 <= i < v.area() implies #[trigger] self@.tiles[i] == if i
                    > 0 && ((v.row(i) == new_y && x_start <= v.col(i) <= x_end) || (v.col(i)
                    == new_x && y_start <= v.row(i) < y + 1)) {
                    TileType::Floor
                } else {
                    v.tiles[i]
                } by {
                    lemma_cell_of_index(v.width, v.height, i);
                    assert(self@.tiles[i] == if i == idx && idx > 0 {
                        TileType::Floor
                    } else {
                        before[i]
                    });
                }
            }
            y = y + 1;
        }
        assert(self@.tiles =~= v.tunnel_dug(from, to));
    }

    /// Whether a room may be dug at `room`.
    pub fn room_fits(&self, room: &Rect) -> (r: bool)
        ensures
            r == self@.fits(*room),
    {
        proof {
            use_type_invariant(self);
        }
        0 <= room.x1 && room.x1 < self.width - 1 && 0 <= room.x2 && room.x2 < self.width - 1 && 0
            <= room.y1 && room.y1 < self.height - 1 && 0 <= room.y2 && room.y2 < self.height - 1
    }

    /// Accepts `room` where it fits on the map and keeps clear of the rooms
    /// accepted so far, and says whether it did.  An accepted room is dug
    /// out and joined to the room accepted before it; a rejected room
    /// leaves the map as it was.
    pub fn place_room(&mut self, room: Rect) -> (accepted: bool)
        ensures
            accepted == (old(self)@.fits(room) && old(self)@.clear_of_rooms(room)),
            final(self)@ == old(self)@.offered(room),
    {
        proof {
            use_type_invariant(&*self);
        }
        if !self.room_fits(&room) {
            return false;
        }
        let mut ok = true;
        let mut i: usize = 0;
        while i < self.rooms.len()
            invariant
                i <= self.rooms@.len(),
                self@ == old(self)@,
                self.wf(),
                ok == forall|j: int| 0 <= j < i ==> !room.overlaps(#[trigger] self@.rooms[j]),
            decreases self.rooms@.len() - i,
        {
            if room.intersect(&self.rooms[i]) {
                ok = false;
            }
            assert(self@.rooms[i as int] == self.rooms@[i as int]);
            i = i + 1;
        }
        if !ok {
            return false;
        }
        self.apply_room_to_map(&room);
        let (new_x, new_y) = room.center();
        if self.rooms.len() > 0 {
            let (prev_x, prev_y) = self.rooms[self.rooms.len() - 1].center();
            proof {
                use_type_invariant(&*self);
                assert(room_fits(self@.width, self@.height, self@.rooms[self@.rooms.len() - 1]));
            }
            self.apply_tunnels(prev_x, prev_y, new_x, new_y);
        }
        proof {
            use_type_invariant(&*self);
        }
        // The room list is built anew and assigned as a whole: a field of
        // a type with an invariant cannot be lent out for a `push`.
        let mut rooms: Vec<Rect> = Vec::new();
        let mut k: usize = 0;
        while k < self.rooms.len()
            invariant
                k <= self.rooms@.len(),
                rooms@ == self.rooms@.take(k as int),
            decreases self.rooms@.len() - k,
        {
            rooms.push(self.rooms[k]);
            k = k + 1;
            assert(rooms@ =~= self.rooms@.take(k as int));
        }
        assert(rooms@ =~= self.rooms@);
        rooms.push(room);
        self.rooms = rooms;
        assert(self@.content =~= old(self)@.content);
        assert(self@ == old(self)@.with_room(room));
        true
    }

    /// Offers each of `rooms` in turn, as [`GameMap::place_room`] does, and
    /// says how many were accepted.
    pub fn place_rooms(&mut self, rooms: &Vec<Rect>) -> (accepted: usize)
        ensures
            final(self)@ == old(self)@.offered_all(rooms@, rooms@.len()),
            accepted == final(self)@.rooms.len() - old(self)@.rooms.len(),
    {
        let mut accepted: usize = 0;
        let mut k: usize = 0;
        while k < rooms.len()
            invariant
                k <= rooms@.len(),
                accepted <= k,
                self@ == old(self)@.offered_all(rooms@, k as nat),
                accepted == self@.rooms.len() - old(self)@.rooms.len(),
            decreases rooms@.len() - k,
        {
            if self.place_room(rooms[k]) {
                accepted = accepted + 1;
            }
            k = k + 1;
        }
        accepted
    }

    /// Fills a new map of `width` by `height` with rooms and corridors.
    /// The generator draws [`MAX_ROOMS`] rooms from `rng`, each of a width
    /// and a height from [`MIN_SIZE`] up to but not including
    /// [`MAX_SIZE`] and at a place where it fits, and offers them in
    /// turn.  The first is always accepted.  There is no map where a side
    /// is shorter than [`MIN_GENERATED_SIDE`] or longer than
    /// [`MAX_SIDE`].
    pub fn generate(rng: &mut rltk::RandomNumberGenerator, width: i32, height: i32) -> (r: Option<
        GameMap,
    >)
        ensures
            r.is_some() <==> MIN_GENERATED_SIDE <= width <= MAX_SIDE && MIN_GENERATED_SIDE
                <= height <= MAX_SIDE,
            r matches Some(map) ==> {
                &&& map@.width == width
                &&& map@.height == height
                &&& map@.generated()
                &&& exists|offers: Seq<Rect>|
                    {
                        &&& offers.len() == MAX_ROOMS
                        &&& forall|k: int|
                            0 <= k < offers.len() ==> drawn(
                                #[trigger] offers[k],
                                width as int,
                                height as int,
                            )
                        &&& map@ == #[trigger] MapView::blank(
                            width as int,
                            height as int,
                        ).offered_all(offers, offers.len())
                    }
            },
    {
        if width < MIN_GENERATED_SIDE || height < MIN_GENERATED_SIDE {
            return None;
        }
        let mut map = match GameMap::with_size(width, height) {
            Some(map) => map,
            None => {
                return None;
            },
        };
        let ghost blank = map@;
        let mut offers: Vec<Rect> = Vec::new();
        let mut attempt: i32 = 0;
        while attempt < MAX_ROOMS
            invariant
                0 <= attempt <= MAX_ROOMS,
                MIN_GENERATED_SIDE <= width <= MAX_SIDE,
                MIN_GENERATED_SIDE <= height <= MAX_SIDE,
                offers@.len() == attempt,
                forall|k: int|
                    0 <= k < offers@.len() ==> drawn(
                        #[trigger] offers@[k],
                        width as int,
                        height as int,
                    ),
            decreases MAX_ROOMS - attempt,
        {
            let w = crate::random::range(rng, MIN_SIZE, MAX_SIZE);
            let h = crate::random::range(rng, MIN_SIZE, MAX_SIZE);
            let x = crate::random::roll_dice(rng, 1, width - w - 1) - 1;
            let y = crate::random::roll_dice(rng, 1, height - h - 1) - 1;
            offers.push(Rect::new(x, y, w, h));
            attempt = attempt + 1;
        }
        map.place_rooms(&offers);
        proof {
            lemma_offered_all(blank, offers@, offers@.len());
        }
        Some(map)
    }

    /// The map of the game, [`crate::MAP_WIDTH`] by [`crate::MAP_HEIGHT`],
    /// filled with rooms and corridors by a generator of its own.
    pub fn new_map_with_rooms_and_corridors() -> (map: GameMap)
        ensures
            map@.width == crate::MAP_WIDTH,
            map@.height == crate::MAP_HEIGHT,
            map@.generated(),
    {
        let mut rng = crate::random::new_generator();
        GameMap::generate(&mut rng, crate::MAP_WIDTH, crate::MAP_HEIGHT).unwrap()
    }
}

} // verus!
