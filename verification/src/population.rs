//! Where the monsters and the items of a room are put.  Making them is left
//! to the caller.

use vstd::prelude::*;
use crate::coord::Coord;
use crate::map::GameMap;
use crate::random::roll_dice;
use crate::rect::Rect;

verus! {

/// The most monsters that a room gets.
pub const MAX_MONSTERS_PER_ROOM: i32 = 4;

/// The most items that a room gets.
pub const MAX_ITEMS_PER_ROOM: i32 = 1;

/// How often a spot is drawn anew because the one drawn before is taken.
pub const SPAWN_TRIES: i32 = 64;

/// The spots of a room at which monsters and items appear.
#[derive(Clone, Debug)]
pub struct RoomPopulation {
    pub monsters: Vec<Coord>,
    pub items: Vec<Coord>,
}

/// Whether no cell occurs twice among `spots`.
pub open spec fn distinct(spots: Seq<Coord>) -> bool {
    forall|i: int, j: int| 0 <= i < j < spots.len() ==> spots[i] != spots[j]
}

/// Whether each of `spots` is a cell that `room` carves.
pub open spec fn all_inside(spots: Seq<Coord>, room: Rect) -> bool {
    forall|i: int| 0 <= i < spots.len() ==> room.inner(#[trigger] spots[i].x as int, spots[i].y as int)
}

/// Whether spots can be drawn in `room`: it is at least one cell wide and
/// high, and its sides are short enough for a die.
pub open spec fn can_hold(room: Rect) -> bool {
    0 < room.x2 - room.x1 < i32::MAX && 0 < room.y2 - room.y1 < i32::MAX
}

/// Puts `spot` at the end of `spots` unless it is among them, and says
/// whether it did.
pub fn add_spot(spots: &mut Vec<Coord>, spot: Coord) -> (added: bool)
    ensures
        added == !old(spots)@.contains(spot),
        final(spots)@ == if added {
            old(spots)@.push(spot)
        } else {
            old(spots)@
        },
{
    let mut k: usize = 0;
    while k < spots.len()
        invariant
            k <= spots@.len(),
            spots@ == old(spots)@,
            forall|j: int| 0 <= j < k ==> spots@[j] != spot,
        decreases spots@.len() - k,
    {
        if spots[k] == spot {
            return false;
        }
        k = k + 1;
    }
    spots.push(spot);
    true
}

/// Draws up to `count` spots in `room` that differ from each other.  A
/// spot that is taken is drawn anew, [`SPAWN_TRIES`] times at most for all
/// spots together, so fewer than `count` spots may come back.
fn scatter(rng: &mut rltk::RandomNumberGenerator, room: &Rect, count: i32) -> (spots: Vec<Coord>)
    requires
        can_hold(*room),
    ensures
        spots@.len() <= count || spots@.len() == 0,
        count >= 1 ==> spots@.len() >= 1,
        distinct(spots@),
        all_inside(spots@, *room),
{
    let mut spots: Vec<Coord> = Vec::new();
    let width: i32 = (room.x2 as i64 - room.x1 as i64) as i32;
    let height: i32 = (room.y2 as i64 - room.y1 as i64) as i32;
    let mut placed: i32 = 0;
    let mut tries: i32 = 0;
    while placed < count && tries < SPAWN_TRIES
        invariant
            can_hold(*room),
            width == room.x2 - room.x1,
            height == room.y2 - room.y1,
            0 <= placed,
            placed <= count || placed == 0,
            0 <= tries <= SPAWN_TRIES,
            spots@.len() == placed,
            tries > 0 ==> placed >= 1,
            distinct(spots@),
            all_inside(spots@, *room),
        decreases (count - placed) + (SPAWN_TRIES - tries),
    {
        let x = room.x1 + roll_dice(rng, 1, width);
        let y = room.y1 + roll_dice(rng, 1, height);
        if add_spot(&mut spots, Coord { x, y }) {
            placed = placed + 1;
        } else {
            tries = tries + 1;
        }
    }
    spots
}

impl GameMap {
    /// Draws the spots at which the monsters and the items of `room`
    /// appear: at least one and at most [`MAX_MONSTERS_PER_ROOM`] spots
    /// for monsters, and at least one and at most [`MAX_ITEMS_PER_ROOM`]
    /// for items.  The spots of each kind differ from each other and lie
    /// on cells that the room carves.  A room without such cells gets
    /// nothing.
    pub fn populate_room(rng: &mut rltk::RandomNumberGenerator, room: &Rect) -> (r: RoomPopulation)
        ensures
            r.monsters@.len() <= MAX_MONSTERS_PER_ROOM,
            r.items@.len() <= MAX_ITEMS_PER_ROOM,
            can_hold(*room) ==> r.monsters@.len() >= 1 && r.items@.len() >= 1,
            distinct(r.monsters@),
            distinct(r.items@),
            all_inside(r.monsters@, *room),
            all_inside(r.items@, *room),
            !can_hold(*room) ==> r.monsters@.len() == 0 && r.items@.len() == 0,
    {
        let wide: i64 = room.x2 as i64 - room.x1 as i64;
        let high: i64 = room.y2 as i64 - room.y1 as i64;
        if wide < 1 || wide >= i32::MAX as i64 || high < 1 || high >= i32::MAX as i64 {
            return RoomPopulation { monsters: Vec::new(), items: Vec::new() };
        }
        let monster_count = roll_dice(rng, 1, MAX_MONSTERS_PER_ROOM);
        let monsters = scatter(rng, room, monster_count);
        let item_count = roll_dice(rng, 1, MAX_ITEMS_PER_ROOM);
        let items = scatter(rng, room, item_count);
        RoomPopulation { monsters, items }
    }
}

} // verus!
