//! What the player's keys do to the world.

use vstd::prelude::*;
use crate::components::{Components, Position, WantsToMelee, WantsToPickupItem};
use crate::coord::Coord;
use crate::gui::{Key, MainMenuSelection, LETTER_D, LETTER_G, LETTER_I};
use crate::map::{GameMap, MapView};
use crate::state::{RunState, State, StateView};
use crate::store::{carried_in, handle_in, live, same_cast, Entity, EntityStore, Slot};

verus! {

/// The index of the cell onto which the entity in slot `i` tries to step
/// when the player moves by `(dx, dy)`: the entity lives, is a player with
/// a viewshed, and the cell lies on the map.
pub open spec fn step_target(s: Seq<Slot>, v: MapView, dx: int, dy: int, i: int) -> Option<int> {
    let c = s[i].components;
    if s[i].alive && c.player.is_some() && c.position.is_some() && c.viewshed.is_some()
        && v.contains(c.position.unwrap().x + dx, c.position.unwrap().y + dy) {
        Some(v.index(c.position.unwrap().x + dx, c.position.unwrap().y + dy))
    } else {
        None
    }
}

/// The last of the first `n` of `here` that lives and has health.
pub open spec fn foe_among(s: Seq<Slot>, here: Seq<Entity>, n: int) -> Option<Entity>
    decreases n,
{
    if n <= 0 {
        None
    } else if carried_in(s, here[n - 1]).combat_stats.is_some() {
        Some(here[n - 1])
    } else {
        foe_among(s, here, n - 1)
    }
}

/// Whether the slot `b` is the slot `a` after a try to step onto the cell
/// `idx`: it wishes to strike the last fighter on that cell, if there is
/// one, and where the cell is open it stands there with a dirty viewshed.
pub open spec fn walked(a: Slot, b: Slot, s: Seq<Slot>, v: MapView, idx: int) -> bool {
    let foe = foe_among(s, v.content[idx], v.content[idx].len() as int);
    &&& b.alive == a.alive
    &&& b.generation == a.generation
    &&& a.components.viewshed.is_some()
    &&& b.components.viewshed.is_some()
    &&& b.components == (Components {
        wants_to_melee: match foe {
            Some(target) => Some(WantsToMelee { target }),
            None => a.components.wants_to_melee,
        },
        position: if v.blocked[idx] {
            a.components.position
        } else {
            Some(Position { x: v.col(idx) as i32, y: v.row(idx) as i32 })
        },
        viewshed: b.components.viewshed,
        ..a.components
    })
    &&& b.components.viewshed.unwrap().visible_tiles == a.components.viewshed.unwrap().visible_tiles
    &&& b.components.viewshed.unwrap().range == a.components.viewshed.unwrap().range
    &&& b.components.viewshed.unwrap().dirty == (a.components.viewshed.unwrap().dirty
        || !v.blocked[idx])
}

/// Where the player stands after the players among the first `n` slots
/// have tried to move by `(dx, dy)`: where the last of them that moved
/// stands, and at `start` where none moved.
pub open spec fn stand_after(s: Seq<Slot>, v: MapView, dx: int, dy: int, start: Coord, n: int) -> Coord
    decreases n,
{
    if n <= 0 {
        start
    } else {
        match step_target(s, v, dx, dy, n - 1) {
            Some(idx) => if v.blocked[idx] {
                stand_after(s, v, dx, dy, start, n - 1)
            } else {
                Coord { x: v.col(idx) as i32, y: v.row(idx) as i32 }
            },
            None => stand_after(s, v, dx, dy, start, n - 1),
        }
    }
}

/// Whether `b` is `a` after the player has tried to move by `(dx, dy)` on
/// the map `v`.
pub open spec fn moved(a: Seq<Slot>, b: Seq<Slot>, v: MapView, dx: int, dy: int) -> bool {
    &&& b.len() == a.len()
    &&& forall|i: int|
        0 <= i < a.len() ==> match step_target(a, v, dx, dy, i) {
            Some(idx) => walked(a[i], #[trigger] b[i], a, v, idx),
            None => b[i] == a[i],
        }
}

/// The fighter, if any, that the player strikes on the cell `idx`.
fn foe_at(store: &EntityStore, map: &GameMap, idx: usize) -> (foe: Option<Entity>)
    requires
        idx < map@.area(),
    ensures
        foe == foe_among(
            store.slots(),
            map@.content[idx as int],
            map@.content[idx as int].len() as int,
        ),
{
    let here = map.occupants_at(idx);
    let mut foe: Option<Entity> = None;
    let mut k: usize = 0;
    while k < here.len()
        invariant
            k <= here@.len(),
            foe == foe_among(store.slots(), here@, k as int),
        decreases here@.len() - k,
    {
        let has_stats = match store.get(here[k]) {
            Some(c) => c.combat_stats.is_some(),
            None => false,
        };
        if has_stats {
            foe = Some(here[k]);
        }
        k = k + 1;
    }
    foe
}

/// Lets the player try to move by `(delta_x, delta_y)`.  A fighter on the
/// cell ahead becomes the target of a wish to strike; where the cell is
/// open the player steps onto it, its viewshed becomes dirty, and
/// `player_pos` follows.  Nothing happens where the cell ahead is off the
/// map.
pub fn try_move_player(
    delta_x: i32,
    delta_y: i32,
    store: &mut EntityStore,
    map: &GameMap,
    player_pos: &mut Coord,
)
    ensures
        old(store).same_entities(final(store)),
        moved(old(store).slots(), final(store).slots(), map@, delta_x as int, delta_y as int),
        *final(player_pos) == stand_after(
            old(store).slots(),
            map@,
            delta_x as int,
            delta_y as int,
            *old(player_pos),
            old(store).slots().len() as int,
        ),
{
    let ghost s0 = store.slots();
    let ghost v = map@;
    let ghost dx = delta_x as int;
    let ghost dy = delta_y as int;
    let n: usize = store.len();
    let mut i: usize = 0;
    while i < n
        invariant
            i <= n,
            n == s0.len(),
            store.slots().len() == n,
            v == map@,
            dx == delta_x,
            dy == delta_y,
            forall|j: int|
                0 <= j < n ==> (#[trigger] store.slots()[j]).alive == s0[j].alive
                    && store.slots()[j].generation == s0[j].generation,
            forall|j: int|
                0 <= j < n ==> if j < i {
                    match step_target(s0, v, dx, dy, j) {
                        Some(idx) => walked(s0[j], #[trigger] store.slots()[j], s0, v, idx),
                        None => store.slots()[j] == s0[j],
                    }
                } else {
                    store.slots()[j] == s0[j]
                },
            forall|e: Entity|
                (#[trigger] carried_in(store.slots(), e)).combat_stats == carried_in(
                    s0,
                    e,
                ).combat_stats,
            *player_pos == stand_after(s0, v, dx, dy, *old(player_pos), i as int),
        decreases n - i,
    {
        let ghost before = store.slots();
        let c = &store.slots[i].components;
        if store.slots[i].alive && c.player.is_some() && c.viewshed.is_some() {
            match c.position {
                Some(pos) => {
                    let nx: i64 = pos.x as i64 + delta_x as i64;
                    let ny: i64 = pos.y as i64 + delta_y as i64;
                    if 0 <= nx && nx < map.width() as i64 && 0 <= ny && ny < map.height() as i64 {
                        let destination_idx = map.xy_to_idx(nx as i32, ny as i32);
                        let foe = foe_at(store, map, destination_idx);
                        proof {
                            let here = v.content[destination_idx as int];
                            lemma_foe_among_same(before, s0, here, here.len() as int);
                        }
                        match foe {
                            Some(target) => {
                                store.slots[i].components.wants_to_melee = Some(
                                    WantsToMelee { target },
                                );
                            },
                            None => {},
                        }
                        if !map.is_blocked(destination_idx) {
                            let x = nx as i32;
                            let y = ny as i32;
                            store.slots[i].components.position = Some(Position { x, y });
                            match &mut store.slots[i].components.viewshed {
                                Some(viewshed) => {
                                    viewshed.dirty = true;
                                },
                                None => {},
                            }
                            player_pos.x = x;
                            player_pos.y = y;
                        }
                    }
                },
                None => {},
            }
        }
        proof {
            assert forall|j: int| 0 <= j < n implies if j < i + 1 {
                match step_target(s0, v, dx, dy, j) {
                    Some(idx) => walked(s0[j], #[trigger] store.slots()[j], s0, v, idx),
                    None => store.slots()[j] == s0[j],
                }
            } else {
                store.slots()[j] == s0[j]
            } by {
                if j != i {
                    assert(store.slots()[j] == before[j]);
                }
            }
            assert forall|e: Entity|
                (#[trigger] carried_in(store.slots(), e)).combat_stats == carried_in(
                    s0,
                    e,
                ).combat_stats by {
                assert(carried_in(before, e).combat_stats == carried_in(s0, e).combat_stats);
                if e.index < n {
                    assert(store.slots()[e.index as int].alive == s0[e.index as int].alive);
                    assert(before[e.index as int].alive == s0[e.index as int].alive);
                }
            }
        }
        i = i + 1;
    }
}

/// Stores in which everybody has the same health find the same fighter.
pub proof fn lemma_foe_among_same(a: Seq<Slot>, b: Seq<Slot>, here: Seq<Entity>, n: int)
    requires
        forall|e: Entity|
            (#[trigger] carried_in(a, e)).combat_stats == carried_in(b, e).combat_stats,
    ensures
        foe_among(a, here, n) == foe_among(b, here, n),
    decreases n,
{
    if n > 0 {
        lemma_foe_among_same(a, b, here, n - 1);
        assert(carried_in(a, here[n - 1]).combat_stats == carried_in(b, here[n - 1]).combat_stats);
    }
}

/// The last item among the first `n` slots that lies on the cell `at`.
pub open spec fn loot_at(s: Seq<Slot>, at: Coord, n: int) -> Option<Entity>
    decreases n,
{
    if n <= 0 {
        None
    } else {
        let c = s[n - 1].components;
        if s[n - 1].alive && c.item.is_some() && c.position.is_some() && c.position.unwrap().x
            == at.x && c.position.unwrap().y == at.y {
            Some(handle_in(s, n - 1))
        } else {
            loot_at(s, at, n - 1)
        }
    }
}

/// `s` after the player has reached for what lies on the cell `at`: where
/// the player lives and an item lies there, the player wishes to pick up
/// the last such item.
pub open spec fn reached(s: Seq<Slot>, player: Entity, at: Coord) -> Seq<Slot> {
    match loot_at(s, at, s.len() as int) {
        Some(item) => if live(s, player) {
            s.update(
                player.index as int,
                Slot {
                    components: Components {
                        wants_to_pickup: Some(WantsToPickupItem { collected_by: player, item }),
                        ..s[player.index as int].components
                    },
                    ..s[player.index as int]
                },
            )
        } else {
            s
        },
        None => s,
    }
}

/// Lets the player reach for what lies where it stands.
pub fn get_item(store: &mut EntityStore, player_pos: Coord, player_entity: Entity)
    ensures
        final(store).slots() == reached(old(store).slots(), player_entity, player_pos),
        old(store).same_entities(final(store)),
{
    let n: usize = store.len();
    let mut found: Option<Entity> = None;
    let mut i: usize = 0;
    while i < n
        invariant
            i <= n,
            n == store.slots().len(),
            store.slots() == old(store).slots(),
            found == loot_at(store.slots(), player_pos, i as int),
        decreases n - i,
    {
        let c = &store.slots[i].components;
        if store.slots[i].alive && c.item.is_some() {
            match c.position {
                Some(position) => {
                    if position.x == player_pos.x && position.y == player_pos.y {
                        found = Some(Entity { index: i, generation: store.slots[i].generation });
                    }
                },
                None => {},
            }
        }
        i = i + 1;
    }
    match found {
        Some(item) => {
            if store.is_alive(player_entity) {
                store.slots[player_entity.index].components.wants_to_pickup = Some(
                    WantsToPickupItem { collected_by: player_entity, item },
                );
                assert(store.slots() =~= reached(old(store).slots(), player_entity, player_pos));
            }
        },
        None => {},
    }
}

/// The step that a key asks for, if it asks for one.
pub open spec fn key_step(key: Key) -> Option<(int, int)> {
    match key {
        Key::Numpad1 => Some((-1, 1)),
        Key::Numpad2 | Key::Down => Some((0, 1)),
        Key::Numpad3 => Some((1, 1)),
        Key::Numpad4 | Key::Left => Some((-1, 0)),
        Key::Numpad6 | Key::Right => Some((1, 0)),
        Key::Numpad7 => Some((-1, -1)),
        Key::Numpad8 | Key::Up => Some((0, -1)),
        Key::Numpad9 => Some((1, -1)),
        _ => None,
    }
}

/// Whether `next` and `answer` are what the key `key` makes of the state
/// `state` while the game waits for input: a step key moves the player, G
/// reaches for an item, and both end the wait with the player's turn; I, D
/// and Escape open the inventory, the drop menu and the main menu; without
/// a key, or with another, the game waits on.  The answer is the state in
/// which the game goes on.
pub open spec fn input_taken(state: StateView, key: Option<Key>, next: StateView, answer: RunState) -> bool {
    &&& next.map == state.map
    &&& next.lines == state.lines
    &&& next.player == state.player
    &&& same_cast(state.slots, next.slots)
    &&& match key {
        None => answer == RunState::AwaitingInput && next.slots == state.slots && next.player_pos
            == state.player_pos,
        Some(key) => match key_step(key) {
            Some((dx, dy)) => {
                &&& answer == RunState::PlayerTurn
                &&& moved(state.slots, next.slots, state.map, dx, dy)
                &&& next.player_pos == stand_after(
                    state.slots,
                    state.map,
                    dx,
                    dy,
                    state.player_pos,
                    state.slots.len() as int,
                )
            },
            None => {
                &&& next.player_pos == state.player_pos
                &&& next.slots == if key == Key::Letter(LETTER_G) {
                    reached(state.slots, state.player, state.player_pos)
                } else {
                    state.slots
                }
                &&& answer == if key == Key::Letter(LETTER_G) {
                    RunState::PlayerTurn
                } else if key == Key::Letter(LETTER_I) {
                    RunState::ShowInventory
                } else if key == Key::Letter(LETTER_D) {
                    RunState::ShowDropItem
                } else if key == Key::Escape {
                    RunState::MainMenu { menu_selection: MainMenuSelection::Quit }
                } else {
                    RunState::AwaitingInput
                }
            },
        },
    }
}

/// Takes the player's key while the game waits for input, and says in
/// which state the game goes on.
pub fn player_input(state: &mut State, key: Option<Key>) -> (answer: RunState)
    ensures
        input_taken(old(state)@, key, final(state)@, answer),
        final(state).run_state == old(state).run_state,
{
    match key {
        None => {
            return RunState::AwaitingInput;
        },
        Some(key) => match key {
            Key::Numpad1 => try_move_player(-1, 1, &mut state.ecs, &state.map, &mut state.player_pos),
            Key::Numpad2 | Key::Down => try_move_player(
                0,
                1,
                &mut state.ecs,
                &state.map,
                &mut state.player_pos,
            ),
            Key::Numpad3 => try_move_player(1, 1, &mut state.ecs, &state.map, &mut state.player_pos),
            Key::Numpad4 | Key::Left => try_move_player(
                -1,
                0,
                &mut state.ecs,
                &state.map,
                &mut state.player_pos,
            ),
            Key::Numpad6 | Key::Right => try_move_player(
                1,
                0,
                &mut state.ecs,
                &state.map,
                &mut state.player_pos,
            ),
            Key::Numpad7 => try_move_player(
                -1,
                -1,
                &mut state.ecs,
                &state.map,
                &mut state.player_pos,
            ),
            Key::Numpad8 | Key::Up => try_move_player(
                0,
                -1,
                &mut state.ecs,
                &state.map,
                &mut state.player_pos,
            ),
            Key::Numpad9 => try_move_player(1, -1, &mut state.ecs, &state.map, &mut state.player_pos),
            Key::Letter(letter) => {
                if letter == LETTER_G {
                    get_item(&mut state.ecs, state.player_pos, state.player);
                } else if letter == LETTER_I {
                    return RunState::ShowInventory;
                } else if letter == LETTER_D {
                    return RunState::ShowDropItem;
                } else {
                    return RunState::AwaitingInput;
                }
            },
            Key::Escape => {
                return RunState::MainMenu { menu_selection: MainMenuSelection::Quit };
            },
            _ => {
                return RunState::AwaitingInput;
            },
        },
    }
    RunState::PlayerTurn
}

} // verus!
