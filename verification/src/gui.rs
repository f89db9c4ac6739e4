//! What the menus and the targeting answer to the player's input.  Drawing
//! them is left to the front end.

use vstd::prelude::*;
use crate::coord::Coord;
use crate::store::{handle_in, live, Entity, EntityStore, Slot};
use crate::systems::visibility_system::VisibilitySystem;
use crate::{MAP_HEIGHT, MAP_WIDTH};

verus! {

/// A key, as far as the game tells keys apart.  `Letter` holds the place of
/// the letter in the alphabet, counted from 0.
#[derive(Clone, Copy, PartialEq, Eq, Structural, Debug)]
pub enum Key {
    Left,
    Right,
    Up,
    Down,
    Numpad1,
    Numpad2,
    Numpad3,
    Numpad4,
    Numpad6,
    Numpad7,
    Numpad8,
    Numpad9,
    Escape,
    Return,
    Letter(u8),
    Other,
}

/// The place of the letter D in the alphabet, counted from 0.
pub const LETTER_D: u8 = 3;

/// The place of the letter G in the alphabet, counted from 0.
pub const LETTER_G: u8 = 6;

/// The place of the letter I in the alphabet, counted from 0.
pub const LETTER_I: u8 = 8;

/// What a menu of items answers.
#[derive(Clone, Copy, PartialEq, Eq, Structural, Debug)]
pub enum ItemMenuResult {
    Cancel,
    NoResponse,
    Selected,
}

/// The entries of the main menu.
#[derive(Clone, Copy, PartialEq, Eq, Structural, Debug)]
pub enum MainMenuSelection {
    NewGame,
    LoadGame,
    Quit,
}

/// What the main menu answers: the entry that is highlighted, or the entry
/// that was chosen.
#[derive(Clone, Copy, PartialEq, Eq, Structural, Debug)]
pub enum MainMenuResult {
    NoSelection { selected: MainMenuSelection },
    Selected { selected: MainMenuSelection },
}

impl MainMenuSelection {
    /// The entry above this one; the last entry is above the first.
    pub open spec fn above(self) -> MainMenuSelection {
        match self {
            MainMenuSelection::NewGame => MainMenuSelection::Quit,
            MainMenuSelection::LoadGame => MainMenuSelection::NewGame,
            MainMenuSelection::Quit => MainMenuSelection::LoadGame,
        }
    }

    /// The entry below this one; the first entry is below the last.
    pub open spec fn below(self) -> MainMenuSelection {
        match self {
            MainMenuSelection::NewGame => MainMenuSelection::LoadGame,
            MainMenuSelection::LoadGame => MainMenuSelection::Quit,
            MainMenuSelection::Quit => MainMenuSelection::NewGame,
        }
    }
}

/// What the main menu answers to `key` while `selection` is highlighted:
/// Escape highlights the last entry, Up and Down move the highlight, Return
/// chooses, and anything else changes nothing.
pub open spec fn main_menu_answer(selection: MainMenuSelection, key: Option<Key>) -> MainMenuResult {
    match key {
        Some(Key::Escape) => MainMenuResult::NoSelection { selected: MainMenuSelection::Quit },
        Some(Key::Up) => MainMenuResult::NoSelection { selected: selection.above() },
        Some(Key::Down) => MainMenuResult::NoSelection { selected: selection.below() },
        Some(Key::Return) => MainMenuResult::Selected { selected: selection },
        _ => MainMenuResult::NoSelection { selected: selection },
    }
}

/// Decides what the main menu answers to `key`.
pub fn main_menu(selection: MainMenuSelection, key: Option<Key>) -> (r: MainMenuResult)
    ensures
        r == main_menu_answer(selection, key),
{
    match key {
        None => MainMenuResult::NoSelection { selected: selection },
        Some(key) => match key {
            Key::Escape => MainMenuResult::NoSelection { selected: MainMenuSelection::Quit },
            Key::Up => MainMenuResult::NoSelection {
                selected: match selection {
                    MainMenuSelection::NewGame => MainMenuSelection::Quit,
                    MainMenuSelection::LoadGame => MainMenuSelection::NewGame,
                    MainMenuSelection::Quit => MainMenuSelection::LoadGame,
                },
            },
            Key::Down => MainMenuResult::NoSelection {
                selected: match selection {
                    MainMenuSelection::NewGame => MainMenuSelection::LoadGame,
                    MainMenuSelection::LoadGame => MainMenuSelection::Quit,
                    MainMenuSelection::Quit => MainMenuSelection::NewGame,
                },
            },
            Key::Return => MainMenuResult::Selected { selected: selection },
            _ => MainMenuResult::NoSelection { selected: selection },
        },
    }
}

/// Whether the entity in slot `i` is an item with a name in the backpack of
/// `owner`.
pub open spec fn carries(s: Seq<Slot>, owner: Entity, i: int) -> bool {
    &&& s[i].alive
    &&& s[i].components.name.is_some()
    &&& s[i].components.in_backpack.is_some()
    &&& s[i].components.in_backpack.unwrap().owner == owner
}

/// The named items among the first `n` slots that lie in the backpack of
/// `owner`, in slot order.
pub open spec fn backpack_of(s: Seq<Slot>, owner: Entity, n: int) -> Seq<Entity>
    decreases n,
{
    if n <= 0 {
        Seq::empty()
    } else if carries(s, owner, n - 1) {
        backpack_of(s, owner, n - 1).push(handle_in(s, n - 1))
    } else {
        backpack_of(s, owner, n - 1)
    }
}

/// What a menu of `items` answers to `key`: Escape cancels, the letter of
/// an entry selects that entry, and anything else is no answer.
pub open spec fn item_menu_answer(items: Seq<Entity>, key: Option<Key>) -> (
    ItemMenuResult,
    Option<Entity>,
) {
    match key {
        Some(Key::Escape) => (ItemMenuResult::Cancel, None),
        Some(Key::Letter(n)) => if n < items.len() {
            (ItemMenuResult::Selected, Some(items[n as int]))
        } else {
            (ItemMenuResult::NoResponse, None)
        },
        _ => (ItemMenuResult::NoResponse, None),
    }
}

/// The named items in the backpack of `owner`, in the order in which a menu
/// lists them.
pub fn backpack(store: &EntityStore, owner: Entity) -> (items: Vec<Entity>)
    ensures
        items@ == backpack_of(store.slots(), owner, store.slots().len() as int),
{
    let mut items: Vec<Entity> = Vec::new();
    let n: usize = store.len();
    let mut i: usize = 0;
    while i < n
        invariant
            i <= n,
            n == store.slots().len(),
            items@ == backpack_of(store.slots(), owner, i as int),
        decreases n - i,
    {
        let c = &store.slots[i].components;
        if store.slots[i].alive && c.name.is_some() {
            match c.in_backpack {
                Some(held) => {
                    if held.owner == owner {
                        items.push(Entity { index: i, generation: store.slots[i].generation });
                    }
                },
                None => {},
            }
        }
        i = i + 1;
    }
    items
}

/// Decides what the menu of the items that `player` carries answers to
/// `key`.
pub fn draw_inventory_menu(store: &EntityStore, player: Entity, key: Option<Key>) -> (r: (
    ItemMenuResult,
    Option<Entity>,
))
    ensures
        r == item_menu_answer(
            backpack_of(store.slots(), player, store.slots().len() as int),
            key,
        ),
{
    let equippable = backpack(store, player);
    match key {
        None => (ItemMenuResult::NoResponse, None),
        Some(Key::Escape) => (ItemMenuResult::Cancel, None),
        Some(Key::Letter(n)) => {
            let selection: usize = n as usize;
            if selection < equippable.len() {
                (ItemMenuResult::Selected, Some(equippable[selection]))
            } else {
                (ItemMenuResult::NoResponse, None)
            }
        },
        Some(_) => (ItemMenuResult::NoResponse, None),
    }
}

/// Decides what the menu of the items to put down answers to `key`.
pub fn draw_drop_item_menu(store: &EntityStore, player: Entity, key: Option<Key>) -> (r: (
    ItemMenuResult,
    Option<Entity>,
))
    ensures
        r == item_menu_answer(
            backpack_of(store.slots(), player, store.slots().len() as int),
            key,
        ),
{
    draw_inventory_menu(store, player, key)
}

/// Decides what the menu of the items to use answers to `key`.
pub fn draw_show_inventory_item_menu(
    store: &EntityStore,
    player: Entity,
    key: Option<Key>,
) -> (r: (ItemMenuResult, Option<Entity>))
    ensures
        r == item_menu_answer(
            backpack_of(store.slots(), player, store.slots().len() as int),
            key,
        ),
{
    draw_inventory_menu(store, player, key)
}

/// Whether `player` can aim at `cell` from `from` with a range of `range`:
/// it sees the cell, and the cell is no farther away than the range.
pub open spec fn can_target(s: Seq<Slot>, player: Entity, from: Coord, range: int, cell: Coord) -> bool {
    &&& live(s, player)
    &&& s[player.index as int].components.viewshed.is_some()
    &&& s[player.index as int].components.viewshed.unwrap().visible_tiles@.contains(cell)
    &&& from.within(cell, range)
}

/// What the targeting answers: a click on a cell that can be aimed at
/// selects it, a click elsewhere cancels, and without a click there is no
/// answer.
pub open spec fn targeting_answer(in_reach: bool, mouse: Coord, left_click: bool) -> (
    ItemMenuResult,
    Option<Coord>,
) {
    if !left_click {
        (ItemMenuResult::NoResponse, None)
    } else if in_reach {
        (ItemMenuResult::Selected, Some(mouse))
    } else {
        (ItemMenuResult::Cancel, None)
    }
}

/// Decides what the targeting answers while the mouse is over `mouse`.
pub fn ranged_targeting(
    store: &EntityStore,
    player: Entity,
    player_pos: Coord,
    range: i32,
    mouse: Coord,
    left_click: bool,
) -> (r: (ItemMenuResult, Option<Coord>))
    ensures
        r == targeting_answer(
            can_target(store.slots(), player, player_pos, range as int, mouse),
            mouse,
            left_click,
        ),
{
    let in_reach = match store.get(player) {
        Some(c) => match &c.viewshed {
            Some(visible) => VisibilitySystem::in_sight(visible, mouse) && player_pos.is_within(
                &mouse,
                range,
            ),
            None => false,
        },
        None => false,
    };
    if in_reach {
        if left_click {
            (ItemMenuResult::Selected, Some(mouse))
        } else {
            (ItemMenuResult::NoResponse, None)
        }
    } else {
        if left_click {
            (ItemMenuResult::Cancel, None)
        } else {
            (ItemMenuResult::NoResponse, None)
        }
    }
}

/// Whether the entity in slot `i` has a name and stands on `(x, y)`.
pub open spec fn named_at(s: Seq<Slot>, x: int, y: int, i: int) -> bool {
    &&& s[i].alive
    &&& s[i].components.name.is_some()
    &&& s[i].components.position.is_some()
    &&& s[i].components.position.unwrap().x == x
    &&& s[i].components.position.unwrap().y == y
}

/// The names of the entities among the first `n` slots that stand on
/// `(x, y)`, in slot order.
pub open spec fn names_at(s: Seq<Slot>, x: int, y: int, n: int) -> Seq<Seq<char>>
    decreases n,
{
    if n <= 0 {
        Seq::empty()
    } else if named_at(s, x, y, n - 1) {
        names_at(s, x, y, n - 1).push(s[n - 1].components.name.unwrap().name@)
    } else {
        names_at(s, x, y, n - 1)
    }
}

/// The names to show beside the mouse at `(mouse_x, mouse_y)`: those of the
/// entities that stand there, and none where the mouse is both right of and
/// below the map.
pub fn tooltip(store: &EntityStore, mouse_x: i32, mouse_y: i32) -> (names: Vec<String>)
    ensures
        Seq::new(names@.len(), |i: int| names@[i]@) == if mouse_x <= MAP_WIDTH || mouse_y
            <= MAP_HEIGHT {
            names_at(store.slots(), mouse_x as int, mouse_y as int, store.slots().len() as int)
        } else {
            Seq::empty()
        },
{
    let mut names: Vec<String> = Vec::new();
    if mouse_x <= MAP_WIDTH || mouse_y <= MAP_HEIGHT {
        let n: usize = store.len();
        let mut i: usize = 0;
        assert(Seq::new(names@.len(), |i: int| names@[i]@) =~= Seq::<Seq<char>>::empty());
        while i < n
            invariant
                i <= n,
                n == store.slots().len(),
                Seq::new(names@.len(), |k: int| names@[k]@) == names_at(
                    store.slots(),
                    mouse_x as int,
                    mouse_y as int,
                    i as int,
                ),
            decreases n - i,
        {
            let c = &store.slots[i].components;
            if store.slots[i].alive {
                match (&c.name, c.position) {
                    (Some(name), Some(position)) => {
                        if position.x == mouse_x && position.y == mouse_y {
                            let ghost before = Seq::new(names@.len(), |k: int| names@[k]@);
                            names.push(name.name.clone());
                            assert(Seq::new(names@.len(), |k: int| names@[k]@) =~= before.push(
                                name.name@,
                            ));
                        }
                    },
                    _ => {},
                }
            }
            i = i + 1;
        }
    } else {
        assert(Seq::new(names@.len(), |i: int| names@[i]@) =~= Seq::<Seq<char>>::empty());
    }
    names
}

} // verus!
