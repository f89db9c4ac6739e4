use rouge::components::{
    BlocksTile, CombatStats, Components, InBackpack, Item, Monster, Name, Player, Position, Ranged,
    Viewshed, WantsToMelee, WantsToPickupItem, WantsToUseItem,
};
use rouge::coord::Coord;
use rouge::gui::{
    backpack, draw_drop_item_menu, draw_inventory_menu, draw_show_inventory_item_menu, main_menu,
    ranged_targeting, tooltip, ItemMenuResult, Key, MainMenuResult, MainMenuSelection, LETTER_D,
    LETTER_G, LETTER_I,
};
use rouge::map::{GameMap, TileType};
use rouge::player::{get_item, player_input, try_move_player};
use rouge::state::{Input, RunState, State, TickOutcome};
use rouge::store::{Entity, EntityStore};
use rouge::systems::monster_ai_system::{NavigationPath, PathQuery};
use rouge::systems::{MapIndexingSystem, MonsterAI, VisibilitySystem};

fn floor_map(width: i32, height: i32) -> GameMap {
    let mut map = GameMap::with_size(width, height).unwrap();
    for idx in 0..map.area() {
        map.set_tile(idx, TileType::Floor);
    }
    map.populate_blocked();
    map
}

fn body(name: &str, x: i32, y: i32) -> Components {
    let mut c = Components::new();
    c.name = Some(Name { name: name.to_string() });
    c.position = Some(Position { x, y });
    c
}

fn watcher(name: &str, x: i32, y: i32, range: i32) -> Components {
    let mut c = body(name, x, y);
    c.viewshed = Some(Viewshed { visible_tiles: Vec::new(), range, dirty: true });
    c
}

fn the_player(x: i32, y: i32) -> Components {
    let mut c = watcher("Player", x, y, 8);
    c.player = Some(Player {});
    c.combat_stats = Some(CombatStats { max_hp: 30, hp: 30, defense: 2, power: 5 });
    c
}

fn a_monster(name: &str, x: i32, y: i32) -> Components {
    let mut c = watcher(name, x, y, 8);
    c.monster = Some(Monster {});
    c.blocks_tile = Some(BlocksTile {});
    c.combat_stats = Some(CombatStats { max_hp: 16, hp: 16, defense: 1, power: 4 });
    c
}

fn edit(store: &mut EntityStore, e: Entity, change: impl Fn(&mut Components)) {
    let mut c = store.get(e).unwrap().clone();
    change(&mut c);
    store.replace(e, c);
}

fn pos(store: &EntityStore, e: Entity) -> (i32, i32) {
    let p = store.get(e).unwrap().position.unwrap();
    (p.x, p.y)
}

fn quiet() -> Input {
    Input { key: None, mouse: Coord { x: 0, y: 0 }, left_click: false }
}

fn press(key: Key) -> Input {
    Input { key: Some(key), mouse: Coord { x: 0, y: 0 }, left_click: false }
}

fn game(store: EntityStore, map: GameMap, player: Entity, x: i32, y: i32) -> State {
    State::new(store, map, player, Coord { x, y }, "Welcome!".to_string())
}

#[test]
fn indexing_notes_occupants_and_blockers() {
    let mut store = EntityStore::new();
    let a = store.spawn(body("a", 2, 1));
    let mut blocker = body("b", 2, 1);
    blocker.blocks_tile = Some(BlocksTile {});
    let b = store.spawn(blocker);
    let c = store.spawn(body("c", 3, 3));
    let off = store.spawn(body("off", 9, 9));
    let mut map = GameMap::with_size(5, 5).unwrap();
    map.set_tile(7, TileType::Floor);
    map.set_tile(18, TileType::Floor);
    map.set_tile(19, TileType::Floor);
    map.add_occupant(0, off);
    MapIndexingSystem {}.run(&store, &mut map);
    assert_eq!(map.occupants_at(7), &vec![a, b]);
    assert_eq!(map.occupants_at(18), &vec![c]);
    assert!(map.occupants_at(0).is_empty());
    assert!(map.is_blocked(7));
    assert!(!map.is_blocked(18));
    assert!(!map.is_blocked(19));
    assert!(map.is_blocked(0));
    store.delete(a);
    MapIndexingSystem {}.run(&store, &mut map);
    assert_eq!(map.occupants_at(7), &vec![b]);
}

#[test]
fn visibility_refreshes_dirty_viewsheds_and_reveals() {
    let mut store = EntityStore::new();
    let player = store.spawn(the_player(5, 5));
    let monster = store.spawn(a_monster("Orc", 15, 5));
    let mut clean = watcher("Idle", 2, 2, 3);
    clean.viewshed = Some(Viewshed { visible_tiles: vec![Coord { x: 9, y: 9 }], range: 3, dirty: false });
    let idle = store.spawn(clean);
    let mut map = floor_map(30, 11);
    VisibilitySystem {}.run(&mut store, &mut map);
    let seen = store.get(player).unwrap().viewshed.clone().unwrap();
    assert!(!seen.dirty);
    assert_eq!(seen.range, 8);
    assert!(seen.visible_tiles.contains(&Coord { x: 5, y: 5 }));
    assert!(seen.visible_tiles.contains(&Coord { x: 12, y: 5 }));
    assert!(!seen.visible_tiles.contains(&Coord { x: 15, y: 5 }));
    for c in seen.visible_tiles.iter() {
        let idx = map.xy_to_idx(c.x, c.y);
        assert!(map.is_visible(idx));
        assert!(map.is_revealed(idx));
    }
    let by_monster = store.get(monster).unwrap().viewshed.clone().unwrap();
    assert!(!by_monster.dirty);
    assert!(by_monster.visible_tiles.contains(&Coord { x: 20, y: 5 }));
    let far = map.xy_to_idx(20, 5);
    assert!(map.is_revealed(far));
    assert!(!map.is_visible(far));
    let untouched = store.get(idle).unwrap().viewshed.clone().unwrap();
    assert_eq!(untouched.visible_tiles, vec![Coord { x: 9, y: 9 }]);
    let visible = (0..map.area()).filter(|&i| map.is_visible(i)).count();
    assert_eq!(visible, seen.visible_tiles.len());
}

#[test]
fn visibility_is_the_same_when_nothing_moved() {
    let mut store = EntityStore::new();
    let player = store.spawn(the_player(5, 5));
    let mut map = floor_map(30, 11);
    VisibilitySystem {}.run(&mut store, &mut map);
    let first = store.get(player).unwrap().viewshed.clone().unwrap().visible_tiles;
    edit(&mut store, player, |c| c.viewshed.as_mut().unwrap().dirty = true);
    VisibilitySystem {}.run(&mut store, &mut map);
    let second = store.get(player).unwrap().viewshed.clone().unwrap().visible_tiles;
    assert_eq!(first, second);
}

#[test]
fn watcher_off_the_map_is_left_dirty() {
    let mut store = EntityStore::new();
    let lost = store.spawn(watcher("Lost", 40, 5, 8));
    let blind = store.spawn(watcher("Blind", 5, 5, 23171));
    let mut map = floor_map(30, 11);
    VisibilitySystem {}.run(&mut store, &mut map);
    assert!(store.get(lost).unwrap().viewshed.clone().unwrap().dirty);
    assert!(store.get(blind).unwrap().viewshed.clone().unwrap().dirty);
}

#[test]
fn watcher_with_a_wide_or_a_negative_range_looks_anew() {
    let mut store = EntityStore::new();
    let far = store.spawn(watcher("Far", 5, 5, 2000));
    let odd = store.spawn(watcher("Odd", 20, 5, -2));
    let mut map = floor_map(30, 11);
    VisibilitySystem {}.run(&mut store, &mut map);
    let seen = store.get(far).unwrap().viewshed.clone().unwrap();
    assert!(!seen.dirty);
    assert_eq!(seen.range, 2000);
    assert_eq!(seen.visible_tiles.len(), 330);
    let seen = store.get(odd).unwrap().viewshed.clone().unwrap();
    assert!(!seen.dirty);
    assert!(seen.visible_tiles.contains(&Coord { x: 20, y: 5 }));
    assert!(seen.visible_tiles.contains(&Coord { x: 22, y: 5 }));
    assert!(!seen.visible_tiles.contains(&Coord { x: 23, y: 5 }));
}

#[test]
fn see_stores_what_it_is_given() {
    let mut store = EntityStore::new();
    let player = store.spawn(the_player(1, 1));
    let mut map = floor_map(5, 5);
    map.show(24);
    VisibilitySystem::see(&mut store, &mut map, player.index, vec![Coord { x: 1, y: 1 }, Coord { x: 2, y: 1 }, Coord { x: 7, y: 7 }]);
    let v = store.get(player).unwrap().viewshed.clone().unwrap();
    assert_eq!(v.visible_tiles.len(), 3);
    assert!(!v.dirty);
    assert!(map.is_visible(6) && map.is_visible(7));
    assert!(!map.is_visible(24) && map.is_revealed(24));
    VisibilitySystem::see(&mut store, &mut map, 17, vec![Coord { x: 0, y: 0 }]);
    assert!(!map.is_revealed(0));
}

fn hunt_setup() -> (EntityStore, GameMap, Entity, Entity) {
    let mut store = EntityStore::new();
    let player = store.spawn(the_player(2, 2));
    let mut orc = a_monster("Orc", 6, 2);
    orc.viewshed = Some(Viewshed {
        visible_tiles: vec![Coord { x: 2, y: 2 }, Coord { x: 6, y: 2 }],
        range: 8,
        dirty: false,
    });
    let orc = store.spawn(orc);
    (store, floor_map(10, 5), player, orc)
}

#[test]
fn hunter_wants_a_path_from_its_cell_to_the_player() {
    let (store, map, _player, orc) = hunt_setup();
    let wanted = MonsterAI::queries(&store, &map, Coord { x: 2, y: 2 });
    assert_eq!(wanted, vec![PathQuery { entity: orc, start: 26, end: 22 }]);
    assert!(MonsterAI::queries(&store, &map, Coord { x: 3, y: 3 }).is_empty());
}

#[test]
fn monster_with_a_path_of_five_moves_one_cell() {
    let (mut store, map, _player, orc) = hunt_setup();
    let path = NavigationPath { destination: 22, success: true, steps: vec![26, 25, 24, 23, 22] };
    MonsterAI {}.run(&mut store, &map, Coord { x: 2, y: 2 }, &vec![path]);
    assert_eq!(pos(&store, orc), (5, 2));
    assert!(store.get(orc).unwrap().viewshed.clone().unwrap().dirty);
    let path = NavigationPath { destination: 22, success: true, steps: vec![25, 24, 23, 22] };
    MonsterAI {}.run(&mut store, &map, Coord { x: 2, y: 2 }, &vec![path]);
    assert_eq!(pos(&store, orc), (4, 2));
}

#[test]
fn monster_stays_when_the_path_is_short_or_the_search_failed() {
    let (mut store, map, _player, orc) = hunt_setup();
    let goal = Coord { x: 2, y: 2 };
    let one = NavigationPath { destination: 22, success: true, steps: vec![26] };
    MonsterAI {}.run(&mut store, &map, goal, &vec![one]);
    assert_eq!(pos(&store, orc), (6, 2));
    let failed = NavigationPath { destination: 22, success: false, steps: vec![26, 25, 24] };
    MonsterAI {}.run(&mut store, &map, goal, &vec![failed]);
    assert_eq!(pos(&store, orc), (6, 2));
    let wild = NavigationPath { destination: 22, success: true, steps: vec![26, 999] };
    MonsterAI {}.run(&mut store, &map, goal, &vec![wild]);
    assert_eq!(pos(&store, orc), (6, 2));
    MonsterAI {}.run(&mut store, &map, goal, &Vec::new());
    assert_eq!(pos(&store, orc), (6, 2));
    assert!(!store.get(orc).unwrap().viewshed.clone().unwrap().dirty);
}

#[test]
fn monster_that_does_not_see_the_player_takes_no_path() {
    let (mut store, map, _player, orc) = hunt_setup();
    let mut blind = a_monster("Bat", 8, 3);
    blind.viewshed = Some(Viewshed { visible_tiles: Vec::new(), range: 8, dirty: false });
    let bat = store.spawn(blind);
    let mut second = a_monster("Goblin", 7, 1);
    second.viewshed =
        Some(Viewshed { visible_tiles: vec![Coord { x: 2, y: 2 }], range: 8, dirty: false });
    let goblin = store.spawn(second);
    let paths = vec![
        NavigationPath { destination: 22, success: true, steps: vec![26, 25] },
        NavigationPath { destination: 22, success: true, steps: vec![17, 16] },
    ];
    MonsterAI {}.run(&mut store, &map, Coord { x: 2, y: 2 }, &paths);
    assert_eq!(pos(&store, orc), (5, 2));
    assert_eq!(pos(&store, bat), (8, 3));
    assert_eq!(pos(&store, goblin), (6, 1));
}

#[test]
fn player_steps_onto_an_open_cell() {
    let mut store = EntityStore::new();
    let player = store.spawn(the_player(2, 2));
    edit(&mut store, player, |c| c.viewshed.as_mut().unwrap().dirty = false);
    let mut map = floor_map(6, 6);
    MapIndexingSystem {}.run(&store, &mut map);
    let mut at = Coord { x: 2, y: 2 };
    try_move_player(1, -1, &mut store, &map, &mut at);
    assert_eq!(pos(&store, player), (3, 1));
    assert_eq!(at, Coord { x: 3, y: 1 });
    assert!(store.get(player).unwrap().viewshed.clone().unwrap().dirty);
    assert!(store.get(player).unwrap().wants_to_melee.is_none());
}

#[test]
fn player_does_not_walk_into_walls_or_off_the_map() {
    let mut store = EntityStore::new();
    let player = store.spawn(the_player(0, 1));
    edit(&mut store, player, |c| c.viewshed.as_mut().unwrap().dirty = false);
    let mut map = floor_map(6, 6);
    map.set_tile(7, TileType::Wall);
    MapIndexingSystem {}.run(&store, &mut map);
    let mut at = Coord { x: 0, y: 1 };
    try_move_player(1, 0, &mut store, &map, &mut at);
    assert_eq!(pos(&store, player), (0, 1));
    try_move_player(-1, 0, &mut store, &map, &mut at);
    assert_eq!(pos(&store, player), (0, 1));
    assert_eq!(at, Coord { x: 0, y: 1 });
    assert!(!store.get(player).unwrap().viewshed.clone().unwrap().dirty);
}

#[test]
fn player_strikes_the_fighter_ahead() {
    let mut store = EntityStore::new();
    let player = store.spawn(the_player(2, 2));
    let orc = store.spawn(a_monster("Orc", 3, 2));
    let mut lying = body("Potion", 2, 3);
    lying.item = Some(Item {});
    store.spawn(lying);
    let mut map = floor_map(6, 6);
    MapIndexingSystem {}.run(&store, &mut map);
    let mut at = Coord { x: 2, y: 2 };
    try_move_player(1, 0, &mut store, &map, &mut at);
    assert_eq!(store.get(player).unwrap().wants_to_melee, Some(WantsToMelee { target: orc }));
    assert_eq!(pos(&store, player), (2, 2));
    edit(&mut store, player, |c| c.wants_to_melee = None);
    try_move_player(0, 1, &mut store, &map, &mut at);
    assert!(store.get(player).unwrap().wants_to_melee.is_none());
    assert_eq!(pos(&store, player), (2, 3));
}

#[test]
fn player_reaches_for_the_item_underfoot() {
    let mut store = EntityStore::new();
    let player = store.spawn(the_player(2, 2));
    let mut lying = body("Potion", 2, 2);
    lying.item = Some(Item {});
    let item = store.spawn(lying);
    let mut elsewhere = body("Scroll", 3, 2);
    elsewhere.item = Some(Item {});
    store.spawn(elsewhere);
    get_item(&mut store, Coord { x: 2, y: 2 }, player);
    assert_eq!(
        store.get(player).unwrap().wants_to_pickup,
        Some(WantsToPickupItem { collected_by: player, item })
    );
    edit(&mut store, player, |c| c.wants_to_pickup = None);
    get_item(&mut store, Coord { x: 4, y: 4 }, player);
    assert!(store.get(player).unwrap().wants_to_pickup.is_none());
}

#[test]
fn keys_decide_what_the_wait_ends_in() {
    let mut store = EntityStore::new();
    let player = store.spawn(the_player(2, 2));
    let mut map = floor_map(6, 6);
    MapIndexingSystem {}.run(&store, &mut map);
    let mut state = game(store, map, player, 2, 2);
    assert!(player_input(&mut state, None) == RunState::AwaitingInput);
    assert!(player_input(&mut state, Some(Key::Other)) == RunState::AwaitingInput);
    assert!(player_input(&mut state, Some(Key::Letter(0))) == RunState::AwaitingInput);
    assert!(player_input(&mut state, Some(Key::Letter(LETTER_I))) == RunState::ShowInventory);
    assert!(player_input(&mut state, Some(Key::Letter(LETTER_D))) == RunState::ShowDropItem);
    assert!(
        player_input(&mut state, Some(Key::Escape))
            == RunState::MainMenu { menu_selection: MainMenuSelection::Quit }
    );
    assert!(player_input(&mut state, Some(Key::Letter(LETTER_G))) == RunState::PlayerTurn);
    assert_eq!(pos(&state.ecs, player), (2, 2));
    let moves = [
        (Key::Numpad1, (1, 3)),
        (Key::Numpad9, (2, 2)),
        (Key::Numpad2, (2, 3)),
        (Key::Up, (2, 2)),
        (Key::Numpad3, (3, 3)),
        (Key::Numpad7, (2, 2)),
        (Key::Numpad4, (1, 2)),
        (Key::Right, (2, 2)),
        (Key::Left, (1, 2)),
        (Key::Numpad6, (2, 2)),
        (Key::Down, (2, 3)),
        (Key::Numpad8, (2, 2)),
    ];
    for (key, want) in moves {
        assert!(player_input(&mut state, Some(key)) == RunState::PlayerTurn);
        assert_eq!(pos(&state.ecs, player), want);
        assert_eq!(state.player_pos, Coord { x: want.0, y: want.1 });
    }
}

#[test]
fn main_menu_moves_and_chooses() {
    let new_game = MainMenuSelection::NewGame;
    let load_game = MainMenuSelection::LoadGame;
    let quit = MainMenuSelection::Quit;
    assert!(main_menu(new_game, None) == MainMenuResult::NoSelection { selected: new_game });
    assert!(main_menu(new_game, Some(Key::Up)) == MainMenuResult::NoSelection { selected: quit });
    assert!(main_menu(load_game, Some(Key::Up)) == MainMenuResult::NoSelection { selected: new_game });
    assert!(main_menu(quit, Some(Key::Up)) == MainMenuResult::NoSelection { selected: load_game });
    assert!(main_menu(new_game, Some(Key::Down)) == MainMenuResult::NoSelection { selected: load_game });
    assert!(main_menu(load_game, Some(Key::Down)) == MainMenuResult::NoSelection { selected: quit });
    assert!(main_menu(quit, Some(Key::Down)) == MainMenuResult::NoSelection { selected: new_game });
    assert!(main_menu(load_game, Some(Key::Escape)) == MainMenuResult::NoSelection { selected: quit });
    assert!(main_menu(load_game, Some(Key::Return)) == MainMenuResult::Selected { selected: load_game });
    assert!(main_menu(load_game, Some(Key::Other)) == MainMenuResult::NoSelection { selected: load_game });
}

fn carried(name: &str, owner: Entity) -> Components {
    let mut c = Components::new();
    c.name = Some(Name { name: name.to_string() });
    c.item = Some(Item {});
    c.in_backpack = Some(InBackpack { owner });
    c
}

#[test]
fn inventory_menu_selects_by_letter() {
    let mut store = EntityStore::new();
    let player = store.spawn(the_player(2, 2));
    let other = store.spawn(a_monster("Orc", 3, 3));
    let potion = store.spawn(carried("Potion", player));
    store.spawn(carried("Loot", other));
    let scroll = store.spawn(carried("Scroll", player));
    let mut nameless = carried("x", player);
    nameless.name = None;
    store.spawn(nameless);
    assert_eq!(backpack(&store, player), vec![potion, scroll]);
    assert!(draw_inventory_menu(&store, player, None) == (ItemMenuResult::NoResponse, None));
    assert!(draw_inventory_menu(&store, player, Some(Key::Escape)) == (ItemMenuResult::Cancel, None));
    assert!(
        draw_inventory_menu(&store, player, Some(Key::Letter(0)))
            == (ItemMenuResult::Selected, Some(potion))
    );
    assert!(
        draw_show_inventory_item_menu(&store, player, Some(Key::Letter(1)))
            == (ItemMenuResult::Selected, Some(scroll))
    );
    assert!(
        draw_drop_item_menu(&store, player, Some(Key::Letter(2)))
            == (ItemMenuResult::NoResponse, None)
    );
    assert!(draw_inventory_menu(&store, player, Some(Key::Up)) == (ItemMenuResult::NoResponse, None));
}

#[test]
fn targeting_selects_seen_cells_in_range() {
    let mut store = EntityStore::new();
    let mut hero = the_player(2, 2);
    hero.viewshed = Some(Viewshed {
        visible_tiles: vec![Coord { x: 2, y: 2 }, Coord { x: 5, y: 6 }, Coord { x: 9, y: 2 }],
        range: 8,
        dirty: false,
    });
    let player = store.spawn(hero);
    let from = Coord { x: 2, y: 2 };
    let near = Coord { x: 5, y: 6 };
    let far = Coord { x: 9, y: 2 };
    let unseen = Coord { x: 3, y: 2 };
    assert!(ranged_targeting(&store, player, from, 5, near, true) == (ItemMenuResult::Selected, Some(near)));
    assert!(ranged_targeting(&store, player, from, 5, near, false) == (ItemMenuResult::NoResponse, None));
    assert!(ranged_targeting(&store, player, from, 4, near, true) == (ItemMenuResult::Cancel, None));
    assert!(ranged_targeting(&store, player, from, 6, far, true) == (ItemMenuResult::Cancel, None));
    assert!(ranged_targeting(&store, player, from, 6, unseen, true) == (ItemMenuResult::Cancel, None));
    assert!(ranged_targeting(&store, player, from, 6, unseen, false) == (ItemMenuResult::NoResponse, None));
}

#[test]
fn tooltip_names_who_stands_under_the_mouse() {
    let mut store = EntityStore::new();
    store.spawn(body("Orc", 4, 4));
    store.spawn(body("Potion", 4, 4));
    store.spawn(body("Goblin", 5, 4));
    let mut nameless = body("x", 4, 4);
    nameless.name = None;
    store.spawn(nameless);
    assert_eq!(tooltip(&store, 4, 4), vec!["Orc", "Potion"]);
    assert!(tooltip(&store, 6, 6).is_empty());
    store.spawn(body("Edge", 81, 51));
    assert!(tooltip(&store, 81, 51).is_empty());
    store.spawn(body("Side", 81, 4));
    assert_eq!(tooltip(&store, 81, 4), vec!["Side"]);
}

#[test]
fn machine_runs_the_turns_in_order() {
    let mut store = EntityStore::new();
    let player = store.spawn(the_player(2, 2));
    let mut state = game(store, floor_map(8, 8), player, 2, 2);
    assert!(state.run_state == RunState::PreRun);
    assert!(state.tick(&quiet(), &Vec::new()) == TickOutcome::Continue);
    assert!(state.run_state == RunState::AwaitingInput);
    assert!(!state.ecs.get(player).unwrap().viewshed.clone().unwrap().dirty);
    state.tick(&quiet(), &Vec::new());
    assert!(state.run_state == RunState::AwaitingInput);
    state.tick(&press(Key::Right), &Vec::new());
    assert!(state.run_state == RunState::PlayerTurn);
    assert_eq!(pos(&state.ecs, player), (3, 2));
    state.tick(&quiet(), &Vec::new());
    assert!(state.run_state == RunState::MonsterTurn);
    state.tick(&quiet(), &Vec::new());
    assert!(state.run_state == RunState::AwaitingInput);
    assert_eq!(state.log.entries, vec!["Welcome!"]);
}

#[test]
fn machine_fights_a_round() {
    let mut store = EntityStore::new();
    let player = store.spawn(the_player(2, 2));
    let mut weak = a_monster("Goblin", 3, 2);
    weak.combat_stats = Some(CombatStats { max_hp: 16, hp: 4, defense: 1, power: 4 });
    let goblin = store.spawn(weak);
    let mut state = game(store, floor_map(8, 8), player, 2, 2);
    state.tick(&quiet(), &Vec::new());
    state.tick(&press(Key::Right), &Vec::new());
    assert!(state.run_state == RunState::PlayerTurn);
    assert_eq!(pos(&state.ecs, player), (2, 2));
    assert_eq!(state.ecs.get(player).unwrap().wants_to_melee, Some(WantsToMelee { target: goblin }));
    state.tick(&quiet(), &Vec::new());
    assert!(state.run_state == RunState::MonsterTurn);
    assert!(!state.ecs.is_alive(goblin));
    assert!(state.ecs.is_alive(player));
    assert_eq!(state.log.entries, vec!["Goblin is dead", "Player hits Goblin, for 4 hp.", "Welcome!"]);
}

#[test]
fn machine_uses_an_item_from_the_inventory() {
    let mut store = EntityStore::new();
    let player = store.spawn(the_player(2, 2));
    edit(&mut store, player, |c| c.combat_stats.as_mut().unwrap().hp = 10);
    let mut potion = carried("Health Potion", player);
    potion.provides_healing = Some(rouge::components::ProvidesHealing { heal_amount: 8 });
    potion.consumable = Some(rouge::components::Consumable {});
    let potion = store.spawn(potion);
    let mut state = game(store, floor_map(8, 8), player, 2, 2);
    state.run_state = RunState::AwaitingInput;
    state.tick(&press(Key::Letter(LETTER_I)), &Vec::new());
    assert!(state.run_state == RunState::ShowInventory);
    state.tick(&quiet(), &Vec::new());
    assert!(state.run_state == RunState::ShowInventory);
    state.tick(&press(Key::Letter(0)), &Vec::new());
    assert!(state.run_state == RunState::PlayerTurn);
    assert_eq!(
        state.ecs.get(player).unwrap().wants_to_use,
        Some(WantsToUseItem { item: potion, target: None })
    );
    state.tick(&quiet(), &Vec::new());
    assert_eq!(state.ecs.get(player).unwrap().combat_stats.unwrap().hp, 18);
    assert!(!state.ecs.is_alive(potion));
    state.run_state = RunState::ShowInventory;
    state.tick(&press(Key::Escape), &Vec::new());
    assert!(state.run_state == RunState::AwaitingInput);
}

#[test]
fn machine_asks_for_a_target_for_ranged_items() {
    let mut store = EntityStore::new();
    let player = store.spawn(the_player(2, 2));
    let mut scroll = carried("Magic Missile Scroll", player);
    scroll.ranged = Some(Ranged { range: 6 });
    scroll.inflicts_damage = Some(rouge::components::InflictsDamage { damage: 8 });
    let scroll = store.spawn(scroll);
    let mut state = game(store, floor_map(12, 8), player, 2, 2);
    state.tick(&quiet(), &Vec::new());
    state.run_state = RunState::ShowInventory;
    state.tick(&press(Key::Letter(0)), &Vec::new());
    assert!(state.run_state == RunState::ShowTargeting { range: 6, item: scroll });
    let aim = Input { key: None, mouse: Coord { x: 5, y: 2 }, left_click: false };
    state.tick(&aim, &Vec::new());
    assert!(state.run_state == RunState::ShowTargeting { range: 6, item: scroll });
    let shot = Input { key: None, mouse: Coord { x: 5, y: 2 }, left_click: true };
    state.tick(&shot, &Vec::new());
    assert!(state.run_state == RunState::PlayerTurn);
    assert_eq!(
        state.ecs.get(player).unwrap().wants_to_use,
        Some(WantsToUseItem { item: scroll, target: Some(Coord { x: 5, y: 2 }) })
    );
    state.run_state = RunState::ShowTargeting { range: 6, item: scroll };
    let miss = Input { key: None, mouse: Coord { x: 11, y: 2 }, left_click: true };
    state.tick(&miss, &Vec::new());
    assert!(state.run_state == RunState::AwaitingInput);
}

#[test]
fn machine_drops_an_item_from_the_menu() {
    let mut store = EntityStore::new();
    let player = store.spawn(the_player(2, 2));
    let potion = store.spawn(carried("Health Potion", player));
    let mut state = game(store, floor_map(8, 8), player, 2, 2);
    state.run_state = RunState::ShowDropItem;
    state.tick(&press(Key::Letter(0)), &Vec::new());
    assert!(state.run_state == RunState::PlayerTurn);
    state.tick(&quiet(), &Vec::new());
    let c = state.ecs.get(potion).unwrap();
    assert_eq!(c.position, Some(Position { x: 2, y: 2 }));
    assert!(c.in_backpack.is_none());
    assert_eq!(state.log.entries, vec!["You dropped the Health Potion.", "Welcome!"]);
}

#[test]
fn main_menu_starts_or_quits() {
    let mut store = EntityStore::new();
    let player = store.spawn(the_player(2, 2));
    let mut state = game(store, floor_map(8, 8), player, 2, 2);
    state.run_state = RunState::MainMenu { menu_selection: MainMenuSelection::NewGame };
    assert!(state.tick(&press(Key::Down), &Vec::new()) == TickOutcome::Continue);
    assert!(state.run_state == RunState::MainMenu { menu_selection: MainMenuSelection::LoadGame });
    assert!(state.tick(&press(Key::Return), &Vec::new()) == TickOutcome::Continue);
    assert!(state.run_state == RunState::PreRun);
    state.run_state = RunState::MainMenu { menu_selection: MainMenuSelection::Quit };
    assert!(state.tick(&press(Key::Return), &Vec::new()) == TickOutcome::SaveAndQuit);
    assert!(state.run_state == RunState::MainMenu { menu_selection: MainMenuSelection::Quit });
}

#[test]
fn monsters_follow_their_paths_in_a_turn() {
    let mut store = EntityStore::new();
    let player = store.spawn(the_player(2, 2));
    let orc = store.spawn(a_monster("Orc", 6, 2));
    let mut state = game(store, floor_map(10, 5), player, 2, 2);
    VisibilitySystem {}.run(&mut state.ecs, &mut state.map);
    let wanted = MonsterAI::queries(&state.ecs, &state.map, state.player_pos);
    assert_eq!(wanted, vec![PathQuery { entity: orc, start: 26, end: 22 }]);
    let paths = vec![NavigationPath { destination: 22, success: true, steps: vec![26, 25, 24, 23, 22] }];
    state.run_systems(&paths);
    assert_eq!(pos(&state.ecs, orc), (5, 2));
    assert_eq!(state.map.occupants_at(25), &vec![orc]);
    assert!(state.map.is_blocked(25));
    assert!(!state.map.is_blocked(26));
}
