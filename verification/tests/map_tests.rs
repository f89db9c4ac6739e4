use rltk::RandomNumberGenerator;
use rouge::coord::Coord;
use rouge::map::{GameMap, TileType, MAX_ROOMS, MAX_SIZE, MIN_SIZE};
use rouge::population::{MAX_ITEMS_PER_ROOM, MAX_MONSTERS_PER_ROOM};
use rouge::rect::Rect;
use rouge::store::Entity;

fn floor_at(map: &GameMap, x: i32, y: i32) -> bool {
    map.tile_at(map.xy_to_idx(x, y)) == TileType::Floor
}

#[test]
fn blank_map_is_all_wall() {
    let map = GameMap::new();
    assert_eq!(map.width(), 80);
    assert_eq!(map.height(), 50);
    assert_eq!(map.area(), 4000);
    assert_eq!(map.rooms().len(), 0);
    for idx in 0..map.area() {
        assert!(map.tile_at(idx) == TileType::Wall);
        assert!(!map.is_blocked(idx));
        assert!(!map.is_revealed(idx));
        assert!(!map.is_visible(idx));
        assert!(map.occupants_at(idx).is_empty());
    }
}

#[test]
fn maps_have_sides_between_one_and_the_limit() {
    assert!(GameMap::with_size(0, 5).is_none());
    assert!(GameMap::with_size(5, 0).is_none());
    assert!(GameMap::with_size(-3, 5).is_none());
    assert!(GameMap::with_size(32769, 1).is_none());
    let map = GameMap::with_size(7, 3).unwrap();
    assert_eq!(map.area(), 21);
}

#[test]
fn index_and_coordinates_are_inverse() {
    let map = GameMap::with_size(7, 3).unwrap();
    assert_eq!(map.xy_to_idx(0, 0), 0);
    assert_eq!(map.xy_to_idx(6, 0), 6);
    assert_eq!(map.xy_to_idx(0, 1), 7);
    assert_eq!(map.xy_to_idx(4, 2), 18);
    assert_eq!(map.point_to_idx(Coord { x: 4, y: 2 }), 18);
    for idx in 0..map.area() {
        let (x, y) = map.idx_to_xy(idx);
        assert!(map.in_bounds(x, y));
        assert_eq!(map.xy_to_idx(x, y), idx);
    }
    assert!(!map.in_bounds(7, 0));
    assert!(!map.in_bounds(0, 3));
    assert!(!map.in_bounds(-1, 0));
}

#[test]
fn first_room_is_accepted_and_dug() {
    let mut map = GameMap::new();
    assert!(map.place_room(Rect::new(2, 3, 6, 6)));
    assert_eq!(map.rooms().len(), 1);
    assert!(floor_at(&map, 3, 4));
    assert!(floor_at(&map, 8, 9));
    assert!(!floor_at(&map, 2, 4));
    assert!(!floor_at(&map, 3, 3));
    assert!(!floor_at(&map, 9, 9));
    let floors = (0..map.area()).filter(|&i| map.tile_at(i) == TileType::Floor).count();
    assert_eq!(floors, 36);
}

#[test]
fn overlapping_room_is_rejected_and_leaves_the_map_alone() {
    let mut map = GameMap::new();
    assert!(map.place_room(Rect::new(2, 3, 6, 6)));
    assert!(!map.place_room(Rect::new(8, 9, 6, 6)));
    assert_eq!(map.rooms().len(), 1);
    assert!(!floor_at(&map, 10, 10));
    let floors = (0..map.area()).filter(|&i| map.tile_at(i) == TileType::Floor).count();
    assert_eq!(floors, 36);
}

#[test]
fn room_that_does_not_fit_is_rejected() {
    let mut map = GameMap::new();
    assert!(!map.place_room(Rect::new(74, 3, 6, 6)));
    assert!(!map.place_room(Rect::new(3, 44, 6, 6)));
    assert!(!map.place_room(Rect::new(-1, 3, 6, 6)));
    assert!(map.place_room(Rect::new(72, 42, 6, 6)));
}

#[test]
fn second_room_gets_a_corridor_to_the_first() {
    let mut map = GameMap::new();
    assert!(map.place_room(Rect::new(2, 2, 6, 6)));
    assert!(map.place_room(Rect::new(40, 3, 6, 6)));
    // centres are (5, 5) and (43, 6): the corridor runs along row 6 and column 43
    for x in 5..=43 {
        assert!(floor_at(&map, x, 6));
    }
    for y in 5..=6 {
        assert!(floor_at(&map, 43, y));
    }
    assert!(!floor_at(&map, 20, 5));
    assert!(!floor_at(&map, 20, 7));
}

#[test]
fn corridor_may_miss_the_room_before() {
    let mut map = GameMap::new();
    assert!(map.place_room(Rect::new(0, 0, 6, 6)));
    assert!(map.place_room(Rect::new(40, 30, 6, 6)));
    // centres are (3, 3) and (43, 33): row 33 from column 3, column 43 from row 3
    assert!(floor_at(&map, 3, 33));
    assert!(floor_at(&map, 43, 3));
    assert!(!floor_at(&map, 3, 7));
    assert!(!floor_at(&map, 7, 3));
    assert!(!floor_at(&map, 3, 32));
    assert!(!floor_at(&map, 42, 3));
}

#[test]
fn generated_map_has_rooms_that_keep_apart() {
    let mut rng = RandomNumberGenerator::seeded(42);
    let map = GameMap::generate(&mut rng, 80, 50).unwrap();
    let rooms = map.rooms();
    assert!(rooms.len() >= 2);
    assert!(rooms.len() <= MAX_ROOMS as usize);
    let mut sizes_differ = false;
    let mut corners_differ = false;
    for (i, room) in rooms.iter().enumerate() {
        let w = room.x2 - room.x1;
        let h = room.y2 - room.y1;
        assert!(MIN_SIZE <= w && w < MAX_SIZE);
        assert!(MIN_SIZE <= h && h < MAX_SIZE);
        assert!(0 <= room.x1 && room.x2 <= 78);
        assert!(0 <= room.y1 && room.y2 <= 48);
        if w != rooms[0].x2 - rooms[0].x1 || h != rooms[0].y2 - rooms[0].y1 {
            sizes_differ = true;
        }
        if room.x1 != rooms[0].x1 || room.y1 != rooms[0].y1 {
            corners_differ = true;
        }
        for other in rooms.iter().skip(i + 1) {
            assert!(!room.intersect(other));
        }
        for y in room.y1 + 1..=room.y2 {
            for x in room.x1 + 1..=room.x2 {
                assert!(floor_at(&map, x, y));
            }
        }
    }
    assert!(sizes_differ);
    assert!(corners_differ);
    for x in 0..80 {
        assert!(!floor_at(&map, x, 0));
        assert!(!floor_at(&map, x, 49));
    }
    for y in 0..50 {
        assert!(!floor_at(&map, 0, y));
        assert!(!floor_at(&map, 79, y));
    }
}

#[test]
fn generated_map_is_the_same_for_the_same_seed() {
    let mut a = RandomNumberGenerator::seeded(7);
    let mut b = RandomNumberGenerator::seeded(7);
    let m1 = GameMap::generate(&mut a, 60, 40).unwrap();
    let m2 = GameMap::generate(&mut b, 60, 40).unwrap();
    assert_eq!(m1.rooms(), m2.rooms());
    for idx in 0..m1.area() {
        assert!(m1.tile_at(idx) == m2.tile_at(idx));
    }
}

#[test]
fn generator_wants_room_for_a_room() {
    let mut rng = RandomNumberGenerator::seeded(1);
    assert!(GameMap::generate(&mut rng, 10, 50).is_none());
    assert!(GameMap::generate(&mut rng, 80, 10).is_none());
    let small = GameMap::generate(&mut rng, 11, 11).unwrap();
    assert!(small.rooms().len() >= 1);
}

#[test]
fn game_map_is_generated_at_full_size() {
    let map = GameMap::new_map_with_rooms_and_corridors();
    assert_eq!(map.width(), 80);
    assert_eq!(map.height(), 50);
    assert!(!map.rooms().is_empty());
    let (x, y) = map.rooms()[0].center();
    assert!(floor_at(&map, x, y));
}

#[test]
fn walls_block_and_floors_do_not() {
    let mut map = GameMap::with_size(5, 5).unwrap();
    map.set_tile(12, TileType::Floor);
    map.populate_blocked();
    for idx in 0..map.area() {
        assert_eq!(map.is_blocked(idx), idx != 12);
    }
    map.block(12);
    assert!(map.is_blocked(12));
}

#[test]
fn content_index_is_filled_and_cleared() {
    let mut map = GameMap::with_size(5, 5).unwrap();
    let a = Entity { index: 0, generation: 0 };
    let b = Entity { index: 1, generation: 0 };
    map.add_occupant(7, a);
    map.add_occupant(7, b);
    assert_eq!(map.occupants_at(7), &vec![a, b]);
    assert!(map.occupants_at(8).is_empty());
    map.clear_content_index();
    assert!(map.occupants_at(7).is_empty());
}

#[test]
fn seen_cells_are_marked() {
    let mut map = GameMap::with_size(5, 5).unwrap();
    map.show(3);
    map.mark_revealed(4);
    assert!(map.is_visible(3) && map.is_revealed(3));
    assert!(!map.is_visible(4) && map.is_revealed(4));
    map.hide_all();
    assert!(!map.is_visible(3) && map.is_revealed(3));
}

fn open_map(width: i32, height: i32) -> GameMap {
    let mut map = GameMap::with_size(width, height).unwrap();
    for idx in 0..map.area() {
        map.set_tile(idx, TileType::Floor);
    }
    map.populate_blocked();
    map
}

#[test]
fn exits_in_the_open_are_all_eight() {
    let map = open_map(5, 5);
    let idx = map.xy_to_idx(2, 2);
    assert_eq!(
        map.get_available_exits(idx),
        vec![
            (11, 100),
            (13, 100),
            (7, 100),
            (17, 100),
            (6, 145),
            (8, 145),
            (16, 145),
            (18, 145)
        ]
    );
}

#[test]
fn exits_leave_out_blocked_cells_and_the_rim() {
    let mut map = open_map(5, 5);
    map.block(map.xy_to_idx(3, 2));
    assert!(!map.is_exit_valid(3, 2));
    assert!(map.is_exit_valid(1, 1));
    assert!(map.is_exit_valid(3, 3));
    assert!(!map.is_exit_valid(4, 3));
    assert!(!map.is_exit_valid(3, 4));
    assert!(!map.is_exit_valid(0, 2));
    assert!(!map.is_exit_valid(2, 0));
    assert!(!map.is_exit_valid(5, 2));
    assert!(!map.is_exit_valid(2, 5));
    let idx = map.xy_to_idx(2, 2);
    assert_eq!(
        map.get_available_exits(idx),
        vec![(11, 100), (7, 100), (17, 100), (6, 145), (8, 145), (16, 145), (18, 145)]
    );
    assert_eq!(map.get_available_exits(map.xy_to_idx(1, 1)), vec![(7, 100), (11, 100), (12, 145)]);
    assert_eq!(map.get_available_exits(map.xy_to_idx(3, 3)), vec![(17, 100), (12, 145)]);
    assert_eq!(map.get_available_exits(0), vec![(6, 145)]);
    assert_eq!(map.get_available_exits(24), vec![(18, 145)]);
}

#[test]
fn field_of_view_in_the_open_is_a_disc_in_index_order() {
    let map = open_map(11, 11);
    let seen = map.field_of_view(Coord { x: 5, y: 5 }, 2).unwrap();
    assert!(seen.contains(&Coord { x: 5, y: 5 }));
    assert!(seen.contains(&Coord { x: 7, y: 5 }));
    assert!(seen.contains(&Coord { x: 5, y: 3 }));
    assert!(!seen.contains(&Coord { x: 8, y: 5 }));
    assert!(!seen.contains(&Coord { x: 0, y: 0 }));
    assert!(seen.len() > 1);
    let indices: Vec<usize> = seen.iter().map(|c| map.point_to_idx(*c)).collect();
    for pair in indices.windows(2) {
        assert!(pair[0] < pair[1]);
    }
}

#[test]
fn walls_stop_the_eye() {
    let mut map = open_map(11, 5);
    for y in 0..5 {
        let idx = map.xy_to_idx(5, y);
        map.set_tile(idx, TileType::Wall);
    }
    let seen = map.field_of_view(Coord { x: 2, y: 2 }, 8).unwrap();
    assert!(seen.contains(&Coord { x: 4, y: 2 }));
    assert!(seen.contains(&Coord { x: 5, y: 2 }));
    assert!(!seen.contains(&Coord { x: 6, y: 2 }));
    assert!(!seen.contains(&Coord { x: 8, y: 2 }));
    for c in seen.iter() {
        assert!(c.x <= 5);
    }
}

#[test]
fn no_field_of_view_from_off_the_map_or_beyond_the_range() {
    let map = open_map(5, 5);
    assert!(map.field_of_view(Coord { x: 5, y: 2 }, 3).is_none());
    assert!(map.field_of_view(Coord { x: 2, y: -1 }, 3).is_none());
    assert!(map.field_of_view(Coord { x: 2, y: 2 }, 23171).is_none());
    assert!(map.field_of_view(Coord { x: 2, y: 2 }, -23171).is_none());
    assert!(map.field_of_view(Coord { x: 2, y: 2 }, i32::MAX).is_none());
    assert!(map.field_of_view(Coord { x: 2, y: 2 }, i32::MIN).is_none());
    assert_eq!(map.field_of_view(Coord { x: 2, y: 2 }, 0).unwrap(), vec![Coord { x: 2, y: 2 }]);
}

#[test]
fn field_of_view_is_computed_for_wide_and_for_negative_ranges() {
    let map = open_map(9, 7);
    let centre = Coord { x: 4, y: 3 };
    for range in [1001, 2000, -1, -3, -2000] {
        let seen = map.field_of_view(centre, range).unwrap();
        assert!(seen.contains(&centre));
        for c in seen.iter() {
            assert!(map.in_bounds(c.x, c.y));
        }
    }
    assert_eq!(map.field_of_view(centre, 2000).unwrap().len(), 63);
    assert_eq!(
        map.field_of_view(centre, -3).unwrap(),
        map.field_of_view(centre, 3).unwrap()
    );
}

#[test]
fn cells_are_brought_into_index_order_once_each() {
    let map = GameMap::with_size(4, 3).unwrap();
    let cells = vec![
        Coord { x: 3, y: 2 },
        Coord { x: 0, y: 0 },
        Coord { x: 9, y: 9 },
        Coord { x: 1, y: 1 },
        Coord { x: 0, y: 0 },
        Coord { x: -1, y: 0 },
    ];
    assert_eq!(
        map.in_index_order(&cells),
        vec![Coord { x: 0, y: 0 }, Coord { x: 1, y: 1 }, Coord { x: 3, y: 2 }]
    );
    assert!(map.in_index_order(&Vec::new()).is_empty());
}

#[test]
fn room_population_is_distinct_and_inside() {
    let mut rng = RandomNumberGenerator::seeded(3);
    let room = Rect::new(10, 10, 6, 7);
    let mut counts = Vec::new();
    for _ in 0..50 {
        let spots = GameMap::populate_room(&mut rng, &room);
        assert!(spots.monsters.len() >= 1);
        assert!(spots.monsters.len() <= MAX_MONSTERS_PER_ROOM as usize);
        assert_eq!(spots.items.len(), MAX_ITEMS_PER_ROOM as usize);
        for (i, a) in spots.monsters.iter().enumerate() {
            assert!(10 < a.x && a.x <= 16 && 10 < a.y && a.y <= 17);
            for b in spots.monsters.iter().skip(i + 1) {
                assert!(a != b);
            }
        }
        for a in spots.items.iter() {
            assert!(10 < a.x && a.x <= 16 && 10 < a.y && a.y <= 17);
        }
        counts.push(spots.monsters.len());
    }
    assert!(counts.iter().any(|&n| n != counts[0]));
}

#[test]
fn room_without_cells_gets_no_population() {
    let mut rng = RandomNumberGenerator::seeded(3);
    let spots = GameMap::populate_room(&mut rng, &Rect { x1: 4, y1: 4, x2: 4, y2: 9 });
    assert!(spots.monsters.is_empty());
    assert!(spots.items.is_empty());
}

#[test]
fn rooms_are_offered_in_turn() {
    let mut map = GameMap::new();
    let offers = vec![
        Rect::new(2, 2, 6, 6),
        Rect::new(5, 5, 6, 6),
        Rect::new(40, 3, 7, 8),
        Rect::new(76, 3, 6, 6),
        Rect::new(20, 30, 9, 6),
    ];
    assert_eq!(map.place_rooms(&offers), 3);
    assert_eq!(map.rooms(), &vec![offers[0], offers[2], offers[4]]);
    assert_eq!(map.place_rooms(&Vec::new()), 0);
}

#[test]
fn generator_offers_what_it_draws() {
    let mut rng = RandomNumberGenerator::seeded(99);
    let generated = GameMap::generate(&mut rng, 70, 45).unwrap();
    let mut rng = RandomNumberGenerator::seeded(99);
    let mut offers = Vec::new();
    for _ in 0..MAX_ROOMS {
        let w = rng.range(MIN_SIZE, MAX_SIZE);
        let h = rng.range(MIN_SIZE, MAX_SIZE);
        let x = rng.roll_dice(1, 70 - w - 1) - 1;
        let y = rng.roll_dice(1, 45 - h - 1) - 1;
        offers.push(Rect::new(x, y, w, h));
    }
    let mut by_hand = GameMap::with_size(70, 45).unwrap();
    by_hand.place_rooms(&offers);
    assert_eq!(generated.rooms(), by_hand.rooms());
    for idx in 0..generated.area() {
        assert!(generated.tile_at(idx) == by_hand.tile_at(idx));
    }
}

fn reach(map: &GameMap, from: (i32, i32), to: (i32, i32)) -> bool {
    let mut seen = vec![false; map.area()];
    let mut queue = vec![from];
    seen[map.xy_to_idx(from.0, from.1)] = true;
    while let Some((x, y)) = queue.pop() {
        if (x, y) == to {
            return true;
        }
        for (nx, ny) in [(x - 1, y), (x + 1, y), (x, y - 1), (x, y + 1)] {
            if map.in_bounds(nx, ny) && floor_at(map, nx, ny) {
                let idx = map.xy_to_idx(nx, ny);
                if !seen[idx] {
                    seen[idx] = true;
                    queue.push((nx, ny));
                }
            }
        }
    }
    false
}

fn meets(prev: &Rect, next: &Rect) -> bool {
    let (px, py) = prev.center();
    let (nx, ny) = next.center();
    (prev.y1 < ny && ny <= prev.y2) || (prev.x1 < nx && nx <= prev.x2)
        || (px == nx && py == ny)
}

#[test]
fn joined_rooms_reach_each_other() {
    let mut map = GameMap::new();
    assert!(map.place_room(Rect::new(2, 2, 8, 8)));
    assert!(map.place_room(Rect::new(30, 4, 6, 6)));
    assert!(map.place_room(Rect::new(28, 30, 9, 9)));
    let rooms = map.rooms().clone();
    assert!(meets(&rooms[0], &rooms[1]));
    assert!(meets(&rooms[1], &rooms[2]));
    for a in rooms.iter() {
        for b in rooms.iter() {
            assert!(reach(&map, a.center(), b.center()));
            assert!(reach(&map, (a.x1 + 1, a.y1 + 1), (b.x2, b.y2)));
        }
    }
}

#[test]
fn rooms_whose_corridor_misses_do_not_reach_each_other() {
    let mut map = GameMap::new();
    assert!(map.place_room(Rect::new(0, 0, 6, 6)));
    assert!(map.place_room(Rect::new(40, 30, 6, 6)));
    let rooms = map.rooms().clone();
    assert!(!meets(&rooms[0], &rooms[1]));
    assert!(!reach(&map, rooms[0].center(), rooms[1].center()));
    assert!(reach(&map, rooms[1].center(), (3, 33)));
    assert!(reach(&map, rooms[1].center(), (43, 3)));
}

#[test]
fn generated_rooms_reach_each_other_along_joined_corridors() {
    for seed in 0..20 {
        let mut rng = RandomNumberGenerator::seeded(seed);
        let map = GameMap::generate(&mut rng, 80, 50).unwrap();
        let rooms = map.rooms();
        for room in rooms.iter() {
            assert!(reach(&map, room.center(), (room.x1 + 1, room.y2)));
        }
        for k in 1..rooms.len() {
            let (px, py) = rooms[k - 1].center();
            let (nx, ny) = rooms[k].center();
            assert!(reach(&map, (nx, ny), (px, ny)));
            assert!(reach(&map, (nx, ny), (nx, py)));
            if meets(&rooms[k - 1], &rooms[k]) {
                assert!(reach(&map, (px, py), (nx, ny)));
            }
        }
    }
}

#[test]
fn field_of_view_from_the_corners_stays_on_the_map() {
    let map = open_map(9, 7);
    for (x, y) in [(0, 0), (8, 0), (0, 6), (8, 6), (4, 0), (0, 3), (8, 3), (4, 6)] {
        for range in [0, 1, 3, 20] {
            let seen = map.field_of_view(Coord { x, y }, range).unwrap();
            assert!(seen.contains(&Coord { x, y }));
            for c in seen.iter() {
                assert!(map.in_bounds(c.x, c.y));
            }
        }
    }
    let all = map.field_of_view(Coord { x: 4, y: 3 }, 1000).unwrap();
    assert!(all.len() > 40);
}

#[test]
fn map_tells_rltk_its_walls_and_its_size() {
    let mut map = GameMap::with_size(7, 3).unwrap();
    map.set_tile(9, TileType::Floor);
    assert!(!rltk::BaseMap::is_opaque(&map, 9));
    assert!(rltk::BaseMap::is_opaque(&map, 8));
    assert!(rltk::BaseMap::is_opaque(&map, 0));
    assert!(rltk::BaseMap::is_opaque(&map, 20));
    assert!(rltk::BaseMap::is_opaque(&map, 21));
    assert!(rltk::BaseMap::is_opaque(&map, usize::MAX));
    assert_eq!(rltk::Algorithm2D::dimensions(&map), rltk::Point::new(7, 3));
    assert_eq!(rltk::Algorithm2D::dimensions(&GameMap::new()), rltk::Point::new(80, 50));
}
