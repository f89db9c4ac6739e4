use rouge::components::{
    AreaOfEffect, CombatStats, Components, Confusion, Consumable, InBackpack, InflictsDamage, Item,
    Name, Player, Position, ProvidesHealing, SufferDamage, WantsToDropItem, WantsToPickupItem,
    WantsToUseItem,
};
use rouge::coord::Coord;
use rouge::game_log::GameLog;
use rouge::map::{GameMap, TileType};
use rouge::store::{Entity, EntityStore};
use rouge::systems::{
    ItemCollectionSystem, ItemDropSystem, ItemUseSystem, MapIndexingSystem,
};

fn actor(name: &str, x: i32, y: i32, hp: i32, max_hp: i32) -> Components {
    let mut c = Components::new();
    c.name = Some(Name { name: name.to_string() });
    c.position = Some(Position { x, y });
    c.combat_stats = Some(CombatStats { max_hp, hp, defense: 1, power: 4 });
    c
}

fn hero(x: i32, y: i32, hp: i32, max_hp: i32) -> Components {
    let mut c = actor("Player", x, y, hp, max_hp);
    c.player = Some(Player {});
    c
}

fn thing(name: &str) -> Components {
    let mut c = Components::new();
    c.name = Some(Name { name: name.to_string() });
    c.item = Some(Item {});
    c
}

fn potion(heal: i32, consumable: bool) -> Components {
    let mut c = thing("Health Potion");
    c.provides_healing = Some(ProvidesHealing { heal_amount: heal });
    if consumable {
        c.consumable = Some(Consumable {});
    }
    c
}

fn arena(store: &EntityStore) -> GameMap {
    let mut map = GameMap::with_size(20, 20).unwrap();
    for idx in 0..map.area() {
        map.set_tile(idx, TileType::Floor);
    }
    MapIndexingSystem {}.run(store, &mut map);
    map
}

fn give(store: &mut EntityStore, e: Entity, change: impl Fn(&mut Components)) {
    let mut c = store.get(e).unwrap().clone();
    change(&mut c);
    store.replace(e, c);
}

fn hp(store: &EntityStore, e: Entity) -> i32 {
    store.get(e).unwrap().combat_stats.unwrap().hp
}

#[test]
fn consumable_potion_heals_and_is_gone() {
    let mut store = EntityStore::new();
    let mut log = GameLog::new();
    let player = store.spawn(hero(5, 5, 10, 30));
    let item = store.spawn(potion(8, true));
    give(&mut store, player, |c| c.wants_to_use = Some(WantsToUseItem { item, target: None }));
    let map = arena(&store);
    ItemUseSystem {}.run(&mut store, &map, &mut log, player);
    assert_eq!(hp(&store, player), 18);
    assert!(!store.is_alive(item));
    assert!(store.get(player).unwrap().wants_to_use.is_none());
    assert_eq!(log.entries, vec!["You use the Health Potion, healing 8"]);
}

#[test]
fn lasting_potion_heals_and_persists() {
    let mut store = EntityStore::new();
    let mut log = GameLog::new();
    let player = store.spawn(hero(5, 5, 10, 30));
    let item = store.spawn(potion(8, false));
    give(&mut store, player, |c| c.wants_to_use = Some(WantsToUseItem { item, target: None }));
    let map = arena(&store);
    ItemUseSystem {}.run(&mut store, &map, &mut log, player);
    assert_eq!(hp(&store, player), 18);
    assert!(store.is_alive(item));
    assert!(store.get(item).unwrap().provides_healing.is_some());
}

#[test]
fn healing_stops_at_full_health() {
    let mut store = EntityStore::new();
    let mut log = GameLog::new();
    let player = store.spawn(hero(5, 5, 27, 30));
    let item = store.spawn(potion(8, true));
    give(&mut store, player, |c| c.wants_to_use = Some(WantsToUseItem { item, target: None }));
    let map = arena(&store);
    ItemUseSystem {}.run(&mut store, &map, &mut log, player);
    assert_eq!(hp(&store, player), 30);
    let stats = store.get(player).unwrap().combat_stats.unwrap();
    assert!(stats.hp <= stats.max_hp);
}

#[test]
fn use_by_somebody_else_is_not_logged() {
    let mut store = EntityStore::new();
    let mut log = GameLog::new();
    let player = store.spawn(hero(5, 5, 10, 30));
    let monk = store.spawn(actor("Monk", 6, 6, 3, 9));
    let item = store.spawn(potion(4, true));
    give(&mut store, monk, |c| c.wants_to_use = Some(WantsToUseItem { item, target: None }));
    let map = arena(&store);
    ItemUseSystem {}.run(&mut store, &map, &mut log, player);
    assert_eq!(hp(&store, monk), 7);
    assert_eq!(hp(&store, player), 10);
    assert!(log.entries.is_empty());
    assert!(!store.is_alive(item));
}

#[test]
fn missile_harms_who_stands_on_the_target() {
    let mut store = EntityStore::new();
    let mut log = GameLog::new();
    let player = store.spawn(hero(5, 5, 10, 30));
    let goblin = store.spawn(actor("Goblin", 8, 5, 16, 16));
    let orc = store.spawn(actor("Orc", 9, 5, 16, 16));
    let mut scroll = thing("Magic Missile Scroll");
    scroll.inflicts_damage = Some(InflictsDamage { damage: 8 });
    scroll.consumable = Some(Consumable {});
    let item = store.spawn(scroll);
    give(&mut store, player, |c| {
        c.wants_to_use = Some(WantsToUseItem { item, target: Some(Coord { x: 8, y: 5 }) })
    });
    let map = arena(&store);
    ItemUseSystem {}.run(&mut store, &map, &mut log, player);
    assert_eq!(store.get(goblin).unwrap().suffer_damage, Some(SufferDamage { amount: 8 }));
    assert!(store.get(orc).unwrap().suffer_damage.is_none());
    assert_eq!(hp(&store, goblin), 16);
    assert!(!store.is_alive(item));
    assert_eq!(log.entries, vec!["You use Magic Missile Scroll on Goblin, inflicting 8 hp."]);
}

#[test]
fn fireball_harms_all_in_the_blast_but_not_on_the_rim() {
    let mut store = EntityStore::new();
    let mut log = GameLog::new();
    let player = store.spawn(hero(2, 2, 10, 30));
    let near = store.spawn(actor("Near", 10, 10, 16, 16));
    let beside = store.spawn(actor("Beside", 12, 11, 16, 16));
    let far = store.spawn(actor("Far", 16, 10, 16, 16));
    let rim = store.spawn(actor("Rim", 0, 1, 16, 16));
    let mut scroll = thing("Fireball Scroll");
    scroll.inflicts_damage = Some(InflictsDamage { damage: 20 });
    scroll.area_of_effect = Some(AreaOfEffect { radius: 3 });
    scroll.consumable = Some(Consumable {});
    let item = store.spawn(scroll);
    give(&mut store, player, |c| {
        c.wants_to_use = Some(WantsToUseItem { item, target: Some(Coord { x: 10, y: 10 }) })
    });
    let map = arena(&store);
    ItemUseSystem {}.run(&mut store, &map, &mut log, player);
    assert_eq!(store.get(near).unwrap().suffer_damage, Some(SufferDamage { amount: 20 }));
    assert_eq!(store.get(beside).unwrap().suffer_damage, Some(SufferDamage { amount: 20 }));
    assert!(store.get(far).unwrap().suffer_damage.is_none());
    assert!(store.get(rim).unwrap().suffer_damage.is_none());
    assert!(store.get(player).unwrap().suffer_damage.is_none());
    assert_eq!(
        log.entries,
        vec![
            "You use Fireball Scroll on Beside, inflicting 20 hp.",
            "You use Fireball Scroll on Near, inflicting 20 hp.",
        ]
    );
}

#[test]
fn blast_next_to_the_rim_spares_the_rim() {
    let mut store = EntityStore::new();
    let mut log = GameLog::new();
    let player = store.spawn(hero(5, 5, 10, 30));
    let rim = store.spawn(actor("Rim", 0, 1, 16, 16));
    let inside = store.spawn(actor("Inside", 1, 1, 16, 16));
    let mut scroll = thing("Fireball Scroll");
    scroll.inflicts_damage = Some(InflictsDamage { damage: 20 });
    scroll.area_of_effect = Some(AreaOfEffect { radius: 3 });
    let item = store.spawn(scroll);
    give(&mut store, player, |c| {
        c.wants_to_use = Some(WantsToUseItem { item, target: Some(Coord { x: 1, y: 1 }) })
    });
    let map = arena(&store);
    ItemUseSystem {}.run(&mut store, &map, &mut log, player);
    assert!(store.get(rim).unwrap().suffer_damage.is_none());
    assert_eq!(store.get(inside).unwrap().suffer_damage, Some(SufferDamage { amount: 20 }));
    assert!(store.is_alive(item));
}

#[test]
fn confusion_is_put_on_the_target_and_refreshed() {
    let mut store = EntityStore::new();
    let mut log = GameLog::new();
    let player = store.spawn(hero(5, 5, 10, 30));
    let mut dazed = actor("Goblin", 8, 5, 16, 16);
    dazed.confusion = Some(Confusion { turns: 1 });
    let goblin = store.spawn(dazed);
    let mut scroll = thing("Confusion Scroll");
    scroll.confusion = Some(Confusion { turns: 4 });
    scroll.consumable = Some(Consumable {});
    let item = store.spawn(scroll);
    give(&mut store, player, |c| {
        c.wants_to_use = Some(WantsToUseItem { item, target: Some(Coord { x: 8, y: 5 }) })
    });
    let map = arena(&store);
    ItemUseSystem {}.run(&mut store, &map, &mut log, player);
    assert_eq!(store.get(goblin).unwrap().confusion, Some(Confusion { turns: 4 }));
    assert!(!store.is_alive(item));
    assert_eq!(log.entries, vec!["You use Confusion Scroll on Goblin, confusing it."]);
}

#[test]
fn item_with_several_tags_does_all_at_once() {
    let mut store = EntityStore::new();
    let mut log = GameLog::new();
    let player = store.spawn(hero(5, 5, 10, 30));
    let mut odd = thing("Odd Brew");
    odd.provides_healing = Some(ProvidesHealing { heal_amount: 5 });
    odd.inflicts_damage = Some(InflictsDamage { damage: 2 });
    odd.confusion = Some(Confusion { turns: 3 });
    let item = store.spawn(odd);
    give(&mut store, player, |c| c.wants_to_use = Some(WantsToUseItem { item, target: None }));
    let map = arena(&store);
    ItemUseSystem {}.run(&mut store, &map, &mut log, player);
    let c = store.get(player).unwrap();
    assert_eq!(c.combat_stats.unwrap().hp, 15);
    assert_eq!(c.suffer_damage, Some(SufferDamage { amount: 2 }));
    assert_eq!(c.confusion, Some(Confusion { turns: 3 }));
    assert!(store.is_alive(item));
    assert_eq!(
        log.entries,
        vec![
            "You use Odd Brew on Player, confusing it.",
            "You use Odd Brew on Player, inflicting 2 hp.",
            "You use the Odd Brew, healing 5",
        ]
    );
}

#[test]
fn item_without_effect_is_not_used_up() {
    let mut store = EntityStore::new();
    let mut log = GameLog::new();
    let player = store.spawn(hero(5, 5, 10, 30));
    let mut rock = thing("Rock");
    rock.consumable = Some(Consumable {});
    let item = store.spawn(rock);
    give(&mut store, player, |c| c.wants_to_use = Some(WantsToUseItem { item, target: None }));
    let map = arena(&store);
    ItemUseSystem {}.run(&mut store, &map, &mut log, player);
    assert!(store.is_alive(item));
    assert!(store.get(player).unwrap().wants_to_use.is_none());
    assert!(log.entries.is_empty());
}

#[test]
fn target_off_the_map_reaches_nobody() {
    let mut store = EntityStore::new();
    let mut log = GameLog::new();
    let player = store.spawn(hero(5, 5, 10, 30));
    let mut scroll = thing("Magic Missile Scroll");
    scroll.inflicts_damage = Some(InflictsDamage { damage: 8 });
    let item = store.spawn(scroll);
    let wish = WantsToUseItem { item, target: Some(Coord { x: 50, y: 5 }) };
    let map = arena(&store);
    assert!(ItemUseSystem::targets(&store, &map, player, &wish).is_empty());
    give(&mut store, player, |c| c.wants_to_use = Some(wish));
    ItemUseSystem {}.run(&mut store, &map, &mut log, player);
    assert!(log.entries.is_empty());
}

#[test]
fn targets_of_a_wish_without_a_cell_are_the_user() {
    let mut store = EntityStore::new();
    let player = store.spawn(hero(5, 5, 10, 30));
    let item = store.spawn(potion(8, true));
    let map = arena(&store);
    let wish = WantsToUseItem { item, target: None };
    assert_eq!(ItemUseSystem::targets(&store, &map, player, &wish), vec![player]);
}

#[test]
fn occupants_are_listed_cell_by_cell() {
    let mut store = EntityStore::new();
    let a = store.spawn(actor("A", 3, 3, 1, 1));
    let b = store.spawn(actor("B", 4, 3, 1, 1));
    let c = store.spawn(actor("C", 3, 3, 1, 1));
    let d = store.spawn(actor("D", 0, 3, 1, 1));
    let map = arena(&store);
    let cells = vec![
        Coord { x: 4, y: 3 },
        Coord { x: 0, y: 3 },
        Coord { x: 3, y: 3 },
        Coord { x: 19, y: 3 },
        Coord { x: 25, y: 3 },
    ];
    assert_eq!(ItemUseSystem::occupants_of(&map, &cells), vec![b, a, c]);
    assert!(store.is_alive(d));
}

#[test]
fn apply_works_on_the_targets_it_is_given() {
    let mut store = EntityStore::new();
    let mut log = GameLog::new();
    let a = store.spawn(actor("A", 3, 3, 1, 9));
    let b = store.spawn(actor("B", 4, 3, 8, 9));
    let item = store.spawn(potion(5, true));
    let spent = ItemUseSystem::apply(&mut store, &mut log, true, item, &vec![a, b, a]);
    assert!(spent);
    assert_eq!(hp(&store, a), 9);
    assert_eq!(hp(&store, b), 9);
    assert!(store.is_alive(item));
    assert_eq!(log.entries.len(), 3);
}

#[test]
fn pickup_takes_the_item_off_the_map_into_the_backpack() {
    let mut store = EntityStore::new();
    let mut log = GameLog::new();
    let player = store.spawn(hero(5, 5, 10, 30));
    let mut lying = potion(8, true);
    lying.position = Some(Position { x: 5, y: 5 });
    let item = store.spawn(lying);
    give(&mut store, player, |c| {
        c.wants_to_pickup = Some(WantsToPickupItem { collected_by: player, item })
    });
    ItemCollectionSystem {}.run(&mut store, &mut log, player);
    let c = store.get(item).unwrap();
    assert!(c.position.is_none());
    assert_eq!(c.in_backpack, Some(InBackpack { owner: player }));
    assert!(store.get(player).unwrap().wants_to_pickup.is_none());
    assert_eq!(log.entries, vec!["You pick up Health Potion"]);
}

#[test]
fn pickup_by_a_monster_is_silent() {
    let mut store = EntityStore::new();
    let mut log = GameLog::new();
    let player = store.spawn(hero(5, 5, 10, 30));
    let thief = store.spawn(actor("Thief", 7, 7, 5, 5));
    let mut lying = potion(8, true);
    lying.position = Some(Position { x: 7, y: 7 });
    let item = store.spawn(lying);
    give(&mut store, thief, |c| {
        c.wants_to_pickup = Some(WantsToPickupItem { collected_by: thief, item })
    });
    ItemCollectionSystem {}.run(&mut store, &mut log, player);
    assert_eq!(store.get(item).unwrap().in_backpack, Some(InBackpack { owner: thief }));
    assert!(log.entries.is_empty());
}

#[test]
fn drop_puts_the_item_where_the_dropper_stands() {
    let mut store = EntityStore::new();
    let mut log = GameLog::new();
    let player = store.spawn(hero(11, 4, 10, 30));
    let mut held = potion(8, true);
    held.in_backpack = Some(InBackpack { owner: player });
    let item = store.spawn(held);
    give(&mut store, player, |c| c.wants_to_drop = Some(WantsToDropItem { item }));
    ItemDropSystem {}.run(&mut store, &mut log, player);
    let c = store.get(item).unwrap();
    assert_eq!(c.position, Some(Position { x: 11, y: 4 }));
    assert!(c.in_backpack.is_none());
    assert!(store.get(player).unwrap().wants_to_drop.is_none());
    assert_eq!(log.entries, vec!["You dropped the Health Potion."]);
}

#[test]
fn dropped_item_can_be_picked_up_again() {
    let mut store = EntityStore::new();
    let mut log = GameLog::new();
    let player = store.spawn(hero(11, 4, 10, 30));
    let mut held = potion(8, true);
    held.in_backpack = Some(InBackpack { owner: player });
    let item = store.spawn(held);
    give(&mut store, player, |c| c.wants_to_drop = Some(WantsToDropItem { item }));
    ItemDropSystem {}.run(&mut store, &mut log, player);
    assert_eq!(store.get(item).unwrap().position, Some(Position { x: 11, y: 4 }));
    give(&mut store, player, |c| {
        c.wants_to_pickup = Some(WantsToPickupItem { collected_by: player, item })
    });
    ItemCollectionSystem {}.run(&mut store, &mut log, player);
    let c = store.get(item).unwrap();
    assert!(c.position.is_none());
    assert_eq!(c.in_backpack, Some(InBackpack { owner: player }));
    assert_eq!(c.name.as_ref().unwrap().name, "Health Potion");
    assert_eq!(c.provides_healing, Some(ProvidesHealing { heal_amount: 8 }));
    assert!(c.consumable.is_some() && c.item.is_some());
    assert!(c.wants_to_drop.is_none() && c.wants_to_pickup.is_none());
    let p = store.get(player).unwrap();
    assert_eq!(p.position, Some(Position { x: 11, y: 4 }));
    assert_eq!(p.combat_stats.unwrap().hp, 10);
    assert!(p.in_backpack.is_none());
    assert!(p.wants_to_drop.is_none() && p.wants_to_pickup.is_none());
}

#[test]
fn wide_blast_reaches_who_stands_on_the_target() {
    for radius in [1001, 2000, -3] {
        let mut store = EntityStore::new();
        let mut log = GameLog::new();
        let player = store.spawn(hero(2, 2, 10, 30));
        let goblin = store.spawn(actor("Goblin", 10, 10, 16, 16));
        let rim = store.spawn(actor("Rim", 0, 10, 16, 16));
        let mut scroll = thing("Fireball Scroll");
        scroll.inflicts_damage = Some(InflictsDamage { damage: 20 });
        scroll.area_of_effect = Some(AreaOfEffect { radius });
        let item = store.spawn(scroll);
        let wish = WantsToUseItem { item, target: Some(Coord { x: 10, y: 10 }) };
        let map = arena(&store);
        assert!(ItemUseSystem::targets(&store, &map, player, &wish).contains(&goblin));
        give(&mut store, player, |c| c.wants_to_use = Some(wish));
        ItemUseSystem {}.run(&mut store, &map, &mut log, player);
        assert_eq!(store.get(goblin).unwrap().suffer_damage, Some(SufferDamage { amount: 20 }));
        assert!(store.get(rim).unwrap().suffer_damage.is_none());
    }
}

#[test]
fn blast_beyond_the_widest_range_reaches_nobody() {
    let mut store = EntityStore::new();
    let player = store.spawn(hero(2, 2, 10, 30));
    let goblin = store.spawn(actor("Goblin", 10, 10, 16, 16));
    let mut scroll = thing("Fireball Scroll");
    scroll.inflicts_damage = Some(InflictsDamage { damage: 20 });
    scroll.area_of_effect = Some(AreaOfEffect { radius: 23171 });
    let item = store.spawn(scroll);
    let wish = WantsToUseItem { item, target: Some(Coord { x: 10, y: 10 }) };
    let map = arena(&store);
    assert!(store.is_alive(goblin));
    assert!(ItemUseSystem::targets(&store, &map, player, &wish).is_empty());
}

#[test]
fn wishes_for_items_that_are_gone_do_nothing() {
    let mut store = EntityStore::new();
    let mut log = GameLog::new();
    let player = store.spawn(hero(11, 4, 10, 30));
    let item = store.spawn(potion(8, true));
    store.delete(item);
    give(&mut store, player, |c| {
        c.wants_to_drop = Some(WantsToDropItem { item });
        c.wants_to_pickup = Some(WantsToPickupItem { collected_by: player, item });
        c.wants_to_use = Some(WantsToUseItem { item, target: None });
    });
    let map = arena(&store);
    ItemCollectionSystem {}.run(&mut store, &mut log, player);
    ItemUseSystem {}.run(&mut store, &map, &mut log, player);
    ItemDropSystem {}.run(&mut store, &mut log, player);
    let c = store.get(player).unwrap();
    assert!(c.wants_to_drop.is_none() && c.wants_to_pickup.is_none() && c.wants_to_use.is_none());
    assert_eq!(hp(&store, player), 10);
    assert!(log.entries.is_empty());
}
