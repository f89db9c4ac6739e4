use rouge::components::{CombatStats, Components, Name, Player, SufferDamage, WantsToMelee};
use rouge::game_log::GameLog;
use rouge::state::remove_the_dead;
use rouge::store::{Entity, EntityStore};
use rouge::systems::{DamageSystem, MeleeCombatSystem};

fn fighter(name: &str, hp: i32, max_hp: i32, defense: i32, power: i32) -> Components {
    let mut c = Components::new();
    c.name = Some(Name { name: name.to_string() });
    c.combat_stats = Some(CombatStats { max_hp, hp, defense, power });
    c
}

fn attacker(name: &str, power: i32, target: Entity) -> Components {
    let mut c = fighter(name, 10, 10, 0, power);
    c.wants_to_melee = Some(WantsToMelee { target });
    c
}

fn hp_of(store: &EntityStore, e: Entity) -> i32 {
    store.get(e).unwrap().combat_stats.unwrap().hp
}

#[test]
fn one_blow_takes_power_minus_defense() {
    let mut store = EntityStore::new();
    let mut log = GameLog::new();
    let defender = store.spawn(fighter("Defender", 20, 20, 3, 1));
    let striker = store.spawn(attacker("Attacker", 10, defender));
    MeleeCombatSystem {}.run(&mut store, &mut log);
    assert_eq!(store.get(defender).unwrap().suffer_damage, Some(SufferDamage { amount: 7 }));
    assert!(store.get(striker).unwrap().wants_to_melee.is_none());
    assert_eq!(hp_of(&store, defender), 20);
    DamageSystem {}.run(&mut store);
    assert_eq!(hp_of(&store, defender), 13);
    assert!(store.get(defender).unwrap().suffer_damage.is_none());
    assert_eq!(log.entries.len(), 1);
    assert!(log.entries[0].contains("Attacker"));
    assert!(log.entries[0].contains("Defender"));
    assert!(log.entries[0].contains("7"));
    assert_eq!(log.entries[0], "Attacker hits Defender, for 7 hp.");
}

#[test]
fn simultaneous_blows_add_up() {
    let mut store = EntityStore::new();
    let mut log = GameLog::new();
    let defender = store.spawn(fighter("Defender", 30, 30, 2, 1));
    store.spawn(attacker("A", 5, defender));
    store.spawn(attacker("B", 9, defender));
    store.spawn(attacker("C", 2, defender));
    store.spawn(attacker("D", 4, defender));
    MeleeCombatSystem {}.run(&mut store, &mut log);
    assert_eq!(store.get(defender).unwrap().suffer_damage, Some(SufferDamage { amount: 12 }));
    DamageSystem {}.run(&mut store);
    assert_eq!(hp_of(&store, defender), 18);
    assert_eq!(
        log.entries,
        vec![
            "D hits Defender, for 2 hp.",
            "C is unable to hurt Defender",
            "B hits Defender, for 7 hp.",
            "A hits Defender, for 3 hp.",
        ]
    );
}

#[test]
fn blows_pile_onto_damage_that_waits() {
    let mut store = EntityStore::new();
    let mut log = GameLog::new();
    let mut hurt = fighter("Defender", 30, 30, 0, 1);
    hurt.suffer_damage = Some(SufferDamage { amount: 4 });
    let defender = store.spawn(hurt);
    store.spawn(attacker("A", 5, defender));
    MeleeCombatSystem {}.run(&mut store, &mut log);
    assert_eq!(store.get(defender).unwrap().suffer_damage, Some(SufferDamage { amount: 9 }));
}

#[test]
fn blow_without_effect_is_noted_and_queues_nothing() {
    let mut store = EntityStore::new();
    let mut log = GameLog::new();
    let defender = store.spawn(fighter("Knight", 20, 20, 9, 1));
    store.spawn(attacker("Rat", 3, defender));
    MeleeCombatSystem {}.run(&mut store, &mut log);
    assert!(store.get(defender).unwrap().suffer_damage.is_none());
    assert_eq!(log.entries, vec!["Rat is unable to hurt Knight"]);
}

#[test]
fn the_dead_and_the_targets_of_the_dead_are_left_alone() {
    let mut store = EntityStore::new();
    let mut log = GameLog::new();
    let defender = store.spawn(fighter("Defender", 20, 20, 0, 1));
    let corpse = store.spawn(fighter("Corpse", 0, 20, 0, 1));
    let mut ghost = attacker("Ghost", 5, defender);
    ghost.combat_stats = Some(CombatStats { max_hp: 10, hp: 0, defense: 0, power: 5 });
    store.spawn(ghost);
    store.spawn(attacker("Bully", 5, corpse));
    let stale = store.spawn(fighter("Gone", 5, 5, 0, 0));
    store.delete(stale);
    let nobody = store.spawn(attacker("Lost", 5, stale));
    MeleeCombatSystem {}.run(&mut store, &mut log);
    assert!(store.get(defender).unwrap().suffer_damage.is_none());
    assert!(store.get(corpse).unwrap().suffer_damage.is_none());
    assert!(log.entries.is_empty());
    assert!(store.get(nobody).unwrap().wants_to_melee.is_none());
}

#[test]
fn nameless_fighters_get_the_stand_in_name() {
    let mut store = EntityStore::new();
    let mut log = GameLog::new();
    let mut target = fighter("x", 20, 20, 0, 1);
    target.name = None;
    let defender = store.spawn(target);
    store.spawn(attacker("Orc", 4, defender));
    MeleeCombatSystem {}.run(&mut store, &mut log);
    assert_eq!(log.entries, vec!["Orc hits DEBUG: MISSING NAME, for 4 hp."]);
}

#[test]
fn damage_of_a_blow_stops_at_the_end_of_the_range() {
    let mut store = EntityStore::new();
    let mut log = GameLog::new();
    let defender = store.spawn(fighter("Defender", 20, 20, i32::MIN, 1));
    store.spawn(attacker("A", i32::MAX, defender));
    store.spawn(attacker("B", 5, defender));
    MeleeCombatSystem {}.run(&mut store, &mut log);
    assert_eq!(
        store.get(defender).unwrap().suffer_damage,
        Some(SufferDamage { amount: i32::MAX })
    );
    DamageSystem {}.run(&mut store);
    assert_eq!(hp_of(&store, defender), 20 - i32::MAX);
}

#[test]
fn damage_pass_leaves_the_unhurt_alone_and_clears_what_waits() {
    let mut store = EntityStore::new();
    let a = store.spawn(fighter("A", 7, 9, 0, 0));
    let mut b = Components::new();
    b.suffer_damage = Some(SufferDamage { amount: 3 });
    let b = store.spawn(b);
    let mut c = fighter("C", 7, 9, 0, 0);
    c.suffer_damage = Some(SufferDamage { amount: 10 });
    let c = store.spawn(c);
    DamageSystem {}.run(&mut store);
    assert_eq!(hp_of(&store, a), 7);
    assert!(store.get(b).unwrap().suffer_damage.is_none());
    assert!(store.get(b).unwrap().combat_stats.is_none());
    assert_eq!(hp_of(&store, c), -3);
    assert_eq!(store.get(c).unwrap().combat_stats.unwrap().max_hp, 9);
}

#[test]
fn health_stays_within_bounds_after_damage() {
    let mut store = EntityStore::new();
    let mut hurt = fighter("A", 9, 9, 0, 0);
    hurt.suffer_damage = Some(SufferDamage { amount: 0 });
    let a = store.spawn(hurt);
    let mut more = fighter("B", 5, 9, 0, 0);
    more.suffer_damage = Some(SufferDamage { amount: 2 });
    let b = store.spawn(more);
    DamageSystem {}.run(&mut store);
    for e in [a, b] {
        let stats = store.get(e).unwrap().combat_stats.unwrap();
        assert!(stats.hp <= stats.max_hp);
    }
}

#[test]
fn dead_monster_is_removed_and_noted_once() {
    let mut store = EntityStore::new();
    let mut log = GameLog::new();
    let goblin = store.spawn(fighter("Goblin", 0, 16, 1, 4));
    let orc = store.spawn(fighter("Orc", 1, 16, 1, 4));
    remove_the_dead(&mut store, &mut log);
    assert!(!store.is_alive(goblin));
    assert!(store.is_alive(orc));
    assert_eq!(log.entries, vec!["Goblin is dead"]);
    remove_the_dead(&mut store, &mut log);
    assert_eq!(log.entries.len(), 1);
}

#[test]
fn dead_player_is_never_removed() {
    let mut store = EntityStore::new();
    let mut log = GameLog::new();
    let mut hero = fighter("Player", -5, 30, 2, 5);
    hero.player = Some(Player {});
    let hero = store.spawn(hero);
    let rat = store.spawn(fighter("Rat", -1, 3, 0, 1));
    remove_the_dead(&mut store, &mut log);
    assert!(store.is_alive(hero));
    assert!(!store.is_alive(rat));
    assert_eq!(log.entries, vec!["Rat is dead", "You are dead"]);
}

#[test]
fn health_that_reaches_zero_in_a_fight_kills_by_the_end_of_the_sweep() {
    let mut store = EntityStore::new();
    let mut log = GameLog::new();
    let goblin = store.spawn(fighter("Goblin", 7, 16, 3, 4));
    store.spawn(attacker("Player", 10, goblin));
    MeleeCombatSystem {}.run(&mut store, &mut log);
    DamageSystem {}.run(&mut store);
    assert_eq!(hp_of(&store, goblin), 0);
    remove_the_dead(&mut store, &mut log);
    assert!(!store.is_alive(goblin));
    let deaths: Vec<&String> = log.entries.iter().filter(|l| l.contains("is dead")).collect();
    assert_eq!(deaths, vec!["Goblin is dead"]);
}
