use rouge::arith::{add_clamped, sub_clamped};
use rouge::coord::Coord;
use rouge::rect::Rect;
use rouge::text::{
    confuse_message, death_message, drop_message, harm_message, heal_message, hit_message,
    int_to_string, miss_message, nameless_name, pickup_message, player_death_message,
};

#[test]
fn integers_are_written_in_decimal() {
    assert_eq!(int_to_string(0), "0");
    assert_eq!(int_to_string(7), "7");
    assert_eq!(int_to_string(10), "10");
    assert_eq!(int_to_string(1234567890), "1234567890");
    assert_eq!(int_to_string(-1), "-1");
    assert_eq!(int_to_string(-305), "-305");
    assert_eq!(int_to_string(i32::MAX), "2147483647");
    assert_eq!(int_to_string(i32::MIN), "-2147483648");
}

#[test]
fn messages_have_their_wording() {
    assert_eq!(hit_message("Orc", "Player", 7), "Orc hits Player, for 7 hp.");
    assert_eq!(miss_message("Rat", "Player"), "Rat is unable to hurt Player");
    assert_eq!(pickup_message("Health Potion"), "You pick up Health Potion");
    assert_eq!(heal_message("Health Potion", 8), "You use the Health Potion, healing 8");
    assert_eq!(
        harm_message("Fireball Scroll", "Goblin", 20),
        "You use Fireball Scroll on Goblin, inflicting 20 hp."
    );
    assert_eq!(
        confuse_message("Confusion Scroll", "Goblin"),
        "You use Confusion Scroll on Goblin, confusing it."
    );
    assert_eq!(drop_message("Health Potion"), "You dropped the Health Potion.");
    assert_eq!(death_message("Goblin"), "Goblin is dead");
    assert_eq!(player_death_message(), "You are dead");
    assert_eq!(nameless_name(), "DEBUG: MISSING NAME");
}

#[test]
fn clamped_arithmetic_stops_at_the_ends() {
    assert_eq!(add_clamped(2, 3), 5);
    assert_eq!(add_clamped(i32::MAX, 1), i32::MAX);
    assert_eq!(add_clamped(i32::MIN, -1), i32::MIN);
    assert_eq!(sub_clamped(2, 3), -1);
    assert_eq!(sub_clamped(i32::MIN, 1), i32::MIN);
    assert_eq!(sub_clamped(i32::MAX, -1), i32::MAX);
}

#[test]
fn rect_corners_centre_and_overlap() {
    let a = Rect::new(2, 3, 6, 8);
    assert_eq!(a, Rect { x1: 2, y1: 3, x2: 8, y2: 11 });
    assert_eq!(a.center(), (5, 7));
    assert!(a.intersect(&Rect::new(8, 11, 2, 2)));
    assert!(!a.intersect(&Rect::new(9, 3, 2, 2)));
    assert!(!a.intersect(&Rect::new(2, 12, 2, 2)));
    assert!(a.intersect(&a));
    assert_eq!(Rect::new(-5, -5, 2, 2).center(), (-4, -4));
}

#[test]
fn distance_is_straight_line() {
    let a = Coord::new(0, 0);
    assert!(a.is_within(&Coord::new(3, 4), 5));
    assert!(!a.is_within(&Coord::new(3, 4), 4));
    assert!(a.is_within(&a, 0));
    assert!(!a.is_within(&a, -1));
    assert!(Coord::new(i32::MIN, 0).is_within(&Coord::new(i32::MIN + 2, 0), 2));
    assert!(!Coord::new(i32::MIN, i32::MIN).is_within(&Coord::new(i32::MAX, i32::MAX), i32::MAX));
}
