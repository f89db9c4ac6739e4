//! The wording of the log messages.

use vstd::prelude::*;
use vstd::string::*;

verus! {

/// The character for the digit `d`.
pub open spec fn digit_char(d: int) -> char {
    if d == 0 {
        '0'
    } else if d == 1 {
        '1'
    } else if d == 2 {
        '2'
    } else if d == 3 {
        '3'
    } else if d == 4 {
        '4'
    } else if d == 5 {
        '5'
    } else if d == 6 {
        '6'
    } else if d == 7 {
        '7'
    } else if d == 8 {
        '8'
    } else {
        '9'
    }
}

/// The decimal digits of `n`, without leading zeros.
pub open spec fn decimal_nat(n: nat) -> Seq<char>
    decreases n,
{
    if n < 10 {
        seq![digit_char(n as int)]
    } else {
        decimal_nat(n / 10).push(digit_char((n % 10) as int))
    }
}

/// `n` in decimal, with a minus sign where it is negative.
pub open spec fn decimal(n: int) -> Seq<char> {
    if n < 0 {
        seq!['-'] + decimal_nat((-n) as nat)
    } else {
        decimal_nat(n as nat)
    }
}

/// The name that stands in for an entity without one.
pub open spec fn nameless() -> Seq<char> {
    "DEBUG: MISSING NAME"@
}

/// A blow that did no harm.
pub open spec fn miss_text(attacker: Seq<char>, victim: Seq<char>) -> Seq<char> {
    attacker + " is unable to hurt "@ + victim
}

/// A blow that took `damage` health.
pub open spec fn hit_text(attacker: Seq<char>, victim: Seq<char>, damage: int) -> Seq<char> {
    attacker + " hits "@ + victim + ", for "@ + decimal(damage) + " hp."@
}

/// The player picked `item` up.
pub open spec fn pickup_text(item: Seq<char>) -> Seq<char> {
    "You pick up "@ + item
}

/// The player healed with `item`.
pub open spec fn heal_text(item: Seq<char>, amount: int) -> Seq<char> {
    "You use the "@ + item + ", healing "@ + decimal(amount)
}

/// The player harmed `victim` with `item`.
pub open spec fn harm_text(item: Seq<char>, victim: Seq<char>, amount: int) -> Seq<char> {
    "You use "@ + item + " on "@ + victim + ", inflicting "@ + decimal(amount) + " hp."@
}

/// The player confused `victim` with `item`.
pub open spec fn confuse_text(item: Seq<char>, victim: Seq<char>) -> Seq<char> {
    "You use "@ + item + " on "@ + victim + ", confusing it."@
}

/// The player put `item` down.
pub open spec fn drop_text(item: Seq<char>) -> Seq<char> {
    "You dropped the "@ + item + "."@
}

/// `victim` died.
pub open spec fn death_text(victim: Seq<char>) -> Seq<char> {
    victim + " is dead"@
}

/// The player died.
pub open spec fn player_death_text() -> Seq<char> {
    "You are dead"@
}

fn digit(d: u32) -> (s: &'static str)
    requires
        d < 10,
    ensures
        s@ == seq![digit_char(d as int)],
{
    proof {
        reveal_strlit("0");
        reveal_strlit("1");
        reveal_strlit("2");
        reveal_strlit("3");
        reveal_strlit("4");
        reveal_strlit("5");
        reveal_strlit("6");
        reveal_strlit("7");
        reveal_strlit("8");
        reveal_strlit("9");
    }
    let s = if d == 0 {
        "0"
    } else if d == 1 {
        "1"
    } else if d == 2 {
        "2"
    } else if d == 3 {
        "3"
    } else if d == 4 {
        "4"
    } else if d == 5 {
        "5"
    } else if d == 6 {
        "6"
    } else if d == 7 {
        "7"
    } else if d == 8 {
        "8"
    } else {
        "9"
    };
    assert(s@ =~= seq![digit_char(d as int)]);
    s
}

fn push_nat(s: &mut String, n: u32)
    ensures
        final(s)@ == old(s)@ + decimal_nat(n as nat),
    decreases n,
{
    if n >= 10 {
        push_nat(s, n / 10);
    }
    s.append(digit(n % 10));
    assert(s@ =~= old(s)@ + decimal_nat(n as nat));
}

/// Appends `n` in decimal to `s`.
pub fn push_int(s: &mut String, n: i32)
    ensures
        final(s)@ == old(s)@ + decimal(n as int),
{
    if n < 0 {
        proof {
            reveal_strlit("-");
        }
        s.append("-");
        assert("-"@ =~= seq!['-']);
        let m: u32 = (-(n as i64)) as u32;
        push_nat(s, m);
        assert(s@ =~= old(s)@ + decimal(n as int));
    } else {
        push_nat(s, n as u32);
    }
}

/// `n` in decimal.
pub fn int_to_string(n: i32) -> (s: String)
    ensures
        s@ == decimal(n as int),
{
    let mut s = String::new();
    push_int(&mut s, n);
    assert(s@ =~= decimal(n as int));
    s
}

/// The text of [`nameless`].
pub fn nameless_name() -> (s: &'static str)
    ensures
        s@ == nameless(),
{
    "DEBUG: MISSING NAME"
}

/// The message of [`miss_text`].
pub fn miss_message(attacker: &str, victim: &str) -> (s: String)
    ensures
        s@ == miss_text(attacker@, victim@),
{
    let mut s = String::from_str(attacker);
    s.append(" is unable to hurt ");
    s.append(victim);
    s
}

/// The message of [`hit_text`].
pub fn hit_message(attacker: &str, victim: &str, damage: i32) -> (s: String)
    ensures
        s@ == hit_text(attacker@, victim@, damage as int),
{
    let mut s = String::from_str(attacker);
    s.append(" hits ");
    s.append(victim);
    s.append(", for ");
    push_int(&mut s, damage);
    s.append(" hp.");
    s
}

/// The message of [`pickup_text`].
pub fn pickup_message(item: &str) -> (s: String)
    ensures
        s@ == pickup_text(item@),
{
    let mut s = String::from_str("You pick up ");
    s.append(item);
    s
}

/// The message of [`heal_text`].
pub fn heal_message(item: &str, amount: i32) -> (s: String)
    ensures
        s@ == heal_text(item@, amount as int),
{
    let mut s = String::from_str("You use the ");
    s.append(item);
    s.append(", healing ");
    push_int(&mut s, amount);
    s
}

/// The message of [`harm_text`].
pub fn harm_message(item: &str, victim: &str, amount: i32) -> (s: String)
    ensures
        s@ == harm_text(item@, victim@, amount as int),
{
    let mut s = String::from_str("You use ");
    s.append(item);
    s.append(" on ");
    s.append(victim);
    s.append(", inflicting ");
    push_int(&mut s, amount);
    s.append(" hp.");
    s
}

/// The message of [`confuse_text`].
pub fn confuse_message(item: &str, victim: &str) -> (s: String)
    ensures
        s@ == confuse_text(item@, victim@),
{
    let mut s = String::from_str("You use ");
    s.append(item);
    s.append(" on ");
    s.append(victim);
    s.append(", confusing it.");
    s
}

/// The message of [`drop_text`].
pub fn drop_message(item: &str) -> (s: String)
    ensures
        s@ == drop_text(item@),
{
    let mut s = String::from_str("You dropped the ");
    s.append(item);
    s.append(".");
    s
}

/// The message of [`death_text`].
pub fn death_message(victim: &str) -> (s: String)
    ensures
        s@ == death_text(victim@),
{
    let mut s = String::from_str(victim);
    s.append(" is dead");
    s
}

/// The message of [`player_death_text`].
pub fn player_death_message() -> (s: String)
    ensures
        s@ == player_death_text(),
{
    String::from_str("You are dead")
}

} // verus!
