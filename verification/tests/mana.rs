use engine_rust::mana::{parse_mana_cost, ManaCost, ManaPool};
use engine_rust::types::Color;

#[test]
fn test_mana_pool_pay() {
    let mut pool = ManaPool {
        blue: 2,
        red: 1,
        ..Default::default()
    };
    let cost = ManaCost {
        blue: 1,
        generic: 1,
        ..ManaCost::zero()
    };
    assert!(pool.can_pay(&cost));
    assert!(pool.pay(&cost));
    // {U} takes one blue, then the generic {1} takes the first available colour: blue.
    assert_eq!(pool.blue, 0);
    assert_eq!(pool.red, 1);
}

#[test]
fn test_cannot_pay() {
    let pool = ManaPool {
        red: 1,
        ..Default::default()
    };
    let cost = ManaCost {
        blue: 1,
        ..ManaCost::zero()
    };
    assert!(!pool.can_pay(&cost));
}

#[test]
fn test_parse_mana_cost() {
    let cost = parse_mana_cost("{2}{U}{U}");
    assert_eq!(cost.generic, 2);
    assert_eq!(cost.blue, 2);
    assert_eq!(cost.cmc(), 4);
}

#[test]
fn test_zero_cost() {
    let pool = ManaPool::new();
    assert!(pool.can_pay(&ManaCost::zero()));
}

#[test]
fn parse_handles_all_colours_and_hybrid_free_text() {
    let cost = parse_mana_cost("{1}{W}{U}{B}{R}{G}{C}");
    assert_eq!(cost.generic, 1);
    assert_eq!(cost.white, 1);
    assert_eq!(cost.blue, 1);
    assert_eq!(cost.black, 1);
    assert_eq!(cost.red, 1);
    assert_eq!(cost.green, 1);
    assert_eq!(cost.colorless, 1);
    assert_eq!(cost.cmc(), 7);
}

#[test]
fn parse_empty_is_zero() {
    let cost = parse_mana_cost("");
    assert_eq!(cost, ManaCost::zero());
    assert_eq!(cost.cmc(), 0);
}

#[test]
fn parse_multi_digit_generic() {
    let cost = parse_mana_cost("{12}{B}");
    assert_eq!(cost.generic, 12);
    assert_eq!(cost.black, 1);
    assert_eq!(cost.cmc(), 13);
}

#[test]
fn add_then_remove_restores_pool() {
    let mut pool = ManaPool::new();
    pool.add(Some(Color::Green), 3);
    assert_eq!(pool.get(Some(Color::Green)), 3);
    assert_eq!(pool.total(), 3);
    pool.remove(Some(Color::Green), 3);
    assert_eq!(pool, ManaPool::new());
}

#[test]
fn pay_spends_exactly_the_mana_value() {
    let mut pool = ManaPool { black: 3, green: 2, colorless: 1, ..Default::default() };
    let before = pool.total();
    let cost = ManaCost { black: 1, generic: 3, ..ManaCost::zero() };
    assert!(pool.pay(&cost));
    assert_eq!(pool.total(), before - cost.cmc() as u16);
}

#[test]
fn failed_payment_leaves_pool_unchanged() {
    let mut pool = ManaPool { red: 1, ..Default::default() };
    let snapshot = pool.clone();
    let cost = ManaCost::u(1);
    assert!(!pool.pay(&cost));
    assert_eq!(pool, snapshot);
}

#[test]
fn pay_generic_fails_when_short() {
    let mut pool = ManaPool { white: 1, ..Default::default() };
    assert!(!pool.pay_generic(2));
    assert!(pool.pay_generic(1));
    assert_eq!(pool.total(), 0);
}

#[test]
fn empty_clears_everything() {
    let mut pool = ManaPool { white: 1, blue: 2, colorless: 4, ..Default::default() };
    pool.empty();
    assert_eq!(pool.total(), 0);
}

#[test]
fn cost_constructors() {
    assert_eq!(ManaCost::generic(3).cmc(), 3);
    assert_eq!(ManaCost::w(1).white, 1);
    assert_eq!(ManaCost::r(2).red, 2);
    assert_eq!(ManaCost::g(1).green, 1);
    assert_eq!(ManaCost::b(1).black, 1);
    assert_eq!(ManaCost::color(1, 2).blue, 2);
}
