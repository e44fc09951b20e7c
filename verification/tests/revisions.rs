use engine_rust::action::{Action, DelayedTrigger, DelayedTriggerCondition, TemporaryEffect};
use engine_rust::card::{CardDef, CardName};
use engine_rust::game::{ChoiceKind, ChoiceReason, GameState, PendingChoice};
use engine_rust::mana::ManaPool;
use engine_rust::permanent::Permanent;
use engine_rust::stack::TriggeredEffect;
use engine_rust::types::{CardType, Keyword, Keywords, ObjectId, Phase, PlayerId, Step};

fn put(g: &mut GameState, name: CardName, controller: PlayerId, types: &[CardType], kw: Keywords) -> ObjectId {
    let id = g.new_object_id();
    g.card_registry.push((id, name));
    g.battlefield.push(Permanent::new(id, name, controller, controller, Some(2), Some(2), None, kw, types));
    id
}

#[test]
fn pay_generic_pays_amounts_beyond_a_byte() {
    let mut pool = ManaPool::new();
    pool.colorless = 200;
    pool.white = 100;
    assert!(pool.pay_generic(256));
    assert_eq!(pool.total(), 44);
    assert_eq!(pool.colorless, 0);
    assert_eq!(pool.white, 44);
    assert!(!pool.pay_generic(45));
    assert_eq!(pool.total(), 44);
}

fn shock_choice(g: &mut GameState, land: ObjectId) {
    g.pending_choice = Some(PendingChoice {
        player: 0,
        kind: ChoiceKind::ChooseNumber { min: 0, max: 1, reason: ChoiceReason::ShockLandETB { card_id: land } },
    });
}

#[test]
fn shock_land_choice_zero_enters_tapped() {
    let db: Vec<CardDef> = vec![];
    let mut g = GameState::new_two_player();
    let land = put(&mut g, CardName::Island, 0, &[CardType::Land], Keywords::empty());
    shock_choice(&mut g, land);
    g.apply_action(&Action::ChooseNumber(0), &db);
    assert!(g.pending_choice.is_none());
    assert!(g.find_permanent(land).unwrap().tapped);
    assert_eq!(g.players[0].life, 20);
}

#[test]
fn shock_land_choice_one_pays_two_life() {
    let db: Vec<CardDef> = vec![];
    let mut g = GameState::new_two_player();
    let land = put(&mut g, CardName::Island, 0, &[CardType::Land], Keywords::empty());
    shock_choice(&mut g, land);
    g.apply_action(&Action::ChooseNumber(1), &db);
    assert!(g.pending_choice.is_none());
    assert!(!g.find_permanent(land).unwrap().tapped);
    assert_eq!(g.players[0].life, 18);
}

#[test]
fn cleanup_keeps_a_keyword_the_creature_already_had() {
    let mut g = GameState::new_two_player();
    let mut kw = Keywords::empty();
    kw.add(Keyword::Flying);
    let bird = put(&mut g, CardName::Tarmogoyf, 0, &[CardType::Creature], kw);
    g.add_temporary_effect(TemporaryEffect::GrantKeyword { target: bird, keyword: Keyword::Flying });
    assert!(g.temporary_effects.is_empty());
    g.add_temporary_effect(TemporaryEffect::GrantKeyword { target: bird, keyword: Keyword::Haste });
    assert!(g.find_permanent(bird).unwrap().keywords.has(Keyword::Haste));
    g.end_of_turn_cleanup();
    assert!(g.find_permanent(bird).unwrap().keywords.has(Keyword::Flying));
    assert!(!g.find_permanent(bird).unwrap().keywords.has(Keyword::Haste));
}

#[test]
fn new_game_has_no_attackers_or_blockers() {
    let g = GameState::new_two_player();
    assert!(g.attackers.is_empty());
    assert!(g.blockers.is_empty());
}

#[test]
fn draw_step_draws_except_on_the_first_turn() {
    let mut g = GameState::new_two_player();
    g.players[0].library = vec![1, 2];
    g.players[1].library = vec![3, 4];
    g.turn_number = 1;
    g.step = Some(Step::Upkeep);
    g.advance_phase();
    assert_eq!(g.step, Some(Step::Draw));
    assert!(g.players[0].hand.is_empty());
    assert_eq!(g.priority_player, 0);
    g.turn_number = 2;
    g.step = Some(Step::Upkeep);
    g.advance_phase();
    assert_eq!(g.players[0].hand, vec![2]);
}

#[test]
fn cleanup_hands_the_turn_over() {
    let mut g = GameState::new_two_player();
    g.phase = Phase::Ending;
    g.step = Some(Step::Cleanup);
    g.turn_number = 3;
    g.storm_count = 4;
    let rock = put(&mut g, CardName::SolRing, 1, &[CardType::Artifact], Keywords::empty());
    g.battlefield[0].tapped = true;
    g.advance_phase();
    assert_eq!(g.active_player, 1);
    assert_eq!(g.priority_player, 1);
    assert_eq!(g.turn_number, 4);
    assert_eq!(g.storm_count, 0);
    assert!(!g.find_permanent(rock).unwrap().tapped);
    g.players[1].extra_turns = 1;
    g.phase = Phase::Ending;
    g.step = Some(Step::Cleanup);
    g.advance_phase();
    assert_eq!(g.active_player, 1);
    assert_eq!(g.players[1].extra_turns, 0);
}

#[test]
fn delayed_triggers_that_stay_keep_their_order() {
    let mut g = GameState::new_two_player();
    let t = |p: PlayerId, once: bool, n: u16| DelayedTrigger {
        condition: DelayedTriggerCondition::AtBeginningOfUpkeep { player: p },
        effect: TriggeredEffect::DealDamage(n),
        controller: 0,
        fires_once: once,
    };
    g.delayed_triggers = vec![t(1, true, 1), t(0, true, 2), t(1, false, 3), t(1, true, 4)];
    g.step = Some(Step::Upkeep);
    g.check_delayed_triggers();
    assert_eq!(g.stack.items.len(), 1);
    assert_eq!(g.delayed_triggers, vec![t(1, true, 1), t(1, false, 3), t(1, true, 4)]);
}

#[test]
fn shock_land_entering_asks_and_the_answer_applies() {
    let db: Vec<CardDef> = vec![];
    let mut g = GameState::new_two_player();
    let land = put(&mut g, CardName::HallowedFountain, 0, &[CardType::Land], Keywords::empty());
    g.handle_etb(CardName::HallowedFountain, land, 0);
    match &g.pending_choice {
        Some(c) => assert!(matches!(c.kind, ChoiceKind::ChooseNumber { min: 0, max: 1, reason: ChoiceReason::ShockLandETB { .. } })),
        None => panic!("no choice"),
    }
    g.apply_action(&Action::ChooseNumber(1), &db);
    assert_eq!(g.players[0].life, 18);
    assert!(!g.find_permanent(land).unwrap().tapped);
}

#[test]
fn life_from_the_loam_returns_three_lands() {
    let land = |n: CardName| CardDef {
        name: n,
        mana_cost: engine_rust::mana::ManaCost::zero(),
        card_types: vec![CardType::Land],
        creature_types: vec![],
        is_changeling: false,
        keywords: Keywords::empty(),
        power: None,
        toughness: None,
        loyalty: None,
        color_identity: vec![],
        madness_cost: None,
        back_face: None,
    };
    let db = vec![land(CardName::Island)];
    let mut g = GameState::new_two_player();
    for id in [1u32, 2, 3, 4, 5] {
        g.card_registry.push((id, if id == 2 { CardName::Tarmogoyf } else { CardName::Island }));
    }
    g.players[0].graveyard = vec![1, 2, 3, 4, 5];
    g.resolve_card_effect(CardName::LifeFromTheLoam, 0, &[], 0, &[], false, &db);
    assert_eq!(g.players[0].hand, vec![4, 3, 1]);
    assert_eq!(g.players[0].graveyard, vec![2, 5]);
}

#[test]
fn discarding_takes_the_card_out_of_the_hand() {
    let db: Vec<CardDef> = vec![];
    let mut g = GameState::new_two_player();
    g.players[0].hand = vec![5, 6, 7];
    g.discard_card(6, 0, &db);
    assert_eq!(g.players[0].hand, vec![5, 7]);
    assert_eq!(g.players[0].graveyard, vec![6]);
    assert_eq!(g.players[0].cards_discarded_this_turn, 1);
}

#[test]
fn load_and_draw_from_a_new_game() {
    let mut g = GameState::new_two_player();
    g.load_deck(0, &[CardName::Island, CardName::Island, CardName::Island], &[]);
    g.draw_cards(0, 2);
    assert_eq!(g.players[0].hand, vec![1002, 1001]);
    assert_eq!(g.players[0].library, vec![1000]);
    assert!(g.players[0].has_drawn_this_turn);
    assert!(!g.players[0].has_lost);
    assert!(g.players[0].graveyard.is_empty());
}

#[test]
fn a_trigger_deals_large_damage_to_a_creature() {
    let db: Vec<CardDef> = vec![];
    let mut g = GameState::new_two_player();
    let id = put(&mut g, CardName::Tarmogoyf, 1, &[CardType::Creature], Keywords::empty());
    g.resolve_triggered(TriggeredEffect::DealDamage(500), 0, &[engine_rust::types::Target::Object(id)], &db);
    assert_eq!(g.battlefield[0].damage, 500);
    assert_eq!(g.players[1].life, 20);
}

#[test]
fn removing_an_equipped_creature_unlinks_its_equipment() {
    let mut g = GameState::new_two_player();
    let creature = put(&mut g, CardName::Tarmogoyf, 0, &[CardType::Creature], Keywords::empty());
    let gear = put(&mut g, CardName::Island, 0, &[CardType::Artifact], Keywords::empty());
    g.battlefield[0].attachments = vec![gear];
    g.battlefield[1].attached_to = Some(creature);
    let removed = g.remove_permanent_to_zone(creature, engine_rust::game::DestinationZone::Graveyard);
    assert_eq!(removed.map(|p| p.id), Some(creature));
    assert_eq!(g.battlefield.len(), 1);
    assert_eq!(g.battlefield[0].id, gear);
    assert_eq!(g.battlefield[0].attached_to, None);
    assert_eq!(g.players[0].graveyard, vec![creature]);
}

#[test]
fn removing_an_attached_permanent_drops_it_from_its_host() {
    let mut g = GameState::new_two_player();
    let creature = put(&mut g, CardName::Tarmogoyf, 0, &[CardType::Creature], Keywords::empty());
    let gear = put(&mut g, CardName::Island, 0, &[CardType::Artifact], Keywords::empty());
    g.battlefield[0].attachments = vec![gear];
    g.battlefield[1].attached_to = Some(creature);
    g.remove_permanent_to_zone(gear, engine_rust::game::DestinationZone::Exile);
    assert_eq!(g.battlefield.len(), 1);
    assert!(g.battlefield[0].attachments.is_empty());
    assert_eq!(g.exile, vec![(gear, CardName::Island, 0)]);
}

#[test]
fn a_trigger_gains_a_million_life() {
    let db: Vec<CardDef> = vec![];
    let mut g = GameState::new_two_player();
    g.resolve_triggered(TriggeredEffect::GainLife(1_000_000), 1, &[], &db);
    assert_eq!(g.players[1].life, 1_000_020);
    assert_eq!(g.players[0].life, 20);
}
