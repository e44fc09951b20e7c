use engine_rust::action::{Action, ActionContext};
use engine_rust::card::{CardDef, CardName};
use engine_rust::game::{ChoiceKind, ChoiceReason, GameState, PendingChoice};
use engine_rust::mana::ManaCost;
use engine_rust::permanent::Permanent;
use engine_rust::types::{CardType, Color, GameResult, Keyword, Keywords, ObjectId, Phase, PlayerId, Target};

fn def(name: CardName, cost: ManaCost, types: &[CardType], colors: &[Color], pt: Option<(i16, i16)>) -> CardDef {
    CardDef {
        name,
        mana_cost: cost,
        card_types: types.to_vec(),
        creature_types: vec![],
        is_changeling: false,
        keywords: Keywords::empty(),
        power: pt.map(|p| p.0),
        toughness: pt.map(|p| p.1),
        loyalty: None,
        color_identity: colors.to_vec(),
        madness_cost: None,
        back_face: None,
    }
}

fn db() -> Vec<CardDef> {
    let land = [CardType::Land];
    vec![
        def(CardName::Island, ManaCost::zero(), &land, &[], None),
        def(CardName::Mountain, ManaCost::zero(), &land, &[], None),
        def(CardName::Swamp, ManaCost::zero(), &land, &[], None),
        def(CardName::UndergroundSea, ManaCost::zero(), &land, &[], None),
        def(CardName::PollutedDelta, ManaCost::zero(), &land, &[], None),
        def(CardName::LightningBolt, ManaCost { red: 1, ..ManaCost::zero() }, &[CardType::Instant], &[Color::Red], None),
        def(CardName::AncestralRecall, ManaCost { blue: 1, ..ManaCost::zero() }, &[CardType::Instant], &[Color::Blue], None),
        def(CardName::Counterspell, ManaCost { blue: 2, ..ManaCost::zero() }, &[CardType::Instant], &[Color::Blue], None),
        def(CardName::ForceOfWill, ManaCost { blue: 2, generic: 3, ..ManaCost::zero() }, &[CardType::Instant], &[Color::Blue], None),
        def(CardName::Armageddon, ManaCost { white: 1, generic: 3, ..ManaCost::zero() }, &[CardType::Sorcery], &[Color::White], None),
        def(CardName::SolRing, ManaCost { generic: 1, ..ManaCost::zero() }, &[CardType::Artifact], &[], None),
        def(CardName::ThaliaGuardianOfThraben, ManaCost { white: 1, generic: 1, ..ManaCost::zero() }, &[CardType::Creature], &[Color::White], Some((2, 1))),
    ]
}

/// Register and put a permanent named `name` onto the battlefield for `controller`.
fn put(g: &mut GameState, name: CardName, controller: PlayerId, types: &[CardType]) -> ObjectId {
    let id = g.new_object_id();
    g.card_registry.push((id, name));
    g.battlefield.push(Permanent::new(id, name, controller, controller, None, None, None, Keywords::empty(), types));
    id
}

fn creature(g: &mut GameState, name: CardName, controller: PlayerId, p: i16, t: i16) -> ObjectId {
    let id = g.new_object_id();
    g.card_registry.push((id, name));
    let mut c = Permanent::new(id, name, controller, controller, Some(p), Some(t), None, Keywords::empty(), &[CardType::Creature]);
    c.entered_this_turn = false;
    g.battlefield.push(c);
    id
}

/// A game in player 0's first main phase, with `hand` loaded into player 0's hand.
fn main_phase(hand: &[CardName]) -> (GameState, Vec<ObjectId>) {
    let d = db();
    let mut g = GameState::new_two_player();
    let ids = g.load_deck(0, hand, &d);
    g.start_game();
    g.phase = Phase::PreCombatMain;
    g.step = None;
    (g, ids)
}

fn perm(g: &GameState, id: ObjectId) -> &Permanent {
    g.find_permanent(id).unwrap()
}

#[test]
fn new_game_has_two_players_at_twenty_life() {
    let g = GameState::new_two_player();
    assert_eq!(g.players.len(), 2);
    assert_eq!(g.players[0].life, 20);
    assert_eq!(g.players[1].life, 20);
    assert_eq!(g.result, GameResult::InProgress);
    assert!(!g.is_terminal());
}

#[test]
fn start_game_draws_seven_from_the_top() {
    let d = db();
    let mut g = GameState::new_two_player();
    let ids = g.load_deck(0, &[CardName::Island; 10], &d);
    g.start_game();
    assert_eq!(g.players[0].hand.len(), 7);
    assert_eq!(g.players[0].library.len(), 3);
    assert_eq!(g.players[0].library, ids[0..3].to_vec());
    assert_eq!(g.turn_number, 1);
}

#[test]
fn legal_actions_in_main_phase_with_a_land() {
    let (g, ids) = main_phase(&[CardName::Island]);
    let acts = g.legal_actions(&db());
    assert_eq!(acts, vec![Action::PassPriority, Action::Concede, Action::PlayLand(ids[0])]);
}

#[test]
fn no_land_play_outside_main_phase() {
    let (mut g, _) = main_phase(&[CardName::Island]);
    g.phase = Phase::Combat;
    let acts = g.legal_actions(&db());
    assert_eq!(acts, vec![Action::PassPriority, Action::Concede]);
}

#[test]
fn finished_game_has_no_legal_actions() {
    let (mut g, _) = main_phase(&[CardName::Island]);
    g.result = GameResult::Win(1);
    assert!(g.legal_actions(&db()).is_empty());
}

#[test]
fn playing_a_land_then_tapping_it_for_blue() {
    let d = db();
    let (mut g, ids) = main_phase(&[CardName::Island]);
    g.apply_action(&Action::PlayLand(ids[0]), &d);
    assert!(g.players[0].hand.is_empty());
    assert_eq!(g.players[0].land_plays_remaining, 0);
    assert!(!perm(&g, ids[0]).tapped);
    let acts = g.legal_actions(&d);
    assert!(acts.contains(&Action::ActivateManaAbility { permanent_id: ids[0], color_choice: Some(Color::Blue) }));
    g.apply_action(&Action::ActivateManaAbility { permanent_id: ids[0], color_choice: Some(Color::Blue) }, &d);
    assert_eq!(g.players[0].mana_pool.blue, 1);
    assert!(perm(&g, ids[0]).tapped);
    // A tapped land offers no more mana.
    assert!(!g.activate_mana_ability(ids[0], Some(Color::Blue)));
    assert_eq!(g.players[0].mana_pool.blue, 1);
}

#[test]
fn playing_a_card_not_in_hand_does_nothing() {
    let d = db();
    let (mut g, _) = main_phase(&[CardName::Island]);
    g.apply_action(&Action::PlayLand(4242), &d);
    assert_eq!(g.players[0].hand.len(), 1);
    assert_eq!(g.players[0].land_plays_remaining, 1);
    assert!(g.battlefield.is_empty());
}

#[test]
fn sol_ring_and_ancient_tomb_make_colorless() {
    let (mut g, _) = main_phase(&[]);
    let ring = put(&mut g, CardName::SolRing, 0, &[CardType::Artifact]);
    let tomb = put(&mut g, CardName::AncientTomb, 0, &[CardType::Land]);
    assert!(g.activate_mana_ability(ring, None));
    assert_eq!(g.players[0].mana_pool.colorless, 2);
    assert!(g.activate_mana_ability(tomb, None));
    assert_eq!(g.players[0].mana_pool.colorless, 4);
    assert_eq!(g.players[0].life, 18);
}

#[test]
fn collector_ouphe_stops_artifact_mana() {
    let (mut g, _) = main_phase(&[]);
    let ring = put(&mut g, CardName::SolRing, 0, &[CardType::Artifact]);
    put(&mut g, CardName::CollectorOuphe, 1, &[CardType::Creature]);
    assert!(!g.activate_mana_ability(ring, None));
    assert_eq!(g.players[0].mana_pool.colorless, 0);
    assert!(!perm(&g, ring).tapped);
}

#[test]
fn tolarian_academy_counts_artifacts() {
    let (mut g, _) = main_phase(&[]);
    let academy = put(&mut g, CardName::TolarianAcademy, 0, &[CardType::Land]);
    assert!(g.mana_ability_options(perm(&g, academy)).is_empty());
    assert!(!g.activate_mana_ability(academy, Some(Color::Blue)));
    put(&mut g, CardName::SolRing, 0, &[CardType::Artifact]);
    put(&mut g, CardName::MoxJet, 0, &[CardType::Artifact]);
    put(&mut g, CardName::MoxRuby, 1, &[CardType::Artifact]);
    assert_eq!(g.mana_ability_options(perm(&g, academy)), vec![Some(Color::Blue)]);
    assert!(g.activate_mana_ability(academy, Some(Color::Blue)));
    assert_eq!(g.players[0].mana_pool.blue, 2);
}

#[test]
fn dual_lands_offer_both_colors() {
    let (mut g, _) = main_phase(&[]);
    let sea = put(&mut g, CardName::UndergroundSea, 0, &[CardType::Land]);
    assert_eq!(g.mana_ability_options(perm(&g, sea)), vec![Some(Color::Blue), Some(Color::Black)]);
}

#[test]
fn spells_need_mana_and_list_their_targets() {
    let d = db();
    let (mut g, ids) = main_phase(&[CardName::LightningBolt]);
    let bolt = ids[0];
    let acts = g.legal_actions(&d);
    assert!(!acts.iter().any(|a| matches!(a, Action::CastSpell { .. })));
    g.players[0].mana_pool.red = 1;
    let bear = creature(&mut g, CardName::Tarmogoyf, 1, 2, 2);
    let acts = g.legal_actions(&d);
    let casts: Vec<&Action> = acts.iter().filter(|a| matches!(a, Action::CastSpell { .. })).collect();
    assert_eq!(casts, vec![
        &Action::CastSpell { card_id: bolt, targets: vec![Target::Player(0)] },
        &Action::CastSpell { card_id: bolt, targets: vec![Target::Player(1)] },
        &Action::CastSpell { card_id: bolt, targets: vec![Target::Object(bear)] },
    ]);
}

#[test]
fn sorceries_wait_for_an_empty_stack_in_a_main_phase() {
    let d = db();
    let (mut g, ids) = main_phase(&[CardName::Armageddon]);
    g.players[0].mana_pool.white = 1;
    g.players[0].mana_pool.colorless = 3;
    assert!(g.legal_actions(&d).contains(&Action::CastSpell { card_id: ids[0], targets: vec![] }));
    g.phase = Phase::Combat;
    assert!(!g.legal_actions(&d).iter().any(|a| matches!(a, Action::CastSpell { .. })));
}

#[test]
fn lightning_bolt_resolves_for_three() {
    let d = db();
    let (mut g, ids) = main_phase(&[CardName::LightningBolt]);
    g.players[0].mana_pool.red = 1;
    g.apply_action(&Action::CastSpell { card_id: ids[0], targets: vec![Target::Player(1)] }, &d);
    assert_eq!(g.players[0].mana_pool.red, 0);
    assert!(g.players[0].hand.is_empty());
    assert_eq!(g.stack.items.len(), 1);
    assert_eq!(g.storm_count, 1);
    assert_eq!(g.players[0].spells_cast_this_turn, 1);
    g.apply_action(&Action::PassPriority, &d);
    assert_eq!(g.priority_player, 1);
    g.apply_action(&Action::PassPriority, &d);
    assert!(g.stack.items.is_empty());
    assert_eq!(g.players[1].life, 17);
    assert_eq!(g.players[0].graveyard, vec![ids[0]]);
    assert_eq!(g.priority_player, 0);
}

#[test]
fn casting_without_enough_mana_does_nothing() {
    let d = db();
    let (mut g, ids) = main_phase(&[CardName::Counterspell]);
    g.players[0].mana_pool.blue = 1;
    g.apply_action(&Action::CastSpell { card_id: ids[0], targets: vec![] }, &d);
    assert_eq!(g.players[0].mana_pool.blue, 1);
    assert_eq!(g.players[0].hand, vec![ids[0]]);
    assert!(g.stack.items.is_empty());
    assert_eq!(g.storm_count, 0);
}

#[test]
fn ancestral_recall_draws_three() {
    let d = db();
    let mut g = GameState::new_two_player();
    let ids = g.load_deck(0, &[CardName::Island, CardName::Island, CardName::Island, CardName::AncestralRecall], &d);
    g.start_game();
    g.phase = Phase::PreCombatMain;
    g.step = None;
    assert_eq!(g.players[0].hand.len(), 4);
    let more = g.load_deck(0, &[CardName::Mountain, CardName::Mountain, CardName::Mountain], &d);
    g.players[0].mana_pool.blue = 1;
    g.apply_action(&Action::CastSpell { card_id: ids[3], targets: vec![Target::Player(0)] }, &d);
    g.apply_action(&Action::PassPriority, &d);
    g.apply_action(&Action::PassPriority, &d);
    assert_eq!(g.players[0].hand.len(), 6);
    assert!(g.players[0].library.is_empty());
    for id in more {
        assert!(g.players[0].hand.contains(&id));
    }
}

#[test]
fn thalia_taxes_noncreature_spells_of_opponents() {
    let d = db();
    let (mut g, _) = main_phase(&[]);
    put(&mut g, CardName::ThaliaGuardianOfThraben, 1, &[CardType::Creature]);
    let bolt = d.iter().find(|c| c.name == CardName::LightningBolt).unwrap();
    let thalia = d.iter().find(|c| c.name == CardName::ThaliaGuardianOfThraben).unwrap();
    assert_eq!(g.effective_cost(bolt, 0).generic, 1);
    assert_eq!(g.effective_cost(bolt, 1).generic, 0);
    assert_eq!(g.effective_cost(thalia, 0).generic, 1);
}

#[test]
fn trinisphere_raises_small_costs_to_three() {
    let d = db();
    let (mut g, _) = main_phase(&[]);
    let sphere = put(&mut g, CardName::Trinisphere, 1, &[CardType::Artifact]);
    let bolt = d.iter().find(|c| c.name == CardName::LightningBolt).unwrap();
    let fow = d.iter().find(|c| c.name == CardName::ForceOfWill).unwrap();
    let c = g.effective_cost(bolt, 0);
    assert_eq!((c.red, c.generic, c.cmc()), (1, 2, 3));
    assert_eq!(g.effective_cost(fow, 0).cmc(), 5);
    g.find_permanent_mut(sphere).unwrap().tapped = true;
    assert_eq!(g.effective_cost(bolt, 0).cmc(), 1);
}

#[test]
fn concede_hands_the_game_to_the_opponent() {
    let d = db();
    let (mut g, _) = main_phase(&[]);
    g.apply_action(&Action::Concede, &d);
    assert!(g.players[0].has_lost);
    assert_eq!(g.result, GameResult::Win(1));
    assert!(g.legal_actions(&d).is_empty());
}

#[test]
fn black_lotus_asks_for_a_color_then_adds_three() {
    let d = db();
    let (mut g, _) = main_phase(&[]);
    let lotus = put(&mut g, CardName::BlackLotus, 0, &[CardType::Artifact]);
    g.apply_action(&Action::ActivateAbility { permanent_id: lotus, ability_index: 0, targets: vec![Target::Player(0)] }, &d);
    assert!(g.find_permanent(lotus).is_none());
    assert_eq!(g.players[0].graveyard, vec![lotus]);
    let acts = g.legal_actions(&d);
    assert_eq!(acts.len(), 5);
    assert_eq!(acts[3], Action::ChooseColor(Color::Red));
    g.apply_action(&Action::ChooseColor(Color::Red), &d);
    assert_eq!(g.players[0].mana_pool.red, 3);
    assert!(g.pending_choice.is_none());
}

#[test]
fn lotus_petal_adds_one() {
    let d = db();
    let (mut g, _) = main_phase(&[]);
    let petal = put(&mut g, CardName::LotusPetal, 0, &[CardType::Artifact]);
    g.apply_action(&Action::ActivateAbility { permanent_id: petal, ability_index: 0, targets: vec![] }, &d);
    g.apply_action(&Action::ChooseColor(Color::Green), &d);
    assert_eq!(g.players[0].mana_pool.green, 1);
}

#[test]
fn lions_eye_diamond_discards_the_hand() {
    let d = db();
    let (mut g, ids) = main_phase(&[CardName::Island, CardName::LightningBolt]);
    let led = put(&mut g, CardName::LionEyeDiamond, 0, &[CardType::Artifact]);
    let hand = g.players[0].hand.clone();
    g.apply_action(&Action::ActivateAbility { permanent_id: led, ability_index: 0, targets: vec![] }, &d);
    assert!(g.players[0].hand.is_empty());
    let mut expected = hand;
    expected.push(led);
    assert_eq!(g.players[0].graveyard, expected);
    assert_eq!(ids.len(), 2);
    g.apply_action(&Action::ChooseColor(Color::Black), &d);
    assert_eq!(g.players[0].mana_pool.black, 3);
}

#[test]
fn fetch_land_finds_a_fetchable_land() {
    let d = db();
    let mut g = GameState::new_two_player();
    let lib = g.load_deck(0, &[CardName::Mountain, CardName::UndergroundSea, CardName::Island], &d);
    g.phase = Phase::PreCombatMain;
    let delta = put(&mut g, CardName::PollutedDelta, 0, &[CardType::Land]);
    g.apply_action(&Action::ActivateAbility { permanent_id: delta, ability_index: 0, targets: vec![] }, &d);
    assert_eq!(g.players[0].life, 19);
    assert_eq!(g.players[0].graveyard, vec![delta]);
    assert!(g.find_permanent(delta).is_none());
    let acts = g.legal_actions(&d);
    assert_eq!(acts, vec![Action::ChooseCard(lib[1]), Action::ChooseCard(lib[2])]);
    g.apply_action(&Action::ChooseCard(lib[1]), &d);
    assert_eq!(g.players[0].library, vec![lib[0], lib[2]]);
    let sea = perm(&g, lib[1]);
    assert_eq!(sea.card_name, CardName::UndergroundSea);
    assert_eq!(sea.controller, 0);
    assert!(!sea.tapped);
}

#[test]
fn fetch_land_with_nothing_to_find_asks_nothing() {
    let d = db();
    let mut g = GameState::new_two_player();
    g.load_deck(0, &[CardName::Mountain], &d);
    let delta = put(&mut g, CardName::PollutedDelta, 0, &[CardType::Land]);
    g.apply_action(&Action::ActivateAbility { permanent_id: delta, ability_index: 0, targets: vec![] }, &d);
    assert_eq!(g.players[0].life, 19);
    assert!(g.pending_choice.is_none());
}

#[test]
fn fetchable_follows_the_land_types() {
    let g = GameState::new_two_player();
    assert!(g.is_fetchable(CardName::PollutedDelta, CardName::Island));
    assert!(g.is_fetchable(CardName::PollutedDelta, CardName::Bayou));
    assert!(!g.is_fetchable(CardName::PollutedDelta, CardName::Mountain));
    assert!(g.is_fetchable(CardName::AridMesa, CardName::Mountain));
    assert!(!g.is_fetchable(CardName::Island, CardName::Island));
}

#[test]
fn strip_mine_destroys_its_target() {
    let d = db();
    let (mut g, _) = main_phase(&[]);
    let strip = put(&mut g, CardName::StripMine, 0, &[CardType::Land]);
    let sea = put(&mut g, CardName::UndergroundSea, 1, &[CardType::Land]);
    let acts = g.legal_actions(&d);
    assert!(acts.contains(&Action::ActivateAbility { permanent_id: strip, ability_index: 1, targets: vec![Target::Object(sea)] }));
    g.apply_action(&Action::ActivateAbility { permanent_id: strip, ability_index: 1, targets: vec![Target::Object(sea)] }, &d);
    assert!(g.battlefield.is_empty());
    assert_eq!(g.players[0].graveyard, vec![strip]);
    assert_eq!(g.players[1].graveyard, vec![sea]);
}

#[test]
fn wasteland_only_targets_nonbasic_lands() {
    let (mut g, _) = main_phase(&[]);
    let waste = put(&mut g, CardName::Wasteland, 0, &[CardType::Land]);
    put(&mut g, CardName::Island, 1, &[CardType::Land]);
    let sea = put(&mut g, CardName::UndergroundSea, 1, &[CardType::Land]);
    let abilities = g.activatable_abilities(perm(&g, waste), true, &db());
    assert_eq!(abilities, vec![(1u8, vec![Target::Object(sea)])]);
}

#[test]
fn jace_plus_two_and_teferi_minus_three() {
    let d = db();
    let (mut g, _) = main_phase(&[]);
    let jace = put(&mut g, CardName::JaceTheMindSculptor, 0, &[CardType::Planeswalker]);
    g.find_permanent_mut(jace).unwrap().loyalty = 3;
    g.apply_action(&Action::ActivateAbility { permanent_id: jace, ability_index: 0, targets: vec![Target::Player(1)] }, &d);
    assert_eq!(perm(&g, jace).loyalty, 5);
    assert!(perm(&g, jace).loyalty_activated_this_turn);
    assert!(g.stack.items.is_empty());
    let teferi = put(&mut g, CardName::TeferiTimeRaveler, 0, &[CardType::Planeswalker]);
    g.find_permanent_mut(teferi).unwrap().loyalty = 4;
    let bear = creature(&mut g, CardName::Tarmogoyf, 1, 2, 2);
    g.apply_action(&Action::ActivateAbility { permanent_id: teferi, ability_index: 1, targets: vec![Target::Object(bear)] }, &d);
    assert_eq!(perm(&g, teferi).loyalty, 1);
    assert_eq!(g.stack.items.len(), 1);
    assert_eq!(g.stack.items[0].targets, vec![Target::Object(bear)]);
}

#[test]
fn loyalty_abilities_are_offered_at_sorcery_speed_once() {
    let (mut g, _) = main_phase(&[]);
    let jace = put(&mut g, CardName::JaceTheMindSculptor, 0, &[CardType::Planeswalker]);
    g.find_permanent_mut(jace).unwrap().loyalty = 3;
    let abilities = g.activatable_abilities(perm(&g, jace), true, &db());
    assert_eq!(abilities, vec![(0u8, vec![Target::Player(1)]), (1u8, vec![])]);
    assert!(g.activatable_abilities(perm(&g, jace), false, &db()).is_empty());
    g.find_permanent_mut(jace).unwrap().loyalty_activated_this_turn = true;
    assert!(g.activatable_abilities(perm(&g, jace), true, &db()).is_empty());
}

#[test]
fn number_choices_are_spread_and_end_at_the_maximum() {
    let g = GameState::new_two_player();
    let choice = |min: u32, max: u32| PendingChoice { player: 0, kind: ChoiceKind::ChooseNumber { min, max, reason: ChoiceReason::ToxicDelugeLife } };
    let nums = |acts: Vec<Action>| -> Vec<u32> {
        acts.into_iter().map(|a| match a { Action::ChooseNumber(n) => n, _ => panic!("not a number") }).collect()
    };
    assert_eq!(nums(g.generate_choice_actions(&choice(0, 7))), (0..=7).collect::<Vec<u32>>());
    assert_eq!(nums(g.generate_choice_actions(&choice(0, 100))), (0..=10).map(|k| k * 10).collect::<Vec<u32>>());
    let mut expected: Vec<u32> = (0..=12).map(|k| k * 2).collect();
    expected.push(25);
    assert_eq!(nums(g.generate_choice_actions(&choice(0, 25))), expected);
    assert_eq!(nums(g.generate_choice_actions(&choice(5, 5))), vec![5]);
}

#[test]
fn list_choices_offer_each_option() {
    let g = GameState::new_two_player();
    let c = PendingChoice { player: 0, kind: ChoiceKind::ChooseFromList { options: vec![7, 9], reason: ChoiceReason::GenericSearch } };
    assert_eq!(g.generate_choice_actions(&c), vec![Action::ChooseCard(7), Action::ChooseCard(9)]);
}

#[test]
fn attackers_tap_unless_vigilant() {
    let d = db();
    let (mut g, _) = main_phase(&[]);
    let bear = creature(&mut g, CardName::Tarmogoyf, 0, 2, 2);
    let knight = creature(&mut g, CardName::Tarmogoyf, 0, 2, 2);
    g.find_permanent_mut(knight).unwrap().keywords.add(Keyword::Vigilance);
    g.action_context = ActionContext::DeclareAttackers;
    let acts = g.legal_actions(&d);
    assert_eq!(acts, vec![
        Action::ConfirmAttackers,
        Action::DeclareAttacker { creature_id: bear },
        Action::DeclareAttacker { creature_id: knight },
    ]);
    g.apply_action(&Action::DeclareAttacker { creature_id: bear }, &d);
    g.apply_action(&Action::DeclareAttacker { creature_id: knight }, &d);
    assert!(perm(&g, bear).tapped);
    assert!(!perm(&g, knight).tapped);
    assert!(perm(&g, knight).attacked_this_turn);
    assert_eq!(g.attackers, vec![(bear, 1), (knight, 1)]);
    assert_eq!(g.legal_actions(&d), vec![Action::ConfirmAttackers]);
}

#[test]
fn blockers_need_reach_or_flying_for_flyers() {
    let d = db();
    let (mut g, _) = main_phase(&[]);
    let bird = creature(&mut g, CardName::BirdsOfParadise, 0, 0, 1);
    g.find_permanent_mut(bird).unwrap().keywords.add(Keyword::Flying);
    let bear = creature(&mut g, CardName::Tarmogoyf, 0, 2, 2);
    let wall = creature(&mut g, CardName::Tarmogoyf, 1, 0, 4);
    g.attackers = vec![(bird, 1), (bear, 1)];
    g.action_context = ActionContext::DeclareBlockers;
    let acts = g.legal_actions(&d);
    assert_eq!(acts, vec![Action::ConfirmBlockers, Action::DeclareBlocker { blocker_id: wall, attacker_id: bear }]);
    g.apply_action(&Action::DeclareBlocker { blocker_id: wall, attacker_id: bear }, &d);
    assert_eq!(g.blockers, vec![(wall, bear)]);
    assert_eq!(g.legal_actions(&d), vec![Action::ConfirmBlockers]);
}

#[test]
fn force_of_will_can_be_pitched_at_a_spell() {
    let d = db();
    let (mut g, ids) = main_phase(&[CardName::ForceOfWill, CardName::Counterspell]);
    let fow = ids[0];
    let acts = g.legal_actions(&d);
    assert!(!acts.iter().any(|a| matches!(a, Action::CastSpell { .. })));
    g.stack.push(engine_rust::stack::StackItemKind::Spell { card_name: CardName::LightningBolt, card_id: 77, cast_via_evoke: false }, 1, vec![Target::Player(0)]);
    let spell = g.stack.items[0].id;
    let acts = g.legal_actions(&d);
    assert_eq!(acts.iter().filter(|a| matches!(a, Action::CastSpell { .. })).collect::<Vec<_>>(),
        vec![&Action::CastSpell { card_id: fow, targets: vec![Target::Object(spell)] }]);
}

#[test]
fn spells_without_a_modelled_effect_are_not_offered() {
    let mut d = db();
    d.push(def(CardName::Reanimate, ManaCost { black: 1, ..ManaCost::zero() }, &[CardType::Sorcery], &[Color::Black], None));
    let mut g = GameState::new_two_player();
    let ids = g.load_deck(0, &[CardName::Reanimate, CardName::Armageddon], &d);
    g.start_game();
    g.phase = Phase::PreCombatMain;
    g.step = None;
    g.players[0].hand = ids.clone();
    g.players[0].mana_pool.black = 1;
    g.players[0].mana_pool.white = 4;
    let actions = g.legal_actions(&d);
    assert!(!actions.iter().any(|a| matches!(a, Action::CastSpell { card_id, .. } if *card_id == ids[0])));
    assert!(actions.iter().any(|a| matches!(a, Action::CastSpell { card_id, .. } if *card_id == ids[1])));
}
