use engine_rust::card::{CardDef, CardName};
use engine_rust::game::{ChoiceKind, GameState};
use engine_rust::permanent::Permanent;
use engine_rust::stack::{StackItemKind, TriggeredEffect};
use engine_rust::types::{CardType, Keywords, ObjectId, PlayerId, Target};

fn put(g: &mut GameState, name: CardName, controller: PlayerId, types: &[CardType]) -> ObjectId {
    let id = g.new_object_id();
    g.card_registry.push((id, name));
    g.battlefield.push(Permanent::new(id, name, controller, controller, Some(3), Some(3), None, Keywords::empty(), types));
    id
}

fn resolve(g: &mut GameState, name: CardName, targets: &[Target]) {
    let db: Vec<CardDef> = vec![];
    g.resolve_card_effect(name, 0, targets, 0, &[], false, &db);
}

#[test]
fn treasure_cruise_draws_three_and_probe_one() {
    let mut g = GameState::new_two_player();
    g.players[0].library = vec![1, 2, 3, 4];
    resolve(&mut g, CardName::TreasureCruise, &[]);
    assert_eq!(g.players[0].hand, vec![4, 3, 2]);
    resolve(&mut g, CardName::GitaxianProbe, &[Target::Player(1)]);
    assert_eq!(g.players[0].hand, vec![4, 3, 2, 1]);
}

#[test]
fn cabal_ritual_has_threshold() {
    let mut g = GameState::new_two_player();
    resolve(&mut g, CardName::CabalRitual, &[]);
    assert_eq!(g.players[0].mana_pool.black, 3);
    g.players[0].graveyard = vec![1, 2, 3, 4, 5, 6, 7];
    resolve(&mut g, CardName::CabalRitual, &[]);
    assert_eq!(g.players[0].mana_pool.black, 8);
}

#[test]
fn abrade_destroys_artifacts_and_burns_creatures() {
    let mut g = GameState::new_two_player();
    let ring = put(&mut g, CardName::SolRing, 1, &[CardType::Artifact]);
    let goyf = put(&mut g, CardName::Tarmogoyf, 1, &[CardType::Creature]);
    resolve(&mut g, CardName::Abrade, &[Target::Object(ring)]);
    assert!(g.find_permanent(ring).is_none());
    assert_eq!(g.players[1].graveyard, vec![ring]);
    resolve(&mut g, CardName::Abrade, &[Target::Object(goyf)]);
    assert_eq!(g.find_permanent(goyf).unwrap().damage, 3);
}

#[test]
fn shrapnel_blast_sacrifices_then_deals_five() {
    let mut g = GameState::new_two_player();
    let mox = put(&mut g, CardName::MoxRuby, 0, &[CardType::Artifact]);
    resolve(&mut g, CardName::ShrapnelBlast, &[Target::Object(mox), Target::Player(1)]);
    assert!(g.find_permanent(mox).is_none());
    assert_eq!(g.players[1].life, 15);
}

#[test]
fn redirect_lightning_deals_more_with_an_artifact() {
    let mut g = GameState::new_two_player();
    resolve(&mut g, CardName::RedirectLightning, &[Target::Player(1)]);
    assert_eq!(g.players[1].life, 16);
    put(&mut g, CardName::SolRing, 0, &[CardType::Artifact]);
    resolve(&mut g, CardName::RedirectLightning, &[Target::Player(1)]);
    assert_eq!(g.players[1].life, 11);
}

#[test]
fn bounce_spells_return_permanents_to_hand() {
    let mut g = GameState::new_two_player();
    let a = put(&mut g, CardName::Tarmogoyf, 1, &[CardType::Creature]);
    let b = put(&mut g, CardName::Tarmogoyf, 1, &[CardType::Creature]);
    let c = put(&mut g, CardName::SolRing, 1, &[CardType::Artifact]);
    resolve(&mut g, CardName::ChainOfVapor, &[Target::Object(c)]);
    assert_eq!(g.players[1].hand, vec![c]);
    resolve(&mut g, CardName::StepThrough, &[Target::Object(a), Target::Object(b)]);
    assert!(g.battlefield.is_empty());
    assert_eq!(g.players[1].hand, vec![c, a, b]);
}

#[test]
fn dismember_shrinks_until_end_of_turn() {
    let mut g = GameState::new_two_player();
    let goyf = put(&mut g, CardName::Tarmogoyf, 1, &[CardType::Creature]);
    resolve(&mut g, CardName::Dismember, &[Target::Object(goyf)]);
    let p = g.find_permanent(goyf).unwrap();
    assert_eq!((p.power_mod, p.toughness_mod), (-5, -5));
    assert_eq!(g.temporary_effects.len(), 1);
    g.end_of_turn_cleanup();
    let p = g.find_permanent(goyf).unwrap();
    assert_eq!((p.power_mod, p.toughness_mod), (0, 0));
}

#[test]
fn commandeer_counters_a_spell() {
    let mut g = GameState::new_two_player();
    g.card_registry.push((50, CardName::LightningBolt));
    let spell = g.stack.push(StackItemKind::Spell { card_name: CardName::LightningBolt, card_id: 50, cast_via_evoke: false }, 1, vec![Target::Player(0)]);
    resolve(&mut g, CardName::Commandeer, &[Target::Object(spell)]);
    assert!(g.stack.items.is_empty());
    assert_eq!(g.players[1].graveyard, vec![50]);
}

fn def(name: CardName, types: &[CardType]) -> CardDef {
    CardDef {
        name,
        mana_cost: engine_rust::mana::ManaCost::zero(),
        card_types: types.to_vec(),
        creature_types: vec![],
        is_changeling: false,
        keywords: Keywords::empty(),
        power: None,
        toughness: None,
        loyalty: None,
        color_identity: vec![],
        madness_cost: None,
        back_face: None,
    }
}

#[test]
fn imperial_seal_costs_two_life_and_searches() {

    let mut g = GameState::new_two_player();
    g.players[0].library = vec![1, 2];
    resolve(&mut g, CardName::ImperialSeal, &[]);
    assert_eq!(g.players[0].life, 18);
    match &g.pending_choice {
        Some(c) => match &c.kind {
            ChoiceKind::ChooseFromList { options, .. } => assert_eq!(options, &vec![1, 2]),
            _ => panic!("not a list choice"),
        },
        None => panic!("no choice"),
    }
}

#[test]
fn enlightened_tutor_finds_artifacts_and_enchantments() {
    let db = vec![def(CardName::SolRing, &[CardType::Artifact]), def(CardName::RestInPeace, &[CardType::Enchantment]),
        def(CardName::Island, &[CardType::Land])];
    let mut g = GameState::new_two_player();
    let ids = g.load_deck(0, &[CardName::SolRing, CardName::Island, CardName::RestInPeace], &db);
    g.resolve_card_effect(CardName::EnlightenedTutor, 0, &[], 0, &[], false, &db);
    match &g.pending_choice {
        Some(c) => match &c.kind {
            ChoiceKind::ChooseFromList { options, .. } => assert_eq!(options, &vec![ids[0], ids[2]]),
            _ => panic!("not a list choice"),
        },
        None => panic!("no choice"),
    }
}

#[test]
fn wheel_of_fortune_and_timetwister() {
    let mut g = GameState::new_two_player();
    g.players[0].hand = vec![1, 2];
    g.players[0].library = (10..20).collect();
    g.players[1].hand = vec![3];
    g.players[1].library = (20..30).collect();
    resolve(&mut g, CardName::WheelOfFortune, &[]);
    assert_eq!(g.players[0].graveyard, vec![1, 2]);
    assert_eq!(g.players[1].graveyard, vec![3]);
    assert_eq!(g.players[0].hand.len(), 7);
    assert_eq!(g.players[1].hand.len(), 7);
    assert_eq!(g.players[0].library, vec![10, 11, 12]);

    let mut t = GameState::new_two_player();
    t.players[0].hand = vec![1];
    t.players[0].graveyard = vec![2];
    t.players[0].library = vec![3];
    resolve(&mut t, CardName::Timetwister, &[]);
    assert!(t.players[0].graveyard.is_empty());
    assert!(t.players[0].library.is_empty());
    assert_eq!(t.players[0].hand, vec![2, 1, 3]);
}

#[test]
fn triggers_that_swap_sacrifice_protect_and_pay() {
    let db: Vec<CardDef> = vec![];
    let mut g = GameState::new_two_player();
    let drake = put(&mut g, CardName::Tarmogoyf, 0, &[CardType::Creature]);
    let theirs = put(&mut g, CardName::Tarmogoyf, 1, &[CardType::Creature]);
    g.resolve_triggered(TriggeredEffect::GildedDrakeExchange { drake_id: drake }, 0, &[Target::Object(theirs)], &db);
    assert_eq!(g.find_permanent(drake).unwrap().controller, 1);
    assert_eq!(g.find_permanent(theirs).unwrap().controller, 0);
    // Sacrifice only happens for the named controller.
    g.resolve_triggered(TriggeredEffect::SacrificeTarget { permanent_id: drake }, 0, &[], &db);
    assert!(g.find_permanent(drake).is_some());
    g.resolve_triggered(TriggeredEffect::SacrificeTarget { permanent_id: theirs }, 0, &[], &db);
    assert!(g.find_permanent(theirs).is_none());
    assert_eq!(g.players[1].graveyard, vec![theirs]);
    g.resolve_triggered(TriggeredEffect::TheOneRingETB { ring_id: 1 }, 0, &[], &db);
    assert!(g.players[0].protection_from_everything);
    let before = g.battlefield.len();
    g.resolve_triggered(TriggeredEffect::RagavanCombatDamage, 0, &[], &db);
    assert_eq!(g.battlefield.len(), before + 1);
    assert_eq!(g.battlefield.last().unwrap().card_name, CardName::TreasureToken);
    g.resolve_triggered(TriggeredEffect::HarshMentorDamage { target_player: 1 }, 0, &[], &db);
    assert_eq!(g.players[1].life, 18);
    g.resolve_triggered(TriggeredEffect::MagebaneLizardDamage { target_player: 1, damage: 3 }, 0, &[], &db);
    assert_eq!(g.players[1].life, 15);
    g.players[0].library = vec![1, 2, 3, 4];
    g.resolve_triggered(TriggeredEffect::CovetedJewelETB, 0, &[], &db);
    assert_eq!(g.players[0].hand, vec![4, 3, 2]);
}

fn bolt_on_stack(g: &mut GameState, controller: PlayerId) -> ObjectId {
    g.card_registry.push((50, CardName::LightningBolt));
    g.stack.push(StackItemKind::Spell { card_name: CardName::LightningBolt, card_id: 50, cast_via_evoke: false }, controller, vec![Target::Player(0)])
}

#[test]
fn mana_leak_counters_when_the_tax_cannot_be_paid() {
    let mut g = GameState::new_two_player();
    let spell = bolt_on_stack(&mut g, 1);
    put(&mut g, CardName::Island, 1, &[CardType::Land]);
    put(&mut g, CardName::Island, 1, &[CardType::Land]);
    resolve(&mut g, CardName::ManaLeak, &[Target::Object(spell)]);
    assert!(g.stack.items.is_empty());
    assert_eq!(g.players[1].graveyard, vec![50]);
}

#[test]
fn spell_pierce_is_paid_with_two_open_lands() {
    let mut g = GameState::new_two_player();
    let spell = bolt_on_stack(&mut g, 1);
    put(&mut g, CardName::Island, 1, &[CardType::Land]);
    put(&mut g, CardName::Island, 1, &[CardType::Land]);
    resolve(&mut g, CardName::SpellPierce, &[Target::Object(spell)]);
    assert_eq!(g.stack.items.len(), 1);
    g.battlefield[0].tapped = true;
    resolve(&mut g, CardName::SpellPierce, &[Target::Object(spell)]);
    assert!(g.stack.items.is_empty());
}

#[test]
fn daze_is_paid_from_the_mana_pool() {
    let mut g = GameState::new_two_player();
    let spell = bolt_on_stack(&mut g, 1);
    g.players[1].mana_pool.red = 1;
    resolve(&mut g, CardName::Daze, &[Target::Object(spell)]);
    assert_eq!(g.stack.items.len(), 1);
}

#[test]
fn flusterstorm_counters_and_copies_itself_per_storm() {
    let mut g = GameState::new_two_player();
    let spell = bolt_on_stack(&mut g, 1);
    g.storm_count = 2;
    resolve(&mut g, CardName::Flusterstorm, &[Target::Object(spell)]);
    assert_eq!(g.stack.items.len(), 2);
    assert!(g.stack.items[0].is_copy);
    assert!(matches!(g.stack.items[1].kind, StackItemKind::Spell { card_name: CardName::Flusterstorm, .. }));
}

#[test]
fn consign_to_memory_hard_counters_with_storm() {
    let mut g = GameState::new_two_player();
    let spell = bolt_on_stack(&mut g, 1);
    g.players[1].mana_pool.colorless = 9;
    g.storm_count = 1;
    resolve(&mut g, CardName::ConsignToMemory, &[Target::Object(spell)]);
    assert_eq!(g.stack.items.len(), 1);
    assert!(g.stack.items[0].is_copy);
    assert_eq!(g.players[1].graveyard, vec![50]);
}

#[test]
fn stifle_removes_an_ability_without_a_trace() {
    let mut g = GameState::new_two_player();
    let ability = g.stack.push(StackItemKind::TriggeredAbility { source_id: 3, source_name: CardName::Tarmogoyf, effect: TriggeredEffect::DealDamage(2) }, 1, vec![]);
    resolve(&mut g, CardName::Stifle, &[Target::Object(ability)]);
    assert!(g.stack.items.is_empty());
    assert!(g.exile.is_empty());
}

#[test]
fn mindbreak_trap_exiles_even_uncounterable_spells() {
    let mut g = GameState::new_two_player();
    let spell = bolt_on_stack(&mut g, 1);
    g.stack.items[0].cant_be_countered = true;
    resolve(&mut g, CardName::MindbreakTrap, &[Target::Object(spell)]);
    assert!(g.stack.items.is_empty());
    assert_eq!(g.exile, vec![(50, CardName::LightningBolt, 1)]);
    assert!(g.players[1].graveyard.is_empty());
}

#[test]
fn small_triggers_draw_and_drain() {
    let db: Vec<CardDef> = vec![def(CardName::Tarmogoyf, &[CardType::Creature])];
    let mut g = GameState::new_two_player();
    g.players[0].library = vec![1, 2];
    g.resolve_triggered(TriggeredEffect::LeovoldTargetDraw, 0, &[], &db);
    assert_eq!(g.players[0].hand, vec![2]);
    g.resolve_triggered(TriggeredEffect::RazorkinNeedleheadOpponentDraw, 0, &[], &db);
    assert_eq!(g.players[1].life, 19);
    g.resolve_triggered(TriggeredEffect::BonecrusherGiantTargeted { target_player: 1 }, 0, &[], &db);
    assert_eq!(g.players[1].life, 17);
}

#[test]
fn dark_confidant_reveals_and_costs_mana_value() {
    let mut goyf = def(CardName::Tarmogoyf, &[CardType::Creature]);
    goyf.mana_cost = engine_rust::mana::ManaCost { generic: 1, green: 1, ..engine_rust::mana::ManaCost::zero() };
    let db = vec![goyf];
    let mut g = GameState::new_two_player();
    g.card_registry.push((9, CardName::Tarmogoyf));
    g.players[0].library = vec![8, 9];
    g.resolve_triggered(TriggeredEffect::DarkConfidantUpkeep, 0, &[], &db);
    assert_eq!(g.players[0].hand, vec![9]);
    assert_eq!(g.players[0].life, 18);
}
