use engine_rust::card::{CardDef, CardName};
use engine_rust::game::{ChoiceKind, ChoiceReason, GameState};
use engine_rust::mana::ManaCost;
use engine_rust::permanent::Permanent;
use engine_rust::types::{CardType, Keywords, ObjectId, PlayerId, Target};

fn put(g: &mut GameState, name: CardName, controller: PlayerId, types: &[CardType]) -> ObjectId {
    let id = g.new_object_id();
    g.card_registry.push((id, name));
    g.battlefield.push(Permanent::new(id, name, controller, controller, Some(3), Some(3), None, Keywords::empty(), types));
    id
}

fn def(name: CardName, generic: u8, types: &[CardType]) -> CardDef {
    CardDef {
        name,
        mana_cost: ManaCost { generic, ..ManaCost::zero() },
        card_types: types.to_vec(),
        creature_types: vec![],
        is_changeling: false,
        keywords: Keywords::empty(),
        power: None,
        toughness: None,
        loyalty: None,
        color_identity: vec![],
        madness_cost: None,
        back_face: None,
    }
}

fn cast(g: &mut GameState, name: CardName, targets: &[Target], x: u8, db: &[CardDef]) {
    g.resolve_card_effect(name, 0, targets, x, &[], false, db);
}

fn choice_options(g: &GameState) -> (Vec<ObjectId>, ChoiceReason, PlayerId) {
    match &g.pending_choice {
        Some(c) => match &c.kind {
            ChoiceKind::ChooseFromList { options, reason } => (options.clone(), *reason, c.player),
            _ => panic!("not a list choice"),
        },
        None => panic!("no choice"),
    }
}

#[test]
fn meltdown_destroys_cheap_noncreature_artifacts() {
    let db = vec![
        def(CardName::SolRing, 1, &[CardType::Artifact]),
        def(CardName::Batterskull, 5, &[CardType::Artifact]),
        def(CardName::WalkingBallista, 0, &[CardType::Artifact, CardType::Creature]),
    ];
    let mut g = GameState::new_two_player();
    let ring = put(&mut g, CardName::SolRing, 1, &[CardType::Artifact]);
    let skull = put(&mut g, CardName::Batterskull, 1, &[CardType::Artifact]);
    let ballista = put(&mut g, CardName::WalkingBallista, 1, &[CardType::Artifact, CardType::Creature]);
    cast(&mut g, CardName::Meltdown, &[], 2, &db);
    assert!(g.find_permanent(ring).is_none());
    assert!(g.find_permanent(skull).is_some());
    assert!(g.find_permanent(ballista).is_some());
}

#[test]
fn wrath_of_the_skies_destroys_up_to_x() {
    let db = vec![def(CardName::Tarmogoyf, 2, &[CardType::Creature]), def(CardName::Batterskull, 5, &[CardType::Artifact])];
    let mut g = GameState::new_two_player();
    let goyf = put(&mut g, CardName::Tarmogoyf, 1, &[CardType::Creature]);
    let skull = put(&mut g, CardName::Batterskull, 0, &[CardType::Artifact]);
    cast(&mut g, CardName::WrathOfTheSkies, &[], 2, &db);
    assert!(g.find_permanent(goyf).is_none());
    assert!(g.find_permanent(skull).is_some());
}

#[test]
fn vandalblast_overloaded_hits_every_opposing_artifact() {
    let db: Vec<CardDef> = vec![];
    let mut g = GameState::new_two_player();
    let mine = put(&mut g, CardName::SolRing, 0, &[CardType::Artifact]);
    let theirs = put(&mut g, CardName::SolRing, 1, &[CardType::Artifact]);
    let other = put(&mut g, CardName::MoxRuby, 1, &[CardType::Artifact]);
    cast(&mut g, CardName::Vandalblast, &[], 0, &db);
    assert!(g.find_permanent(mine).is_some());
    assert!(g.find_permanent(theirs).is_none());
    assert!(g.find_permanent(other).is_none());
}

#[test]
fn vandalblast_single_target() {
    let db: Vec<CardDef> = vec![];
    let mut g = GameState::new_two_player();
    let theirs = put(&mut g, CardName::SolRing, 1, &[CardType::Artifact]);
    let other = put(&mut g, CardName::MoxRuby, 1, &[CardType::Artifact]);
    cast(&mut g, CardName::Vandalblast, &[Target::Object(theirs)], 0, &db);
    assert!(g.find_permanent(theirs).is_none());
    assert!(g.find_permanent(other).is_some());
}

#[test]
fn force_of_vigor_destroys_two_targets() {
    let db: Vec<CardDef> = vec![];
    let mut g = GameState::new_two_player();
    let a = put(&mut g, CardName::SolRing, 1, &[CardType::Artifact]);
    let b = put(&mut g, CardName::MoxRuby, 1, &[CardType::Artifact]);
    cast(&mut g, CardName::ForceOfVigor, &[Target::Object(a), Target::Object(b)], 0, &db);
    assert!(g.battlefield.is_empty());
    assert_eq!(g.players[1].graveyard, vec![a, b]);
}

#[test]
fn sundering_eruption_destroys_and_burns_the_opponent() {
    let db: Vec<CardDef> = vec![];
    let mut g = GameState::new_two_player();
    let a = put(&mut g, CardName::SolRing, 1, &[CardType::Artifact]);
    cast(&mut g, CardName::SunderingEruption, &[Target::Object(a)], 0, &db);
    assert!(g.find_permanent(a).is_none());
    assert_eq!(g.players[1].life, 17);
    assert_eq!(g.players[0].life, 20);
}

#[test]
fn prismatic_ending_exiles() {
    let db: Vec<CardDef> = vec![];
    let mut g = GameState::new_two_player();
    let goyf = put(&mut g, CardName::Tarmogoyf, 1, &[CardType::Creature]);
    cast(&mut g, CardName::PrismaticEnding, &[Target::Object(goyf)], 1, &db);
    assert!(g.find_permanent(goyf).is_none());
    assert_eq!(g.exile.len(), 1);
    assert!(g.players[1].graveyard.is_empty());
}

#[test]
fn sheoldreds_edict_lets_the_target_choose_a_creature() {
    let db: Vec<CardDef> = vec![];
    let mut g = GameState::new_two_player();
    let goyf = put(&mut g, CardName::Tarmogoyf, 1, &[CardType::Creature]);
    put(&mut g, CardName::SolRing, 1, &[CardType::Artifact]);
    put(&mut g, CardName::Tarmogoyf, 0, &[CardType::Creature]);
    cast(&mut g, CardName::SheoldredsEdict, &[Target::Player(1)], 0, &db);
    let (options, reason, player) = choice_options(&g);
    assert_eq!(options, vec![goyf]);
    assert_eq!(reason, ChoiceReason::EdictSacrifice);
    assert_eq!(player, 1);
}

#[test]
fn sheoldreds_edict_without_creatures_does_nothing() {
    let db: Vec<CardDef> = vec![];
    let mut g = GameState::new_two_player();
    cast(&mut g, CardName::SheoldredsEdict, &[Target::Player(1)], 0, &db);
    assert!(g.pending_choice.is_none());
}

#[test]
fn crop_rotation_sacrifices_then_searches_for_a_land() {
    let db = vec![def(CardName::Island, 0, &[CardType::Land]), def(CardName::Tarmogoyf, 2, &[CardType::Creature])];
    let mut g = GameState::new_two_player();
    let land = put(&mut g, CardName::Island, 0, &[CardType::Land]);
    g.card_registry.push((40, CardName::Island));
    g.card_registry.push((41, CardName::Tarmogoyf));
    g.players[0].library = vec![41, 40];
    cast(&mut g, CardName::CropRotation, &[Target::Object(land)], 0, &db);
    assert!(g.find_permanent(land).is_none());
    let (options, reason, player) = choice_options(&g);
    assert_eq!(options, vec![40]);
    assert_eq!(reason, ChoiceReason::GenericSearch);
    assert_eq!(player, 0);
}

#[test]
fn once_upon_a_time_draws_one() {
    let db: Vec<CardDef> = vec![];
    let mut g = GameState::new_two_player();
    g.players[0].library = vec![1, 2];
    cast(&mut g, CardName::OnceUponATime, &[], 0, &db);
    assert_eq!(g.players[0].hand, vec![2]);
}

#[test]
fn tinker_sacrifices_and_searches_for_an_artifact() {
    let db = vec![def(CardName::SolRing, 1, &[CardType::Artifact]), def(CardName::Tarmogoyf, 2, &[CardType::Creature])];
    let mut g = GameState::new_two_player();
    let ring = put(&mut g, CardName::SolRing, 0, &[CardType::Artifact]);
    g.card_registry.push((40, CardName::SolRing));
    g.card_registry.push((41, CardName::Tarmogoyf));
    g.players[0].library = vec![40, 41];
    cast(&mut g, CardName::Tinker, &[Target::Object(ring)], 0, &db);
    assert!(g.find_permanent(ring).is_none());
    let (options, reason, _) = choice_options(&g);
    assert_eq!(options, vec![40]);
    assert_eq!(reason, ChoiceReason::GenericSearch);
}

#[test]
fn natural_order_finds_green_creatures() {
    let mut goyf = def(CardName::Tarmogoyf, 2, &[CardType::Creature]);
    goyf.color_identity = vec![engine_rust::types::Color::Green];
    let db = vec![goyf, def(CardName::SolRing, 1, &[CardType::Artifact])];
    let mut g = GameState::new_two_player();
    g.card_registry.push((40, CardName::SolRing));
    g.card_registry.push((41, CardName::Tarmogoyf));
    g.players[0].library = vec![40, 41];
    cast(&mut g, CardName::NaturalOrder, &[], 0, &db);
    let (options, _, _) = choice_options(&g);
    assert_eq!(options, vec![41]);
}

#[test]
fn brain_freeze_mills_three_and_copies_per_storm() {
    let db: Vec<CardDef> = vec![];
    let mut g = GameState::new_two_player();
    g.players[1].library = vec![1, 2, 3, 4];
    g.storm_count = 2;
    cast(&mut g, CardName::BrainFreeze, &[Target::Player(1)], 0, &db);
    assert_eq!(g.players[1].library, vec![1]);
    assert_eq!(g.players[1].graveyard, vec![4, 3, 2]);
    assert_eq!(g.stack.items.len(), 2);
}

#[test]
fn minds_desire_takes_the_top_card() {
    let db: Vec<CardDef> = vec![];
    let mut g = GameState::new_two_player();
    g.players[0].library = vec![1, 2];
    cast(&mut g, CardName::MindsDesire, &[], 0, &db);
    assert_eq!(g.players[0].hand, vec![2]);
    assert_eq!(g.players[0].library, vec![1]);
    assert!(g.stack.items.is_empty());
}

#[test]
fn yawgmoths_will_and_veil_of_summer_bless_the_caster() {
    let db: Vec<CardDef> = vec![];
    let mut g = GameState::new_two_player();
    g.players[0].library = vec![1];
    cast(&mut g, CardName::YawgmothsWill, &[], 0, &db);
    assert!(g.players[0].yawgmoth_will_active);
    cast(&mut g, CardName::VeilOfSummer, &[], 0, &db);
    assert!(g.players[0].veil_of_summer_active);
    assert!(g.players[0].hand.is_empty());
    let id = put(&mut g, CardName::Tarmogoyf, 1, &[CardType::Creature]);
    g.battlefield[0].colors = vec![engine_rust::types::Color::Black];
    assert_eq!(g.battlefield[0].id, id);
    cast(&mut g, CardName::VeilOfSummer, &[], 0, &db);
    assert_eq!(g.players[0].hand, vec![1]);
}

#[test]
fn galvanic_relay_takes_the_top_card_with_storm() {
    let db: Vec<CardDef> = vec![];
    let mut g = GameState::new_two_player();
    g.players[0].library = vec![1, 2];
    g.storm_count = 1;
    cast(&mut g, CardName::GalvanicRelay, &[], 0, &db);
    assert_eq!(g.players[0].hand, vec![2]);
    assert_eq!(g.stack.items.len(), 1);
    assert!(g.stack.items[0].is_copy);
}

#[test]
fn doomsday_halves_life_rounding_the_loss_up() {
    let db: Vec<CardDef> = vec![];
    let mut g = GameState::new_two_player();
    g.players[0].life = 15;
    cast(&mut g, CardName::Doomsday, &[], 0, &db);
    assert_eq!(g.players[0].life, 7);
    g.players[0].life = -5;
    cast(&mut g, CardName::Doomsday, &[], 0, &db);
    assert_eq!(g.players[0].life, -3);
}

#[test]
fn expressive_iteration_draws_two() {
    let db: Vec<CardDef> = vec![];
    let mut g = GameState::new_two_player();
    g.players[0].library = vec![1, 2, 3];
    cast(&mut g, CardName::ExpressiveIteration, &[], 0, &db);
    assert_eq!(g.players[0].hand, vec![3, 2]);
}

#[test]
fn unmask_offers_nonland_cards() {
    let db = vec![def(CardName::Island, 0, &[CardType::Land]), def(CardName::Tarmogoyf, 2, &[CardType::Creature])];
    let mut g = GameState::new_two_player();
    g.card_registry.push((40, CardName::Island));
    g.card_registry.push((41, CardName::Tarmogoyf));
    g.players[1].hand = vec![40, 41];
    cast(&mut g, CardName::Unmask, &[Target::Player(1)], 0, &db);
    let (options, reason, player) = choice_options(&g);
    assert_eq!(options, vec![41]);
    assert_eq!(reason, ChoiceReason::ThoughtseizeDiscard);
    assert_eq!(player, 0);
}

#[test]
fn show_and_tell_offers_permanent_cards_and_flash_creatures() {
    let db = vec![
        def(CardName::Tarmogoyf, 2, &[CardType::Creature]),
        def(CardName::SolRing, 1, &[CardType::Artifact]),
        def(CardName::LightningBolt, 1, &[CardType::Instant]),
    ];
    let mut g = GameState::new_two_player();
    g.card_registry.push((40, CardName::Tarmogoyf));
    g.card_registry.push((41, CardName::SolRing));
    g.card_registry.push((42, CardName::LightningBolt));
    g.players[0].hand = vec![40, 41, 42];
    cast(&mut g, CardName::ShowAndTell, &[], 0, &db);
    let (options, reason, player) = choice_options(&g);
    assert_eq!(options, vec![40, 41]);
    assert_eq!(reason, ChoiceReason::ShowAndTellChoose { next_player: Some(1) });
    assert_eq!(player, 0);
    g.pending_choice = None;
    cast(&mut g, CardName::Flash, &[], 0, &db);
    let (options, reason, _) = choice_options(&g);
    assert_eq!(options, vec![40]);
    assert_eq!(reason, ChoiceReason::FlashPutCreature);
}
