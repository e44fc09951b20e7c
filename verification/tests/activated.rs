use engine_rust::card::{CardDef, CardName};
use engine_rust::game::GameState;
use engine_rust::permanent::Permanent;
use engine_rust::stack::ActivatedEffect;
use engine_rust::types::{CardType, Keywords, ObjectId, PlayerId, Target};

fn put(g: &mut GameState, name: CardName, controller: PlayerId, types: &[CardType]) -> ObjectId {
    let id = g.new_object_id();
    g.card_registry.push((id, name));
    g.battlefield.push(Permanent::new(id, name, controller, controller, Some(3), Some(3), None, Keywords::empty(), types));
    id
}

fn activate(g: &mut GameState, effect: ActivatedEffect, targets: &[Target]) {
    let db: Vec<CardDef> = vec![];
    g.resolve_activated(effect, 0, targets, &db);
}

#[test]
fn bounce_abilities_return_the_target_to_hand() {
    let mut g = GameState::new_two_player();
    let goyf = put(&mut g, CardName::Tarmogoyf, 1, &[CardType::Creature]);
    activate(&mut g, ActivatedEffect::KarakasBounce, &[Target::Object(goyf)]);
    assert!(g.find_permanent(goyf).is_none());
    assert_eq!(g.players[1].hand, vec![goyf]);
}

#[test]
fn haywire_mite_exiles_its_target() {
    let mut g = GameState::new_two_player();
    let ring = put(&mut g, CardName::SolRing, 1, &[CardType::Artifact]);
    activate(&mut g, ActivatedEffect::HaywireMiteExile, &[Target::Object(ring)]);
    assert!(g.find_permanent(ring).is_none());
    assert_eq!(g.exile.len(), 1);
    assert_eq!(g.exile[0].0, ring);
}

#[test]
fn cycling_draws_one() {
    let mut g = GameState::new_two_player();
    g.players[0].library = vec![1, 2];
    activate(&mut g, ActivatedEffect::CyclingDraw, &[]);
    assert_eq!(g.players[0].hand, vec![2]);
    assert_eq!(g.players[0].library, vec![1]);
}

#[test]
fn tezzeret_draws_only_with_an_artifact() {
    let mut g = GameState::new_two_player();
    g.players[0].library = vec![1, 2];
    activate(&mut g, ActivatedEffect::TezzeretDraw, &[]);
    assert!(g.players[0].hand.is_empty());
    put(&mut g, CardName::SolRing, 0, &[CardType::Artifact]);
    activate(&mut g, ActivatedEffect::TezzeretDraw, &[]);
    assert_eq!(g.players[0].hand, vec![2]);
}

#[test]
fn pings_deal_one_damage() {
    let mut g = GameState::new_two_player();
    let goyf = put(&mut g, CardName::Tarmogoyf, 1, &[CardType::Creature]);
    activate(&mut g, ActivatedEffect::WrennPing, &[Target::Player(1)]);
    assert_eq!(g.players[1].life, 19);
    activate(&mut g, ActivatedEffect::WalkingBallistaPing { ballista_id: 0 }, &[Target::Object(goyf)]);
    assert_eq!(g.find_permanent(goyf).unwrap().damage, 1);
}

#[test]
fn dack_steals_the_target() {
    let mut g = GameState::new_two_player();
    let ring = put(&mut g, CardName::SolRing, 1, &[CardType::Artifact]);
    activate(&mut g, ActivatedEffect::DackSteal, &[Target::Object(ring)]);
    assert_eq!(g.find_permanent(ring).unwrap().controller, 0);
    assert_eq!(g.find_permanent(ring).unwrap().owner, 1);
}

#[test]
fn time_vault_takes_an_extra_turn_and_untaps() {
    let mut g = GameState::new_two_player();
    let vault = put(&mut g, CardName::TimeVault, 0, &[CardType::Artifact]);
    g.battlefield[0].tapped = true;
    activate(&mut g, ActivatedEffect::TimeVaultExtraTurn, &[]);
    assert_eq!(g.players[0].extra_turns, 1);
    activate(&mut g, ActivatedEffect::TimeVaultUntap { vault_id: vault }, &[]);
    assert!(!g.find_permanent(vault).unwrap().tapped);
}

#[test]
fn untap_ability_untaps_the_target() {
    let mut g = GameState::new_two_player();
    let ring = put(&mut g, CardName::SolRing, 0, &[CardType::Artifact]);
    g.battlefield[0].tapped = true;
    activate(&mut g, ActivatedEffect::UntapArtifact, &[Target::Object(ring)]);
    assert!(!g.find_permanent(ring).unwrap().tapped);
}

#[test]
fn counters_from_ballista_and_cryogen_relic() {
    let mut g = GameState::new_two_player();
    let ballista = put(&mut g, CardName::WalkingBallista, 0, &[CardType::Creature]);
    activate(&mut g, ActivatedEffect::WalkingBallistaAddCounter { ballista_id: ballista }, &[]);
    assert_eq!(g.find_permanent(ballista).unwrap().counters.plus_one, 1);
    activate(&mut g, ActivatedEffect::CryogenRelicStun, &[Target::Object(ballista)]);
    assert_eq!(g.find_permanent(ballista).unwrap().counters.stun, 1);
}

#[test]
fn outland_liberator_destroys_the_target() {
    let mut g = GameState::new_two_player();
    let ring = put(&mut g, CardName::SolRing, 1, &[CardType::Artifact]);
    activate(&mut g, ActivatedEffect::OutlandLiberatorDestroy, &[Target::Object(ring)]);
    assert!(g.find_permanent(ring).is_none());
    assert_eq!(g.players[1].graveyard, vec![ring]);
}

#[test]
fn graveyard_hate_exiles_graveyards() {
    let mut g = GameState::new_two_player();
    g.players[1].graveyard = vec![7, 8];
    activate(&mut g, ActivatedEffect::TormodsCryptExile, &[Target::Player(1)]);
    assert!(g.players[1].graveyard.is_empty());
    assert_eq!(g.exile.len(), 2);
    assert_eq!(g.exile[1].0, 8);
    assert_eq!(g.exile[1].2, 1);
    g.players[1].graveyard = vec![9];
    activate(&mut g, ActivatedEffect::SoulGuideLanternExile, &[]);
    assert!(g.players[1].graveyard.is_empty());
    assert_eq!(g.exile.len(), 3);
}

#[test]
fn mystic_forge_exiles_the_top_card() {
    let mut g = GameState::new_two_player();
    g.players[0].library = vec![1, 2];
    activate(&mut g, ActivatedEffect::MysticForgeExile, &[]);
    assert_eq!(g.players[0].library, vec![1]);
    assert_eq!(g.exile.len(), 1);
    assert_eq!(g.exile[0].0, 2);
    assert_eq!(g.exile[0].2, 0);
}

#[test]
fn hidden_information_abilities_do_nothing() {
    let mut g = GameState::new_two_player();
    g.players[0].library = vec![1, 2];
    activate(&mut g, ActivatedEffect::TopLook, &[]);
    activate(&mut g, ActivatedEffect::KarnWish, &[]);
    assert_eq!(g.players[0].library, vec![1, 2]);
    assert!(g.players[0].hand.is_empty());
}

#[test]
fn planeswalker_ultimates_give_emblems() {
    let mut g = GameState::new_two_player();
    activate(&mut g, ActivatedEffect::DackUltimate, &[]);
    activate(&mut g, ActivatedEffect::GideonEmblem, &[]);
    assert!(g.has_emblem(0, engine_rust::game::Emblem::DackFayden));
    assert!(g.has_emblem(0, engine_rust::game::Emblem::GideonOfTheTrials));
    assert!(!g.has_emblem(1, engine_rust::game::Emblem::DackFayden));
}

#[test]
fn top_goes_back_on_the_library_and_draws_a_card() {
    let mut g = GameState::new_two_player();
    g.players[0].library = vec![1];
    let top = put(&mut g, CardName::SenseisDiviningTop, 0, &[CardType::Artifact]);
    activate(&mut g, ActivatedEffect::TopDraw, &[]);
    assert!(g.find_permanent(top).is_none());
    assert_eq!(g.players[0].hand, vec![top]);
    assert_eq!(g.players[0].library, vec![1]);
}

#[test]
fn the_one_ring_taps_adds_burden_and_draws_that_many() {
    let mut g = GameState::new_two_player();
    g.players[0].library = vec![1, 2, 3];
    let ring = put(&mut g, CardName::TheOneRing, 0, &[CardType::Artifact]);
    activate(&mut g, ActivatedEffect::TheOneRingDraw { ring_id: ring }, &[]);
    assert!(g.find_permanent(ring).unwrap().tapped);
    assert_eq!(g.find_permanent(ring).unwrap().counters.burden, 1);
    assert_eq!(g.players[0].hand, vec![3]);
    activate(&mut g, ActivatedEffect::TheOneRingDraw { ring_id: ring }, &[]);
    assert_eq!(g.players[0].hand, vec![3, 2, 1]);
}
