use engine_rust::action::{Action, DelayedTriggerCondition};
use engine_rust::card::{CardDef, CardName, CreatureType};
use engine_rust::game::{DestinationZone, GameState};
use engine_rust::mana::ManaCost;
use engine_rust::permanent::Permanent;
use engine_rust::stack::{StackItemKind, TriggeredEffect};
use engine_rust::types::{CardType, CounterType, Keyword, Keywords, ObjectId, Phase, PlayerId, Target};

fn card(name: CardName, cost: ManaCost, types: &[CardType], pt: Option<(i16, i16)>) -> CardDef {
    CardDef {
        name,
        mana_cost: cost,
        card_types: types.to_vec(),
        creature_types: vec![],
        is_changeling: false,
        keywords: Keywords::empty(),
        power: pt.map(|p| p.0),
        toughness: pt.map(|p| p.1),
        loyalty: None,
        color_identity: vec![],
        madness_cost: None,
        back_face: None,
    }
}

fn put(g: &mut GameState, name: CardName, controller: PlayerId, types: &[CardType]) -> ObjectId {
    let id = g.new_object_id();
    g.card_registry.push((id, name));
    g.battlefield.push(Permanent::new(id, name, controller, controller, Some(2), Some(2), None, Keywords::empty(), types));
    id
}

fn perm(g: &GameState, id: ObjectId) -> &Permanent {
    g.find_permanent(id).unwrap()
}

#[test]
fn walking_ballista_enters_with_x_counters() {
    let mut g = GameState::new_two_player();
    let ballista = put(&mut g, CardName::WalkingBallista, 0, &[CardType::Artifact, CardType::Creature]);
    g.handle_etb_with_x(CardName::WalkingBallista, ballista, 0, 3);
    assert_eq!(perm(&g, ballista).counters.get(CounterType::PlusOnePlusOne), 3);
}

#[test]
fn chalice_enters_with_x_charge_counters() {
    let mut g = GameState::new_two_player();
    let chalice = put(&mut g, CardName::ChaliceOfTheVoid, 0, &[CardType::Artifact]);
    g.handle_etb_with_x(CardName::ChaliceOfTheVoid, chalice, 0, 1);
    assert_eq!(perm(&g, chalice).counters.get(CounterType::Charge), 1);
}

#[test]
fn thought_monitor_puts_a_draw_trigger_on_the_stack() {
    let mut g = GameState::new_two_player();
    let monitor = put(&mut g, CardName::ThoughtMonitor, 0, &[CardType::Artifact, CardType::Creature]);
    g.handle_etb(CardName::ThoughtMonitor, monitor, 0);
    assert_eq!(g.stack.items.len(), 1);
    assert_eq!(g.stack.items[0].kind, StackItemKind::TriggeredAbility {
        source_id: monitor,
        source_name: CardName::ThoughtMonitor,
        effect: TriggeredEffect::DrawCards(2),
    });
    assert_eq!(g.stack.items[0].controller, 0);
}

#[test]
fn torpor_orb_stops_creature_triggers_but_not_counters() {
    let mut g = GameState::new_two_player();
    put(&mut g, CardName::TorporOrb, 1, &[CardType::Artifact]);
    let monitor = put(&mut g, CardName::ThoughtMonitor, 0, &[CardType::Artifact, CardType::Creature]);
    g.handle_etb(CardName::ThoughtMonitor, monitor, 0);
    assert!(g.stack.items.is_empty());
    let ballista = put(&mut g, CardName::WalkingBallista, 0, &[CardType::Artifact, CardType::Creature]);
    g.handle_etb_with_x(CardName::WalkingBallista, ballista, 0, 2);
    assert_eq!(perm(&g, ballista).counters.get(CounterType::PlusOnePlusOne), 2);
    // A noncreature permanent still gets its effect.
    let crypt = put(&mut g, CardName::ManaCrypt, 0, &[CardType::Artifact]);
    g.handle_etb(CardName::ManaCrypt, crypt, 0);
    assert_eq!(g.delayed_triggers.len(), 1);
    assert_eq!(g.delayed_triggers[0].condition, DelayedTriggerCondition::AtBeginningOfUpkeep { player: 0 });
    assert_eq!(g.delayed_triggers[0].effect, TriggeredEffect::ManaCryptUpkeep);
}

#[test]
fn rest_in_peace_exiles_both_graveyards() {
    let mut g = GameState::new_two_player();
    g.players[0].graveyard = vec![5, 6];
    g.players[1].graveyard = vec![7];
    g.card_registry.push((5, CardName::LightningBolt));
    let rip = put(&mut g, CardName::RestInPeace, 0, &[CardType::Enchantment]);
    g.handle_etb(CardName::RestInPeace, rip, 0);
    assert!(g.players[0].graveyard.is_empty());
    assert!(g.players[1].graveyard.is_empty());
    assert_eq!(g.exile, vec![(5, CardName::LightningBolt, 0), (6, CardName::Plains, 0), (7, CardName::Plains, 1)]);
}

#[test]
fn mai_mills_two_for_each_player_and_emry_four() {
    let mut g = GameState::new_two_player();
    g.players[0].library = vec![1, 2, 3];
    g.players[1].library = vec![4];
    let mai = put(&mut g, CardName::MaiScornfulStriker, 0, &[CardType::Creature]);
    g.handle_etb(CardName::MaiScornfulStriker, mai, 0);
    assert_eq!(g.players[0].library, vec![1]);
    assert_eq!(g.players[0].graveyard, vec![3, 2]);
    assert!(g.players[1].library.is_empty());
    assert_eq!(g.players[1].graveyard, vec![4]);
    let emry = put(&mut g, CardName::EmryLurkerOfTheLoch, 0, &[CardType::Creature]);
    g.handle_etb(CardName::EmryLurkerOfTheLoch, emry, 0);
    assert!(g.players[0].library.is_empty());
    assert_eq!(g.players[0].graveyard, vec![3, 2, 1]);
}

#[test]
fn endurance_puts_the_opponents_graveyard_under_their_library() {
    let mut g = GameState::new_two_player();
    g.players[1].library = vec![9];
    g.players[1].graveyard = vec![1, 2, 3];
    let e = put(&mut g, CardName::Endurance, 0, &[CardType::Creature]);
    g.handle_etb(CardName::Endurance, e, 0);
    assert!(g.players[1].graveyard.is_empty());
    assert_eq!(g.players[1].library, vec![3, 2, 1, 9]);
}

#[test]
fn fury_damages_the_first_opposing_creature() {
    let mut g = GameState::new_two_player();
    let mine = put(&mut g, CardName::Tarmogoyf, 0, &[CardType::Creature]);
    let theirs = put(&mut g, CardName::Tarmogoyf, 1, &[CardType::Creature]);
    let fury = put(&mut g, CardName::Fury, 0, &[CardType::Creature]);
    g.handle_etb(CardName::Fury, fury, 0);
    assert_eq!(perm(&g, theirs).damage, 4);
    assert_eq!(perm(&g, mine).damage, 0);
}

#[test]
fn manglehorn_destroys_an_opposing_artifact() {
    let mut g = GameState::new_two_player();
    let my_ring = put(&mut g, CardName::SolRing, 0, &[CardType::Artifact]);
    let their_ring = put(&mut g, CardName::SolRing, 1, &[CardType::Artifact]);
    let horn = put(&mut g, CardName::Manglehorn, 0, &[CardType::Creature]);
    g.handle_etb(CardName::Manglehorn, horn, 0);
    assert!(g.find_permanent(their_ring).is_none());
    assert!(g.find_permanent(my_ring).is_some());
    assert_eq!(g.players[1].graveyard, vec![their_ring]);
}

#[test]
fn white_orchid_phantom_spares_basic_lands() {
    let mut g = GameState::new_two_player();
    let island = put(&mut g, CardName::Island, 1, &[CardType::Land]);
    let sea = put(&mut g, CardName::UndergroundSea, 1, &[CardType::Land]);
    let phantom = put(&mut g, CardName::WhiteOrchidPhantom, 0, &[CardType::Creature]);
    g.handle_etb(CardName::WhiteOrchidPhantom, phantom, 0);
    assert!(g.find_permanent(island).is_some());
    assert!(g.find_permanent(sea).is_none());
}

#[test]
fn palace_jailer_crowns_and_exiles() {
    let mut g = GameState::new_two_player();
    let theirs = put(&mut g, CardName::Tarmogoyf, 1, &[CardType::Creature]);
    let jailer = put(&mut g, CardName::PalaceJailer, 0, &[CardType::Creature]);
    g.handle_etb(CardName::PalaceJailer, jailer, 0);
    assert_eq!(g.monarch, Some(0));
    assert!(g.find_permanent(theirs).is_none());
    assert_eq!(g.exile_linked, vec![(jailer, theirs)]);
    assert_eq!(g.exile.len(), 1);
    assert_eq!(g.exile[0].0, theirs);
}

#[test]
fn talon_gates_exiles_until_the_next_end_step() {
    let mut g = GameState::new_two_player();
    let theirs = put(&mut g, CardName::Tarmogoyf, 1, &[CardType::Creature]);
    let gates = put(&mut g, CardName::TalonGatesOfMadara, 0, &[CardType::Land]);
    g.handle_etb(CardName::TalonGatesOfMadara, gates, 0);
    assert!(g.find_permanent(theirs).is_none());
    assert_eq!(g.delayed_triggers.len(), 1);
    assert_eq!(g.delayed_triggers[0].effect, TriggeredEffect::ExileLinkedReturn { card_id: theirs, card_owner: 1 });
    assert!(g.delayed_triggers[0].fires_once);
}

#[test]
fn tokens_and_treasures() {
    let mut g = GameState::new_two_player();
    let ajani = put(&mut g, CardName::AjaniNacatlPariah, 0, &[CardType::Creature]);
    g.handle_etb(CardName::AjaniNacatlPariah, ajani, 0);
    let token = g.battlefield.last().unwrap();
    assert!(token.is_token);
    assert_eq!((token.base_power, token.base_toughness), (2, 1));
    assert_eq!(token.creature_types, vec![CreatureType::Cat, CreatureType::Warrior]);
    let n = g.battlefield.len();
    let plunderer = put(&mut g, CardName::GenerousPlunderer, 0, &[CardType::Creature]);
    g.handle_etb(CardName::GenerousPlunderer, plunderer, 0);
    assert_eq!(g.battlefield.len(), n + 3);
    assert_eq!(g.battlefield[n + 1].card_name, CardName::TreasureToken);
    assert_eq!(g.battlefield[n + 1].controller, 0);
    assert_eq!(g.battlefield[n + 2].controller, 1);
}

#[test]
fn lands_that_enter_tapped() {
    let mut g = GameState::new_two_player();
    g.turn_number = 2;
    let town = put(&mut g, CardName::StartingTown, 0, &[CardType::Land]);
    g.handle_etb(CardName::StartingTown, town, 0);
    assert!(!perm(&g, town).tapped);
    g.turn_number = 4;
    let town2 = put(&mut g, CardName::StartingTown, 0, &[CardType::Land]);
    g.handle_etb(CardName::StartingTown, town2, 0);
    assert!(perm(&g, town2).tapped);
    let vault = put(&mut g, CardName::ManaVault, 0, &[CardType::Artifact]);
    g.handle_etb(CardName::ManaVault, vault, 0);
    assert!(perm(&g, vault).doesnt_untap);
    assert!(!perm(&g, vault).tapped);
}

#[test]
fn surveil_land_enters_tapped_and_asks_about_the_top_card() {
    let mut g = GameState::new_two_player();
    g.players[0].library = vec![3];
    let maze = put(&mut g, CardName::HedgeMaze, 0, &[CardType::Land]);
    g.handle_etb(CardName::HedgeMaze, maze, 0);
    assert!(perm(&g, maze).tapped);
    assert!(g.pending_choice.is_some());
}

#[test]
fn snapcaster_gives_flashback_to_its_target() {
    let mut g = GameState::new_two_player();
    let snap = put(&mut g, CardName::SnapcasterMage, 0, &[CardType::Creature]);
    g.handle_etb_with_cast_targets(CardName::SnapcasterMage, snap, 0, &[Target::Object(42)]);
    assert_eq!(g.snapcaster_flashback_cards, vec![42]);
}

#[test]
fn casting_a_permanent_runs_its_enter_effects() {
    let db = vec![card(CardName::ThoughtMonitor, ManaCost::zero(), &[CardType::Artifact, CardType::Creature], Some((2, 2)))];
    let mut g = GameState::new_two_player();
    let ids = g.load_deck(0, &[CardName::ThoughtMonitor], &db);
    g.start_game();
    g.phase = Phase::PreCombatMain;
    g.step = None;
    g.apply_action(&Action::CastSpell { card_id: ids[0], targets: vec![] }, &db);
    g.apply_action(&Action::PassPriority, &db);
    g.apply_action(&Action::PassPriority, &db);
    assert!(g.find_permanent(ids[0]).is_some());
    assert_eq!(g.stack.items.len(), 1);
    assert_eq!(g.stack.items[0].kind, StackItemKind::TriggeredAbility {
        source_id: ids[0],
        source_name: CardName::ThoughtMonitor,
        effect: TriggeredEffect::DrawCards(2),
    });
}

#[test]
fn exchanging_control_twice_restores_controllers() {
    let mut g = GameState::new_two_player();
    let a = put(&mut g, CardName::Tarmogoyf, 0, &[CardType::Creature]);
    let b = put(&mut g, CardName::SolRing, 1, &[CardType::Artifact]);
    g.exchange_control(a, b);
    assert_eq!((perm(&g, a).controller, perm(&g, b).controller), (1, 0));
    g.exchange_control(a, b);
    assert_eq!((perm(&g, a).controller, perm(&g, b).controller), (0, 1));
}

#[test]
fn equipment_moves_its_bonus_with_it() {
    let mut g = GameState::new_two_player();
    let spear = put(&mut g, CardName::Shadowspear, 0, &[CardType::Artifact]);
    let a = put(&mut g, CardName::Tarmogoyf, 0, &[CardType::Creature]);
    let b = put(&mut g, CardName::Tarmogoyf, 0, &[CardType::Creature]);
    g.do_attach_equipment(spear, a);
    assert_eq!((perm(&g, a).power_mod, perm(&g, a).toughness_mod), (1, 1));
    assert!(perm(&g, a).keywords.has(Keyword::Trample));
    assert!(perm(&g, a).keywords.has(Keyword::Lifelink));
    assert_eq!(perm(&g, a).attachments, vec![spear]);
    assert_eq!(perm(&g, spear).attached_to, Some(a));
    g.do_attach_equipment(spear, b);
    assert_eq!((perm(&g, a).power_mod, perm(&g, a).toughness_mod), (0, 0));
    assert!(!perm(&g, a).keywords.has(Keyword::Trample));
    assert!(perm(&g, a).attachments.is_empty());
    assert_eq!((perm(&g, b).power_mod, perm(&g, b).toughness_mod), (1, 1));
    assert_eq!(perm(&g, b).attachments, vec![spear]);
    assert_eq!(perm(&g, spear).attached_to, Some(b));
}

#[test]
fn detaching_equipment_removes_its_bonus_before_it_leaves() {
    let mut g = GameState::new_two_player();
    let clamp = put(&mut g, CardName::SkullClamp, 0, &[CardType::Artifact]);
    let a = put(&mut g, CardName::Tarmogoyf, 0, &[CardType::Creature]);
    g.do_attach_equipment(clamp, a);
    assert_eq!((perm(&g, a).power_mod, perm(&g, a).toughness_mod), (1, -1));
    g.detach_and_remove(clamp, DestinationZone::Hand);
    assert!(g.find_permanent(clamp).is_none());
    assert_eq!((perm(&g, a).power_mod, perm(&g, a).toughness_mod), (0, 0));
    assert!(perm(&g, a).attachments.is_empty());
    assert_eq!(g.players[0].hand, vec![clamp]);
}
