//! Core game state and turn management.
//! This is the central data structure that search algorithms clone and mutate.
pub mod resolution;
pub mod sba;
pub mod triggers;
pub mod queries;
pub mod zones;
pub mod effects;
pub mod bounds;
pub mod spells;
pub mod abilities;
pub mod etb;
pub mod equipment;
pub mod spell_effects;
pub mod trigger_more;
pub mod activated;
pub mod counter_more;
pub mod board_more;
pub mod search_more;
pub mod graveyard_more;

use vstd::prelude::*;
use crate::action::{ActionContext, DelayedTrigger, DelayedTriggerCondition, TemporaryEffect};
use crate::card::{CardDef, CardName, find_card, lookup, types_contain, has_type};
use crate::mana::{ManaCost, ManaPool, empty_pool};
use crate::permanent::Permanent;
use crate::player::{Player, STARTING_LIFE, position_of, contains_id, copy_ids, first_index};
use crate::stack::{GameStack, StackItem, StackItemKind, TriggeredEffect, ActivatedEffect};
use crate::types::{Color, PlayerId, ObjectId, Phase, Step, CardType, Keyword, Keywords, keyword_bit, keyword_mask, CounterType, Counters, Target, GameResult};

verus! {

/// Emblems: permanent game objects owned by a player that can't be removed.
#[derive(Debug, Clone, Copy, PartialEq, Eq, Structural)]
pub enum Emblem {
    /// Dack Fayden -6.
    DackFayden,
    /// Wrenn and Six -7.
    WrennAndSix,
    /// Tezzeret, Cruel Captain -7.
    TezzeretCruelCaptain,
    /// Gideon of the Trials: as long as you control a Gideon planeswalker, you can't lose.
    GideonOfTheTrials,
}

/// Where a permanent goes when it leaves the battlefield.
#[derive(Debug, Clone, Copy, PartialEq, Eq, Structural)]
pub enum DestinationZone {
    Graveyard,
    Exile,
    Hand,
    Library,
}

/// A choice the game is waiting for a player to make.
#[derive(Debug, Clone)]
pub struct PendingChoice {
    pub player: PlayerId,
    pub kind: ChoiceKind,
}

/// Shape of a pending choice.
#[derive(Debug, Clone)]
pub enum ChoiceKind {
    /// Choose a card from a list.
    ChooseFromList { options: Vec<ObjectId>, reason: ChoiceReason },
    /// Choose a color.
    ChooseColor { reason: ChoiceReason },
    /// Choose a number in `min..=max`.
    ChooseNumber { min: u32, max: u32, reason: ChoiceReason },
}

/// Why a choice is being made.
#[derive(Debug, Clone, Copy, PartialEq, Eq, Structural)]
pub enum ChoiceReason {
    BlackLotusColor,
    LotusPetalColor,
    DemonicTutorSearch,
    VampiricTutorSearch,
    MysticalTutorSearch,
    EntombSearch,
    BrainstormPutBack,
    ThoughtseizeDiscard,
    HymnToTourachDiscard,
    ToxicDelugeLife,
    WheelOfFortuneDiscard,
    TimeTwisterShuffle,
    GenericDiscard,
    GenericSearch,
    ShockLandETB { card_id: ObjectId },
    MyrRetrieverReturn,
    EdictSacrifice,
    AnnihilatorSacrifice { remaining: u8 },
    TreasureSacrificeColor,
    CavernOfSoulsETB { cavern_id: ObjectId },
    SurveilCard { draw_after: bool },
    SurveilLandShock { card_id: ObjectId },
    TrueNameNemesisETB { permanent_id: ObjectId },
    CloneTarget { clone_id: ObjectId, is_metamorph: bool },
    ShowAndTellChoose { next_player: Option<PlayerId> },
    /// Flash: put a creature card from hand onto the battlefield.
    FlashPutCreature,
    ChromeMoxImprint { mox_id: ObjectId },
    IsochronScepterImprint { scepter_id: ObjectId },
    HideawayExile { land_id: ObjectId },
    DredgeChoice { dredge_card_id: ObjectId, dredge_n: u8, remaining_draws: usize },
    CoinFlip,
    MadnessCast { card_id: ObjectId, madness_cost: ManaCost },
}

/// Complete game state. Clone this for search tree exploration.
#[derive(Debug, Clone)]
pub struct GameState {
    pub players: Vec<Player>,
    pub active_player: PlayerId,
    pub priority_player: PlayerId,
    pub num_players: u8,
    pub turn_number: u32,
    pub phase: Phase,
    pub step: Option<Step>,
    pub battlefield: Vec<Permanent>,
    /// (id, card, owner)
    pub exile: Vec<(ObjectId, CardName, PlayerId)>,
    pub stack: GameStack,
    /// (creature_id, defending_player)
    pub attackers: Vec<(ObjectId, PlayerId)>,
    /// (blocker_id, attacker_id)
    pub blockers: Vec<(ObjectId, ObjectId)>,
    pub combat_damage_dealt: bool,
    pub action_context: ActionContext,
    pub result: GameResult,
    /// Indexed by player id.
    pub passed_priority: Vec<bool>,
    pub storm_count: u16,
    /// Next id handed out by `new_object_id`.
    pub next_object_id: ObjectId,
    pub pending_choice: Option<PendingChoice>,
    /// Maps object ids to card names.
    pub card_registry: Vec<(ObjectId, CardName)>,
    /// Until-end-of-turn effects, undone at cleanup.
    pub temporary_effects: Vec<TemporaryEffect>,
    /// Graveyard cards given flashback this turn.
    pub snapcaster_flashback_cards: Vec<ObjectId>,
    /// Cards exiled by madness, waiting for the cast-or-graveyard decision.
    pub madness_exiled: Vec<(ObjectId, PlayerId)>,
    /// (exiling permanent, exiled card) for "exile until this leaves" effects.
    pub exile_linked: Vec<(ObjectId, ObjectId)>,
    /// (permanent, imprinted card).
    pub imprinted: Vec<(ObjectId, ObjectId)>,
    /// (Skyclave Apparition, mana value of the exiled card).
    pub skyclave_token_mv: Vec<(ObjectId, u32)>,
    /// (hideaway land, exiled card).
    pub hideaway_exiled: Vec<(ObjectId, ObjectId)>,
    /// Cards exiled on an adventure, castable as their creature half.
    pub adventure_exiled: Vec<(ObjectId, PlayerId)>,
    pub monarch: Option<PlayerId>,
    /// (owner, emblem).
    pub emblems: Vec<(PlayerId, Emblem)>,
    pub delayed_triggers: Vec<DelayedTrigger>,
    /// (creature, number of Nadu triggers this turn).
    pub nadu_triggers_this_turn: Vec<(ObjectId, u8)>,
}

/// Large bound for life totals and per-player counts.
pub open spec fn big() -> int {
    0x4000_0000
}

/// Room consumed by one step for life totals and per-player counts.
pub open spec fn big_step() -> int {
    0x800_0000
}

/// Bound for power, toughness, damage, loyalty and counters after `k` steps: power and
/// toughness are sums of four such `i16` terms, so each stays near a quarter of `i16::MAX`.
pub open spec fn stat_cap(k: int) -> int {
    8000 - 1500 * k
}

/// How far one step may move a permanent's stat, and how large a stat a card definition,
/// a token or one hit of damage may bring.
pub open spec fn stat_step() -> int {
    1000
}

impl Player {
    /// Life and per-turn counts have room for `k` more steps.
    pub open spec fn stats_within(self, k: int) -> bool {
        &&& -(big() - k * big_step()) <= self.life <= big() - k * big_step()
        &&& self.extra_turns + k * big_step() <= big()
        &&& self.draws_this_turn + k * big_step() <= big()
        &&& self.cards_discarded_this_turn + k * big_step() <= big()
        &&& self.spells_cast_this_turn + k * big_step() <= big()
    }
}

impl Permanent {
    /// Power, toughness, damage, loyalty and counters have room for `k` more steps on a
    /// battlefield of `n` permanents (each removal may shift a stat by one).
    pub open spec fn stats_within(self, k: int, n: int) -> bool {
        let c = stat_cap(k) - n;
        &&& -c <= self.base_power <= c
        &&& -c <= self.base_toughness <= c
        &&& -c <= self.power_mod <= c
        &&& -c <= self.toughness_mod <= c
        &&& -c <= self.damage <= c
        &&& -c <= self.loyalty <= c
        &&& -c <= self.counters.plus_one <= c
        &&& -c <= self.counters.minus_one <= c
        &&& -c <= self.counters.lore <= c
        &&& -c <= self.counters.burden <= c
        &&& -c <= self.counters.charge <= c
        &&& -c <= self.counters.stun <= c
        &&& self.attachments@.len() <= c
    }

    /// Differs from `other` at most by one in each P/T modification, by keywords, by
    /// attachment links, and by fewer attachments; everything else equal.
    pub open spec fn close_to(self, other: Permanent) -> bool {
        &&& -1 <= self.power_mod - other.power_mod <= 1
        &&& -1 <= self.toughness_mod - other.toughness_mod <= 1
        &&& self.base_power == other.base_power
        &&& self.base_toughness == other.base_toughness
        &&& self.damage == other.damage
        &&& self.loyalty == other.loyalty
        &&& self.counters == other.counters
        &&& self.attachments@.len() <= other.attachments@.len()
    }
}

/// Every definition in the database has stats within one step of a permanent's stats
/// (`stat_step`) and a mana value that two one-mana taxes keep within a `u8`.
pub open spec fn db_ok(db: Seq<CardDef>) -> bool {
    forall|i: int|
        0 <= i < db.len() ==> {
            let d = #[trigger] db[i];
            &&& (d.power matches Some(p) ==> -stat_step() <= p <= stat_step())
            &&& (d.toughness matches Some(t) ==> -stat_step() <= t <= stat_step())
            &&& (d.loyalty matches Some(l) ==> -stat_step() <= l <= stat_step())
            &&& d.mana_cost.value() <= 253
        }
}

impl GameState {
    /// Structural well-formedness: two players, indexable priority flags and ids.
    pub open spec fn wf(self) -> bool {
        &&& self.players@.len() == 2
        &&& self.num_players == 2
        &&& self.passed_priority@.len() == 2
        &&& self.active_player < 2
        &&& self.priority_player < 2
    }

    /// All numeric state has room for `k` more steps of play.
    pub open spec fn within(self, k: int) -> bool {
        &&& 0 <= k <= 4
        &&& self.next_object_id + self.battlefield@.len() + k * big_step() <= big()
        &&& self.turn_number + k <= big()
        &&& self.storm_count + k * 100 <= 30000
        &&& forall|i: int|
            0 <= i < self.players@.len() ==> #[trigger] self.players@[i].stats_within(k)
        &&& forall|i: int|
            0 <= i < self.battlefield@.len() ==> #[trigger] self.battlefield@[i].stats_within(
                k,
                self.battlefield@.len() as int,
            )
        &&& forall|i: int|
            0 <= i < self.battlefield@.len() ==> (#[trigger] self.battlefield@[i]).owner < 2
                && self.battlefield@[i].controller < 2
    }

    /// Every mana pool has room for `n` more mana of each kind.
    pub open spec fn mana_room(self, n: int) -> bool {
        forall|i: int|
            0 <= i < self.players@.len() ==> {
                let p = #[trigger] self.players@[i].mana_pool;
                &&& p.white + n <= 255
                &&& p.blue + n <= 255
                &&& p.black + n <= 255
                &&& p.red + n <= 255
                &&& p.green + n <= 255
                &&& p.colorless + n <= 255
            }
    }

    /// The id of the next object.
    pub open spec fn next_id(self) -> ObjectId {
        self.next_object_id
    }
}

/// Index of the first permanent at or after `k` with id `id`, or -1.
pub open spec fn perm_pos_from(bf: Seq<Permanent>, id: ObjectId, k: int) -> int
    decreases bf.len() - k,
{
    if k < 0 || k >= bf.len() {
        -1
    } else if bf[k].id == id {
        k
    } else {
        perm_pos_from(bf, id, k + 1)
    }
}

/// Index of the first permanent with id `id`, or -1.
pub open spec fn perm_pos(bf: Seq<Permanent>, id: ObjectId) -> int {
    perm_pos_from(bf, id, 0)
}

/// Whether some permanent has id `id`.
pub open spec fn on_battlefield(bf: Seq<Permanent>, id: ObjectId) -> bool {
    exists|i: int| 0 <= i < bf.len() && #[trigger] bf[i].id == id
}

/// `perm_pos_from` is -1 or the first index from `k` on holding `id`.
pub proof fn lemma_perm_pos_from(bf: Seq<Permanent>, id: ObjectId, k: int)
    requires
        0 <= k,
    ensures
        perm_pos_from(bf, id, k) == -1 <==> forall|j: int| k <= j < bf.len() ==> bf[j].id != id,
        perm_pos_from(bf, id, k) != -1 ==> k <= perm_pos_from(bf, id, k) < bf.len()
            && bf[perm_pos_from(bf, id, k)].id == id,
        forall|j: int| k <= j < perm_pos_from(bf, id, k) ==> bf[j].id != id,
    decreases bf.len() - k,
{
    if k < bf.len() && bf[k].id != id {
        lemma_perm_pos_from(bf, id, k + 1);
    }
}

/// `perm_pos` is -1 exactly when no permanent has the id, else the first such index.
pub proof fn lemma_perm_pos(bf: Seq<Permanent>, id: ObjectId)
    ensures
        perm_pos(bf, id) == -1 <==> !on_battlefield(bf, id),
        perm_pos(bf, id) != -1 ==> 0 <= perm_pos(bf, id) < bf.len() && bf[perm_pos(
            bf,
            id,
        )].id == id,
        forall|j: int| 0 <= j < perm_pos(bf, id) ==> bf[j].id != id,
{
    lemma_perm_pos_from(bf, id, 0);
    if on_battlefield(bf, id) {
        let w = choose|w: int| 0 <= w < bf.len() && #[trigger] bf[w].id == id;
        assert(bf[w].id == id);
    }
}

/// The permanents of `bf` controlled by `player`, in battlefield order.
pub open spec fn controlled_by(bf: Seq<Permanent>, player: PlayerId) -> Seq<Permanent> {
    bf.filter(|p: Permanent| p.controller == player)
}

/// Index of the first registry entry for `id`, or -1.
pub open spec fn reg_pos_from(reg: Seq<(ObjectId, CardName)>, id: ObjectId, k: int) -> int
    decreases reg.len() - k,
{
    if k < 0 || k >= reg.len() {
        -1
    } else if reg[k].0 == id {
        k
    } else {
        reg_pos_from(reg, id, k + 1)
    }
}

/// The card name registered for object `id` (the first registration), if any.
pub open spec fn registered_name(reg: Seq<(ObjectId, CardName)>, id: ObjectId) -> Option<CardName> {
    let p = reg_pos_from(reg, id, 0);
    if p >= 0 {
        Some(reg[p].1)
    } else {
        None
    }
}

/// `reg_pos_from` is -1 or an index from `k` on holding `id`.
pub proof fn lemma_reg_pos_from(reg: Seq<(ObjectId, CardName)>, id: ObjectId, k: int)
    requires
        0 <= k,
    ensures
        reg_pos_from(reg, id, k) == -1 <==> forall|j: int| k <= j < reg.len() ==> reg[j].0 != id,
        reg_pos_from(reg, id, k) != -1 ==> k <= reg_pos_from(reg, id, k) < reg.len()
            && reg[reg_pos_from(reg, id, k)].0 == id,
    decreases reg.len() - k,
{
    if k < reg.len() && reg[k].0 != id {
        lemma_reg_pos_from(reg, id, k + 1);
    }
}

impl GameState {
    /// Create a new two-player game.
    pub fn new_two_player() -> (g: Self)
        ensures
            g.wf(),
            g.within(4),
            g.mana_room(255),
            g.players@[0].id == 0 && g.players@[1].id == 1,
            g.players@[0].life == STARTING_LIFE && g.players@[1].life == STARTING_LIFE,
            g.players@[0].library@.len() == 0 && g.players@[1].library@.len() == 0,
            g.players@[0].hand@.len() == 0 && g.players@[1].hand@.len() == 0,
            g.active_player == 0,
            g.priority_player == 0,
            g.turn_number == 0,
            g.phase == Phase::Beginning,
            g.step == Some(Step::Untap),
            g.battlefield@.len() == 0,
            g.exile@.len() == 0,
            g.stack.items@.len() == 0,
            g.stack.next_id == 10000,
            g.action_context == ActionContext::Priority,
            g.result == GameResult::InProgress,
            g.passed_priority@ == seq![false, false],
            g.storm_count == 0,
            g.next_object_id == 1000,
            g.pending_choice is None,
            g.card_registry@.len() == 0,
            g.monarch is None,
            g.emblems@.len() == 0,
            g.delayed_triggers@.len() == 0,
            g.temporary_effects@.len() == 0,
            g.attackers@.len() == 0,
            g.blockers@.len() == 0,
            forall|i: int| 0 <= i < 2 ==> {
                let p = #[trigger] g.players@[i];
                &&& p.graveyard@.len() == 0
                &&& p.mana_pool == empty_pool()
                &&& p.companion is None
                &&& p.extra_turns == 0
                &&& !p.has_lost
                &&& p.land_plays_remaining == 1
                &&& p.draws_this_turn == 0
                &&& !p.has_drawn_this_turn
                &&& p.cards_discarded_this_turn == 0
                &&& p.spells_cast_this_turn == 0
                &&& !p.protection_from_everything
                &&& !p.yawgmoth_will_active
                &&& !p.veil_of_summer_active
            },
    {
        let g = GameState {
            players: vec![Player::new(0), Player::new(1)],
            active_player: 0,
            priority_player: 0,
            num_players: 2,
            turn_number: 0,
            phase: Phase::Beginning,
            step: Some(Step::Untap),
            battlefield: Vec::with_capacity(32),
            exile: Vec::new(),
            stack: GameStack::new(10000),
            attackers: Vec::new(),
            blockers: Vec::new(),
            combat_damage_dealt: false,
            action_context: ActionContext::Priority,
            result: GameResult::InProgress,
            passed_priority: vec![false, false],
            storm_count: 0,
            next_object_id: 1000,
            pending_choice: None,
            card_registry: Vec::with_capacity(120),
            temporary_effects: Vec::new(),
            snapcaster_flashback_cards: Vec::new(),
            madness_exiled: Vec::new(),
            exile_linked: Vec::new(),
            imprinted: Vec::new(),
            skyclave_token_mv: Vec::new(),
            hideaway_exiled: Vec::new(),
            adventure_exiled: Vec::new(),
            monarch: None,
            emblems: Vec::new(),
            delayed_triggers: Vec::new(),
            nadu_triggers_this_turn: Vec::new(),
        };
        assert(g.players@[0].stats_within(4));
        assert(g.players@[1].stats_within(4));
        g
    }

    /// Allocate a new unique object ID.
    pub fn new_object_id(&mut self) -> (id: ObjectId)
        requires
            old(self).next_object_id < u32::MAX,
        ensures
            id == old(self).next_object_id,
            *final(self) == (GameState { next_object_id: (id + 1) as u32, ..*old(self) }),
    {
        let id = self.next_object_id;
        self.next_object_id = self.next_object_id + 1;
        id
    }
}

} // verus!

verus! {

/// The smaller of two integers.
pub open spec fn min2(a: int, b: int) -> int {
    if a <= b { a } else { b }
}

/// The last `m` cards of `lib` (its top), in the order they are drawn (top first).
pub open spec fn top_cards(lib: Seq<ObjectId>, m: int) -> Seq<ObjectId> {
    lib.subrange(lib.len() - m, lib.len() as int).reverse()
}

impl Player {
    /// Equal to `other` in everything but the hand and the library.
    pub open spec fn same_but_hand_library(self, other: Player) -> bool {
        self == Player { hand: self.hand, library: self.library, ..other }
    }
}

impl GameState {
    /// Ids handed out by `load_deck` for `n` cards starting at `start`.
    pub open spec fn fresh_ids(start: int, n: int) -> Seq<ObjectId> {
        Seq::new(n as nat, |i: int| (start + i) as ObjectId)
    }

    /// Set up a player's library with a deck of card names.
    /// Returns the object ids assigned to the cards, in deck order.
    pub fn load_deck(&mut self, player_id: PlayerId, deck: &[CardName], _db: &[CardDef]) -> (ids:
        Vec<ObjectId>)
        requires
            old(self).wf(),
            player_id < 2,
            old(self).next_object_id + deck@.len() <= u32::MAX,
        ensures
            final(self).wf(),
            ids@ == Self::fresh_ids(old(self).next_object_id as int, deck@.len() as int),
            final(self).next_object_id == old(self).next_object_id + deck@.len(),
            final(self).players@[player_id as int].library@ == old(self).players@[player_id as int].library@
                + ids@,
            final(self).players@[player_id as int] == (Player {
                library: final(self).players@[player_id as int].library,
                ..old(self).players@[player_id as int]
            }),
            final(self).players@ == old(self).players@.update(
                player_id as int,
                final(self).players@[player_id as int],
            ),
            final(self).card_registry@ == old(self).card_registry@ + Seq::new(
                deck@.len(),
                |i: int| (ids@[i], deck@[i]),
            ),
            *final(self) == (GameState {
                players: final(self).players,
                card_registry: final(self).card_registry,
                next_object_id: final(self).next_object_id,
                ..*old(self)
            }),
    {
        let ghost old_self = *old(self);
        let ghost start = self.next_object_id as int;
        let pid = player_id as usize;
        let mut ids: Vec<ObjectId> = Vec::with_capacity(deck.len());
        let mut k: usize = 0;
        while k < deck.len()
            invariant
                self.wf(),
                old_self.wf(),
                pid == player_id,
                pid < 2,
                k <= deck@.len(),
                start + deck@.len() <= u32::MAX,
                self.next_object_id == start + k,
                ids@ == Self::fresh_ids(start, k as int),
                self.players@[pid as int].library@ == old_self.players@[pid as int].library@ + ids@,
                self.players@[pid as int] == (Player {
                    library: self.players@[pid as int].library,
                    ..old_self.players@[pid as int]
                }),
                self.players@ == old_self.players@.update(pid as int, self.players@[pid as int]),
                self.card_registry@ == old_self.card_registry@ + Seq::new(
                    k as nat,
                    |i: int| (ids@[i], deck@[i]),
                ),
                *self == (GameState {
                    players: self.players,
                    card_registry: self.card_registry,
                    next_object_id: self.next_object_id,
                    ..old_self
                }),
            decreases deck@.len() - k,
        {
            let card_name = deck[k];
            let id = self.new_object_id();
            ids.push(id);
            self.players[pid].library.push(id);
            self.card_registry.push((id, card_name));
            k = k + 1;
            proof {
                assert(ids@ =~= Self::fresh_ids(start, k as int));
                assert(self.players@[pid as int].library@ =~= old_self.players@[pid as int].library@
                    + ids@);
                assert(self.card_registry@ =~= old_self.card_registry@ + Seq::new(
                    k as nat,
                    |i: int| (ids@[i], deck@[i]),
                ));
                assert(self.players@ =~= old_self.players@.update(pid as int, self.players@[pid as int]));
            }
        }
        ids
    }

    /// Register a companion card for a player (kept outside the game).
    /// Returns the object id assigned to it.
    pub fn set_companion(&mut self, player_id: PlayerId, card_name: CardName) -> (id: ObjectId)
        requires
            old(self).wf(),
            player_id < 2,
            old(self).next_object_id < u32::MAX,
        ensures
            final(self).wf(),
            id == old(self).next_object_id,
            final(self).next_object_id == id + 1,
            final(self).card_registry@ == old(self).card_registry@.push((id, card_name)),
            final(self).players@ == old(self).players@.update(
                player_id as int,
                Player { companion: Some(id), ..old(self).players@[player_id as int] },
            ),
            *final(self) == (GameState {
                players: final(self).players,
                card_registry: final(self).card_registry,
                next_object_id: final(self).next_object_id,
                ..*old(self)
            }),
    {
        let id = self.new_object_id();
        self.card_registry.push((id, card_name));
        self.players[player_id as usize].companion = Some(id);
        proof {
            assert(final(self).players@ =~= old(self).players@.update(
                player_id as int,
                Player { companion: Some(id), ..old(self).players@[player_id as int] },
            ));
        }
        id
    }

    /// Move up to `n` cards from the top of player `pid`'s library to their hand, one at a
    /// time (top card first).
    fn move_top_cards_to_hand(&mut self, pid: usize, n: usize)
        requires
            old(self).wf(),
            pid < 2,
        ensures
            final(self).wf(),
            ({
                let p = old(self).players@[pid as int];
                let m = min2(n as int, p.library@.len() as int);
                &&& final(self).players@[pid as int].hand@ == p.hand@ + top_cards(p.library@, m)
                &&& final(self).players@[pid as int].library@ == p.library@.subrange(
                    0,
                    p.library@.len() - m,
                )
            }),
            final(self).players@[pid as int].same_but_hand_library(old(self).players@[pid as int]),
            final(self).players@ == old(self).players@.update(
                pid as int,
                final(self).players@[pid as int],
            ),
            *final(self) == (GameState { players: final(self).players, ..*old(self) }),
    {
        let ghost old_self = *old(self);
        let ghost p0 = old_self.players@[pid as int];
        let mut j: usize = 0;
        while j < n
            invariant
                self.wf(),
                old_self.wf(),
                pid < 2,
                j <= n,
                ({
                    let m = min2(j as int, p0.library@.len() as int);
                    &&& self.players@[pid as int].hand@ == p0.hand@ + top_cards(p0.library@, m)
                    &&& self.players@[pid as int].library@ == p0.library@.subrange(
                        0,
                        p0.library@.len() - m,
                    )
                }),
                self.players@[pid as int].same_but_hand_library(p0),
                self.players@ == old_self.players@.update(pid as int, self.players@[pid as int]),
                *self == (GameState { players: self.players, ..old_self }),
            decreases n - j,
        {
            let ghost before_hand = self.players@[pid as int].hand@;
            let ghost before_lib = self.players@[pid as int].library@;
            if let Some(id) = self.players[pid].library.pop() {
                self.players[pid].hand.push(id);
                proof {
                    let L = p0.library@.len() as int;
                    let m = min2(j as int, L);
                    assert(m < L);
                    assert(top_cards(p0.library@, m + 1) =~= top_cards(p0.library@, m).push(
                        p0.library@[L - m - 1],
                    ));
                    assert(self.players@[pid as int].library@ =~= p0.library@.subrange(0, L - (m + 1)));
                    assert(self.players@[pid as int].hand@ =~= p0.hand@ + top_cards(p0.library@, m + 1));
                }
            }
            j = j + 1;
            proof {
                assert(self.players@ =~= old_self.players@.update(pid as int, self.players@[pid as int]));
            }
        }
    }

    /// Start the game: each player draws 7 cards (as many as their library holds);
    /// turn 1 begins in the upkeep with player 0 active and holding priority.
    pub fn start_game(&mut self)
        requires
            old(self).wf(),
        ensures
            final(self).wf(),
            forall|i: int|
                0 <= i < 2 ==> {
                    let p = old(self).players@[i];
                    let m = min2(7, p.library@.len() as int);
                    &&& #[trigger] final(self).players@[i].hand@ == p.hand@ + top_cards(
                        p.library@,
                        m,
                    )
                    &&& final(self).players@[i].library@ == p.library@.subrange(
                        0,
                        p.library@.len() - m,
                    )
                    &&& final(self).players@[i].same_but_hand_library(p)
                },
            *final(self) == (GameState {
                players: final(self).players,
                turn_number: 1,
                phase: Phase::Beginning,
                step: Some(Step::Upkeep),
                active_player: 0,
                priority_player: 0,
                ..*old(self)
            }),
    {
        self.turn_number = 1;
        self.phase = Phase::Beginning;
        self.step = Some(Step::Upkeep);
        let ghost mid = *self;
        self.move_top_cards_to_hand(0, 7);
        let ghost mid2 = *self;
        self.move_top_cards_to_hand(1, 7);
        self.active_player = 0;
        self.priority_player = 0;
        proof {
            assert(self.players@[0] == mid2.players@[0]);
        }
    }
}

/// Drawing moves cards without creating or destroying any: hand and library sizes add up
/// to the same total before and after moving `m` top cards.
pub proof fn law_drawing_conserves_cards(hand: Seq<ObjectId>, lib: Seq<ObjectId>, m: int)
    requires
        0 <= m <= lib.len(),
    ensures
        (hand + top_cards(lib, m)).len() + lib.subrange(0, lib.len() - m).len() == hand.len()
            + lib.len(),
        (hand + top_cards(lib, m)).to_multiset().add(lib.subrange(0, lib.len() - m).to_multiset())
            == hand.to_multiset().add(lib.to_multiset()),
{
    broadcast use vstd::seq_lib::group_to_multiset_ensures;

    let top = lib.subrange(lib.len() - m, lib.len() as int);
    let rest = lib.subrange(0, lib.len() - m);
    vstd::seq_lib::lemma_multiset_commutative(hand, top.reverse());
    assert(lib =~= rest + top);
    vstd::seq_lib::lemma_multiset_commutative(rest, top);
    lemma_reverse_multiset(top);
}

/// Reversing a sequence keeps its multiset of elements.
pub proof fn lemma_reverse_multiset(s: Seq<ObjectId>)
    ensures
        s.reverse().to_multiset() == s.to_multiset(),
    decreases s.len(),
{
    broadcast use vstd::seq_lib::group_to_multiset_ensures;

    if s.len() > 0 {
        let t = s.drop_last();
        lemma_reverse_multiset(t);
        assert(s.reverse() =~= seq![s.last()] + t.reverse());
        vstd::seq_lib::lemma_multiset_commutative(seq![s.last()], t.reverse());
        assert(s =~= t.push(s.last()));
        vstd::seq_lib::lemma_multiset_commutative(t, seq![s.last()]);
    }
}

} // verus!

verus! {

/// The permanent with id `id` (the first one), if any.
pub open spec fn perm_with(bf: Seq<Permanent>, id: ObjectId) -> Option<Permanent> {
    if perm_pos(bf, id) >= 0 {
        Some(bf[perm_pos(bf, id)])
    } else {
        None
    }
}

/// The battlefield after applying temporary effect `e` to its target (if present).
pub open spec fn apply_effect(bf: Seq<Permanent>, e: TemporaryEffect) -> Seq<Permanent> {
    match e {
        TemporaryEffect::ModifyPT { target, power, toughness } => {
            let i = perm_pos(bf, target);
            if i >= 0 {
                bf.update(
                    i,
                    Permanent {
                        power_mod: (bf[i].power_mod + power) as i16,
                        toughness_mod: (bf[i].toughness_mod + toughness) as i16,
                        ..bf[i]
                    },
                )
            } else {
                bf
            }
        },
        TemporaryEffect::GrantKeyword { target, keyword } => {
            let i = perm_pos(bf, target);
            if i >= 0 {
                bf.update(
                    i,
                    Permanent { keywords: Keywords(bf[i].keywords.0 | keyword_bit(keyword)), ..bf[i] },
                )
            } else {
                bf
            }
        },
        TemporaryEffect::RemoveAllAbilities { target, .. } => {
            let i = perm_pos(bf, target);
            if i >= 0 {
                bf.update(i, Permanent { keywords: Keywords(0), ..bf[i] })
            } else {
                bf
            }
        },
    }
}

/// The battlefield after undoing temporary effect `e` on its target (if present).
pub open spec fn undo_effect(bf: Seq<Permanent>, e: TemporaryEffect) -> Seq<Permanent> {
    match e {
        TemporaryEffect::ModifyPT { target, power, toughness } => {
            let i = perm_pos(bf, target);
            if i >= 0 {
                bf.update(
                    i,
                    Permanent {
                        power_mod: (bf[i].power_mod - power) as i16,
                        toughness_mod: (bf[i].toughness_mod - toughness) as i16,
                        ..bf[i]
                    },
                )
            } else {
                bf
            }
        },
        TemporaryEffect::GrantKeyword { target, keyword } => {
            let i = perm_pos(bf, target);
            if i >= 0 {
                bf.update(
                    i,
                    Permanent {
                        keywords: Keywords(bf[i].keywords.0 & !keyword_bit(keyword)),
                        ..bf[i]
                    },
                )
            } else {
                bf
            }
        },
        TemporaryEffect::RemoveAllAbilities { target, saved_keywords } => {
            let i = perm_pos(bf, target);
            if i >= 0 {
                bf.update(i, Permanent { keywords: saved_keywords, ..bf[i] })
            } else {
                bf
            }
        },
    }
}

/// Whether adding `e` to the battlefield `bf` changes something that cleanup must undo:
/// a keyword grant to a permanent that already has the keyword changes nothing and is
/// not recorded, so cleanup never takes away a keyword the permanent had before.
pub open spec fn recorded(bf: Seq<Permanent>, e: TemporaryEffect) -> bool {
    match e {
        TemporaryEffect::GrantKeyword { target, keyword } => perm_pos(bf, target) >= 0
            ==> !bf[perm_pos(bf, target)].keywords.holds(keyword),
        _ => true,
    }
}

/// Applying `e` stays inside `i16` on its target.
pub open spec fn apply_safe(bf: Seq<Permanent>, e: TemporaryEffect) -> bool {
    match e {
        TemporaryEffect::ModifyPT { target, power, toughness } => {
            let i = perm_pos(bf, target);
            i >= 0 ==> {
                &&& i16::MIN <= bf[i].power_mod + power <= i16::MAX
                &&& i16::MIN <= bf[i].toughness_mod + toughness <= i16::MAX
            }
        },
        _ => true,
    }
}

/// Undoing `e` stays inside `i16` on its target.
pub open spec fn undo_safe(bf: Seq<Permanent>, e: TemporaryEffect) -> bool {
    match e {
        TemporaryEffect::ModifyPT { target, power, toughness } => {
            let i = perm_pos(bf, target);
            i >= 0 ==> {
                &&& i16::MIN <= bf[i].power_mod - power <= i16::MAX
                &&& i16::MIN <= bf[i].toughness_mod - toughness <= i16::MAX
            }
        },
        _ => true,
    }
}

/// Undo the first `n` effects of `es`, in order.
pub open spec fn undo_all(bf: Seq<Permanent>, es: Seq<TemporaryEffect>, n: int) -> Seq<Permanent>
    decreases n,
{
    if n <= 0 || n > es.len() {
        bf
    } else {
        undo_effect(undo_all(bf, es, n - 1), es[n - 1])
    }
}

/// Undoing the first `n` effects of `es`, in order, never leaves `i16`.
pub open spec fn undo_all_safe(bf: Seq<Permanent>, es: Seq<TemporaryEffect>, n: int) -> bool
    decreases n,
{
    if n <= 0 || n > es.len() {
        true
    } else {
        undo_all_safe(bf, es, n - 1) && undo_safe(undo_all(bf, es, n - 1), es[n - 1])
    }
}

/// Updating a permanent without changing its id keeps every permanent's position.
pub proof fn lemma_perm_pos_update(bf: Seq<Permanent>, i: int, p: Permanent, id: ObjectId)
    requires
        0 <= i < bf.len(),
        p.id == bf[i].id,
    ensures
        perm_pos(bf.update(i, p), id) == perm_pos(bf, id),
{
    lemma_perm_pos_update_from(bf, i, p, id, 0);
}

proof fn lemma_perm_pos_update_from(bf: Seq<Permanent>, i: int, p: Permanent, id: ObjectId, k: int)
    requires
        0 <= i < bf.len(),
        p.id == bf[i].id,
        0 <= k,
    ensures
        perm_pos_from(bf.update(i, p), id, k) == perm_pos_from(bf, id, k),
    decreases bf.len() - k,
{
    if k < bf.len() {
        lemma_perm_pos_update_from(bf, i, p, id, k + 1);
    }
}

/// A until-end-of-turn effect is fully undone by cleanup: applying a P/T change and then
/// undoing it restores the battlefield; a recorded keyword grant (one the target lacked)
/// and then undoing it restores the battlefield; removing all abilities with the target's own
/// keywords saved and then undoing it restores the battlefield.
pub proof fn law_cleanup_undoes_temporary_effect(bf: Seq<Permanent>, e: TemporaryEffect)
    requires
        apply_safe(bf, e),
        match e {
            TemporaryEffect::ModifyPT { .. } => true,
            TemporaryEffect::GrantKeyword { .. } => recorded(bf, e),
            TemporaryEffect::RemoveAllAbilities { target, saved_keywords } => perm_pos(bf, target)
                >= 0 ==> bf[perm_pos(bf, target)].keywords == saved_keywords,
        },
    ensures
        undo_effect(apply_effect(bf, e), e) == bf,
{
    match e {
        TemporaryEffect::ModifyPT { target, power, toughness } => {
            lemma_modify_pt_undone(bf, target, power, toughness);
        },
        TemporaryEffect::GrantKeyword { target, keyword } => {
            lemma_grant_keyword_undone(bf, target, keyword);
        },
        TemporaryEffect::RemoveAllAbilities { target, saved_keywords } => {
            lemma_remove_abilities_undone(bf, target, saved_keywords);
        },
    }
}

proof fn lemma_modify_pt_undone(bf: Seq<Permanent>, target: ObjectId, power: i16, toughness: i16)
    requires
        apply_safe(bf, TemporaryEffect::ModifyPT { target, power, toughness }),
    ensures
        ({
            let e = TemporaryEffect::ModifyPT { target, power, toughness };
            undo_effect(apply_effect(bf, e), e) == bf
        }),
{
    lemma_perm_pos(bf, target);
    let i = perm_pos(bf, target);
    if i >= 0 {
        let p = Permanent {
            power_mod: (bf[i].power_mod + power) as i16,
            toughness_mod: (bf[i].toughness_mod + toughness) as i16,
            ..bf[i]
        };
        lemma_perm_pos_update(bf, i, p, target);
        let q = Permanent {
            power_mod: (p.power_mod - power) as i16,
            toughness_mod: (p.toughness_mod - toughness) as i16,
            ..p
        };
        assert(q == bf[i]);
        lemma_update_back(bf, i, p, q);
    }
}

proof fn lemma_grant_keyword_undone(bf: Seq<Permanent>, target: ObjectId, keyword: Keyword)
    requires
        perm_pos(bf, target) >= 0 ==> !bf[perm_pos(bf, target)].keywords.holds(keyword),
    ensures
        ({
            let e = TemporaryEffect::GrantKeyword { target, keyword };
            undo_effect(apply_effect(bf, e), e) == bf
        }),
{
    lemma_perm_pos(bf, target);
    let i = perm_pos(bf, target);
    if i >= 0 {
        let b = bf[i].keywords.0;
        let m = keyword_bit(keyword);
        let p = Permanent { keywords: Keywords(b | m), ..bf[i] };
        lemma_perm_pos_update(bf, i, p, target);
        assert((b | m) & !m == b) by (bit_vector)
            requires
                b & m == 0,
        ;
        let q = Permanent { keywords: Keywords(p.keywords.0 & !m), ..p };
        assert(q == bf[i]);
        lemma_update_back(bf, i, p, q);
    }
}

proof fn lemma_remove_abilities_undone(bf: Seq<Permanent>, target: ObjectId, saved_keywords: Keywords)
    requires
        perm_pos(bf, target) >= 0 ==> bf[perm_pos(bf, target)].keywords == saved_keywords,
    ensures
        ({
            let e = TemporaryEffect::RemoveAllAbilities { target, saved_keywords };
            undo_effect(apply_effect(bf, e), e) == bf
        }),
{
    lemma_perm_pos(bf, target);
    let i = perm_pos(bf, target);
    if i >= 0 {
        let p = Permanent { keywords: Keywords(0), ..bf[i] };
        lemma_perm_pos_update(bf, i, p, target);
        let q = Permanent { keywords: saved_keywords, ..p };
        assert(q == bf[i]);
        lemma_update_back(bf, i, p, q);
    }
}

/// Overwriting position `i` and then writing back its old value restores the sequence.
pub proof fn lemma_update_back(bf: Seq<Permanent>, i: int, p: Permanent, q: Permanent)
    requires
        0 <= i < bf.len(),
        q == bf[i],
    ensures
        bf.update(i, p).update(i, q) == bf,
{
    assert(bf.update(i, p).update(i, q) =~= bf);
}

impl GameState {
    /// Get the opponent of a player (2-player only).
    pub fn opponent(&self, player: PlayerId) -> (r: PlayerId)
        requires
            player <= 1,
        ensures
            r == 1 - player,
    {
        1 - player
    }

    /// Position of the first permanent with id `id`.
    pub fn perm_index(&self, id: ObjectId) -> (r: Option<usize>)
        ensures
            r matches Some(i) ==> i == perm_pos(self.battlefield@, id) && i < self.battlefield@.len(),
            r is None ==> perm_pos(self.battlefield@, id) == -1,
            r is None <==> !on_battlefield(self.battlefield@, id),
    {
        proof {
            lemma_perm_pos(self.battlefield@, id);
        }
        let mut i: usize = 0;
        while i < self.battlefield.len()
            invariant
                i <= self.battlefield@.len(),
                perm_pos(self.battlefield@, id) == perm_pos_from(self.battlefield@, id, i as int),
            decreases self.battlefield@.len() - i,
        {
            if self.battlefield[i].id == id {
                return Some(i);
            }
            i = i + 1;
        }
        None
    }

    /// The permanent with id `id` (the first one), if any.
    pub fn find_permanent(&self, id: ObjectId) -> (r: Option<&Permanent>)
        ensures
            r matches Some(p) ==> perm_with(self.battlefield@, id) == Some(*p),
            r is None ==> perm_with(self.battlefield@, id) is None,
    {
        match self.perm_index(id) {
            Some(i) => Some(&self.battlefield[i]),
            None => None,
        }
    }

    /// Clear every player's "passed priority" flag.
    pub fn reset_priority_passes(&mut self)
        ensures
            final(self).passed_priority@.len() == old(self).passed_priority@.len(),
            forall|i: int| 0 <= i < final(self).passed_priority@.len() ==> final(self).passed_priority@[i] == false,
            *final(self) == (GameState { passed_priority: final(self).passed_priority, ..*old(self) }),
    {
        let mut i: usize = 0;
        while i < self.passed_priority.len()
            invariant
                i <= self.passed_priority@.len(),
                self.passed_priority@.len() == old(self).passed_priority@.len(),
                forall|j: int| 0 <= j < i ==> (#[trigger] self.passed_priority@[j]) == false,
                *self == (GameState { passed_priority: self.passed_priority, ..*old(self) }),
            decreases self.passed_priority@.len() - i,
        {
            self.passed_priority.set(i, false);
            i = i + 1;
        }
    }

    /// Give priority to the active player in the plain priority context.
    pub fn give_priority_to_active(&mut self)
        ensures
            *final(self) == (GameState {
                priority_player: old(self).active_player,
                action_context: ActionContext::Priority,
                ..*old(self)
            }),
    {
        self.priority_player = self.active_player;
        self.action_context = ActionContext::Priority;
    }

    /// Untap all permanents controlled by the active player, skipping those that don't
    /// untap (e.g. Mana Vault, Grim Monolith).
    pub fn untap_step(&mut self)
        ensures
            final(self).battlefield@.len() == old(self).battlefield@.len(),
            forall|i: int|
                0 <= i < old(self).battlefield@.len() ==> #[trigger] final(self).battlefield@[i]
                    == (if old(self).battlefield@[i].controller == old(self).active_player
                    && !old(self).battlefield@[i].doesnt_untap {
                    Permanent { tapped: false, ..old(self).battlefield@[i] }
                } else {
                    old(self).battlefield@[i]
                }),
            *final(self) == (GameState { battlefield: final(self).battlefield, ..*old(self) }),
    {
        let mut i: usize = 0;
        while i < self.battlefield.len()
            invariant
                i <= self.battlefield@.len(),
                self.battlefield@.len() == old(self).battlefield@.len(),
                forall|j: int|
                    0 <= j < self.battlefield@.len() ==> #[trigger] self.battlefield@[j] == (if j
                        < i && old(self).battlefield@[j].controller == old(self).active_player
                        && !old(self).battlefield@[j].doesnt_untap {
                        Permanent { tapped: false, ..old(self).battlefield@[j] }
                    } else {
                        old(self).battlefield@[j]
                    }),
                *self == (GameState { battlefield: self.battlefield, ..*old(self) }),
            decreases self.battlefield@.len() - i,
        {
            if self.battlefield[i].controller == self.active_player
                && !self.battlefield[i].doesnt_untap {
                self.battlefield[i].tapped = false;
            }
            i = i + 1;
        }
    }

    /// Apply a temporary effect immediately to the target permanent, and record it so it
    /// can be reversed at end of turn.
    pub fn add_temporary_effect(&mut self, effect: TemporaryEffect)
        requires
            apply_safe(old(self).battlefield@, effect),
        ensures
            recorded(old(self).battlefield@, effect) ==> final(self).battlefield@ == apply_effect(old(self).battlefield@, effect)
                && final(self).temporary_effects@ == old(self).temporary_effects@.push(effect),
            !recorded(old(self).battlefield@, effect) ==> *final(self) == *old(self),
            *final(self) == (GameState {
                battlefield: final(self).battlefield,
                temporary_effects: final(self).temporary_effects,
                ..*old(self)
            }),
    {
        match effect {
            TemporaryEffect::ModifyPT { target, power, toughness } => {
                if let Some(i) = self.perm_index(target) {
                    self.battlefield[i].power_mod = self.battlefield[i].power_mod + power;
                    self.battlefield[i].toughness_mod = self.battlefield[i].toughness_mod
                        + toughness;
                }
            },
            TemporaryEffect::GrantKeyword { target, keyword } => {
                if let Some(i) = self.perm_index(target) {
                    if self.battlefield[i].keywords.has(keyword) {
                        return;
                    }
                    self.battlefield[i].keywords.add(keyword);
                }
            },
            TemporaryEffect::RemoveAllAbilities { target, .. } => {
                if let Some(i) = self.perm_index(target) {
                    self.battlefield[i].keywords = Keywords::empty();
                }
            },
        }
        proof {
            assert(self.battlefield@ =~= apply_effect(old(self).battlefield@, effect));
        }
        self.temporary_effects.push(effect);
    }

    /// Undo one temporary effect on its target.
    fn undo_one_effect(&mut self, effect: TemporaryEffect)
        requires
            undo_safe(old(self).battlefield@, effect),
        ensures
            final(self).battlefield@ == undo_effect(old(self).battlefield@, effect),
            *final(self) == (GameState { battlefield: final(self).battlefield, ..*old(self) }),
    {
        match effect {
            TemporaryEffect::ModifyPT { target, power, toughness } => {
                if let Some(i) = self.perm_index(target) {
                    self.battlefield[i].power_mod = self.battlefield[i].power_mod - power;
                    self.battlefield[i].toughness_mod = self.battlefield[i].toughness_mod
                        - toughness;
                }
            },
            TemporaryEffect::GrantKeyword { target, keyword } => {
                if let Some(i) = self.perm_index(target) {
                    self.battlefield[i].keywords.remove(keyword);
                }
            },
            TemporaryEffect::RemoveAllAbilities { target, saved_keywords } => {
                if let Some(i) = self.perm_index(target) {
                    self.battlefield[i].keywords = saved_keywords;
                }
            },
        }
        proof {
            assert(self.battlefield@ =~= undo_effect(old(self).battlefield@, effect));
        }
    }

    /// Reverse all temporary until-end-of-turn effects (in the order they were added) and
    /// clear the list. Called during the cleanup step.
    pub fn end_of_turn_cleanup(&mut self)
        requires
            undo_all_safe(
                old(self).battlefield@,
                old(self).temporary_effects@,
                old(self).temporary_effects@.len() as int,
            ),
        ensures
            final(self).battlefield@ == undo_all(
                old(self).battlefield@,
                old(self).temporary_effects@,
                old(self).temporary_effects@.len() as int,
            ),
            final(self).temporary_effects@.len() == 0,
            *final(self) == (GameState {
                battlefield: final(self).battlefield,
                temporary_effects: final(self).temporary_effects,
                ..*old(self)
            }),
    {
        let mut effects: Vec<TemporaryEffect> = Vec::new();
        std::mem::swap(&mut effects, &mut self.temporary_effects);
        let ghost es = effects@;
        let ghost bf0 = old(self).battlefield@;
        let mut k: usize = 0;
        while k < effects.len()
            invariant
                k <= es.len(),
                es == effects@,
                es == old(self).temporary_effects@,
                bf0 == old(self).battlefield@,
                undo_all_safe(bf0, es, es.len() as int),
                self.battlefield@ == undo_all(bf0, es, k as int),
                self.temporary_effects@.len() == 0,
                *self == (GameState {
                    battlefield: self.battlefield,
                    temporary_effects: self.temporary_effects,
                    ..*old(self)
                }),
            decreases es.len() - k,
        {
            proof {
                lemma_undo_all_safe_prefix(bf0, es, es.len() as int, k as int + 1);
            }
            let effect = effects[k];
            self.undo_one_effect(effect);
            k = k + 1;
        }
    }
}

/// Safety of undoing a list of effects implies safety of undoing any prefix of it.
pub proof fn lemma_undo_all_safe_prefix(bf: Seq<Permanent>, es: Seq<TemporaryEffect>, n: int, m: int)
    requires
        undo_all_safe(bf, es, n),
        0 <= m <= n <= es.len(),
    ensures
        undo_all_safe(bf, es, m),
    decreases n - m,
{
    if m < n {
        lemma_undo_all_safe_prefix(bf, es, n - 1, m);
    }
}

} // verus!

verus! {

/// A permanent after end-of-turn cleanup of its damage and per-turn flags.
pub open spec fn cleaned(p: Permanent) -> Permanent {
    Permanent {
        damage: 0,
        entered_this_turn: false,
        attacked_this_turn: false,
        loyalty_activated_this_turn: false,
        ..p
    }
}

/// Whether delayed trigger `dt` fires now, given the current phase, step and active player.
pub open spec fn fires_now(dt: DelayedTrigger, phase: Phase, step: Option<Step>, active: PlayerId) -> bool {
    match dt.condition {
        DelayedTriggerCondition::AtBeginningOfEndStep { player } => phase == Phase::Ending && step
            == Some(Step::End) && active == player,
        DelayedTriggerCondition::AtBeginningOfUpkeep { player } => phase == Phase::Beginning
            && step == Some(Step::Upkeep) && active == player,
        DelayedTriggerCondition::AtBeginningOfNextEndStep => phase == Phase::Ending && step == Some(
            Step::End,
        ),
        DelayedTriggerCondition::AtBeginningOfNextUpkeep => phase == Phase::Beginning && step
            == Some(Step::Upkeep),
    }
}

/// Whether `item` is the triggered ability of delayed trigger `dt` put on the stack.
pub open spec fn is_delayed_item(item: StackItem, dt: DelayedTrigger) -> bool {
    &&& item.kind == (StackItemKind::TriggeredAbility {
        source_id: 0,
        source_name: CardName::Plains,
        effect: dt.effect,
    })
    &&& item.controller == dt.controller
    &&& item.targets@.len() == 0
    &&& !item.cant_be_countered
    &&& !item.is_copy
}

impl GameState {
    /// The cleanup step state that `within` must still hold after: the battlefield once its
    /// per-turn state is cleared and the temporary effects are undone.
    pub open spec fn cleanup_within(self, k: int) -> bool {
        let bf = self.battlefield@.map_values(|p: Permanent| cleaned(p));
        let es = self.temporary_effects@;
        &&& undo_all_safe(bf, es, es.len() as int)
        &&& forall|i: int|
            0 <= i < undo_all(bf, es, es.len() as int).len() ==> #[trigger] undo_all(
                bf,
                es,
                es.len() as int,
            )[i].stats_within(k, self.battlefield@.len() as int)
    }

    /// Check and fire delayed triggers for the current step: every trigger whose condition
    /// holds goes on the stack (in registration order); those that fire once are removed.
    pub fn check_delayed_triggers(&mut self)
        ensures
            ({
                let fired = old(self).delayed_triggers@.filter(
                    |dt: DelayedTrigger|
                        fires_now(dt, old(self).phase, old(self).step, old(self).active_player),
                );
                &&& final(self).stack.items@.len() == old(self).stack.items@.len() + fired.len()
                &&& final(self).stack.items@.subrange(0, old(self).stack.items@.len() as int)
                    == old(self).stack.items@
                &&& forall|j: int|
                    0 <= j < fired.len() ==> is_delayed_item(
                        #[trigger] final(self).stack.items@[old(self).stack.items@.len() + j],
                        fired[j],
                    )
                &&& final(self).delayed_triggers@ == old(self).delayed_triggers@.filter(
                    |dt: DelayedTrigger|
                        !(fires_now(dt, old(self).phase, old(self).step, old(self).active_player)
                            && dt.fires_once),
                )
                &&& fired.len() == 0 ==> *final(self) == *old(self)
            }),
            *final(self) == (GameState {
                stack: final(self).stack,
                delayed_triggers: final(self).delayed_triggers,
                ..*old(self)
            }),
    {
        let active = self.active_player;
        let step = self.step;
        let phase = self.phase;
        let ghost orig = self.delayed_triggers@;
        let ghost fires = |dt: DelayedTrigger| fires_now(dt, phase, step, active);
        let ghost keep = |dt: DelayedTrigger| !(fires_now(dt, phase, step, active) && dt.fires_once);
        let n = self.delayed_triggers.len();
        let mut to_fire: Vec<DelayedTrigger> = Vec::new();
        let mut i: usize = 0;
        while i < n
            invariant
                n == orig.len(),
                orig == self.delayed_triggers@,
                i <= n,
                to_fire@ == orig.subrange(0, i as int).filter(fires),
                fires == (|dt: DelayedTrigger| fires_now(dt, phase, step, active)),
            decreases n - i,
        {
            let dt = self.delayed_triggers[i];
            proof {
                assert(orig.subrange(0, i as int + 1) =~= orig.subrange(0, i as int).push(dt));
                orig.subrange(0, i as int).lemma_filter_push(dt, fires);
            }
            let f = delayed_fires(&dt, phase, step, active);
            assert(f == fires(dt));
            assert(dt == orig[i as int]);
            if f {
                to_fire.push(dt);
            }
            assert(to_fire@ == orig.subrange(0, i as int + 1).filter(fires));
            i = i + 1;
        }
        proof {
            assert(orig.subrange(0, n as int) =~= orig);
        }
        if to_fire.len() == 0 {
            proof {
                lemma_filter_keep_when_none_fire(orig, phase, step, active);
            }
            return;
        }
        let mut kept: Vec<DelayedTrigger> = Vec::new();
        let mut i: usize = 0;
        while i < n
            invariant
                n == orig.len(),
                orig == self.delayed_triggers@,
                i <= n,
                kept@ == orig.subrange(0, i as int).filter(keep),
                keep == (|dt: DelayedTrigger| !(fires_now(dt, phase, step, active) && dt.fires_once)),
                self.phase == phase && self.step == step && self.active_player == active,
            decreases n - i,
        {
            let dt = self.delayed_triggers[i];
            proof {
                assert(orig.subrange(0, i as int + 1) =~= orig.subrange(0, i as int).push(dt));
                orig.subrange(0, i as int).lemma_filter_push(dt, keep);
            }
            if !(delayed_fires(&dt, phase, step, active) && dt.fires_once) {
                kept.push(dt);
            }
            i = i + 1;
        }
        proof {
            assert(orig.subrange(0, n as int) =~= orig);
        }
        self.delayed_triggers = kept;
        proof {
            assert(keep =~= (|dt: DelayedTrigger| !(fires_now(dt, old(self).phase, old(self).step, old(self).active_player) && dt.fires_once)));
            assert(fires =~= (|dt: DelayedTrigger| fires_now(dt, old(self).phase, old(self).step, old(self).active_player)));
        }
        let ghost stack0 = self.stack.items@;
        let mut j: usize = 0;
        while j < to_fire.len()
            invariant
                j <= to_fire@.len(),
                to_fire@ == orig.filter(fires),
                fires == (|dt: DelayedTrigger| fires_now(dt, phase, step, active)),
                keep == (|dt: DelayedTrigger| !(fires_now(dt, phase, step, active) && dt.fires_once)),
                orig == old(self).delayed_triggers@,
                self.delayed_triggers@ == orig.filter(keep),
                stack0 == old(self).stack.items@,
                self.stack.items@.len() == stack0.len() + j,
                self.stack.items@.subrange(0, stack0.len() as int) == stack0,
                forall|q: int|
                    0 <= q < j ==> is_delayed_item(#[trigger] self.stack.items@[stack0.len() + q], to_fire@[q]),
                *self == (GameState {
                    stack: self.stack,
                    delayed_triggers: self.delayed_triggers,
                    ..*old(self)
                }),
            decreases to_fire@.len() - j,
        {
            let dt = to_fire[j];
            let ghost before = self.stack.items@;
            self.stack.push(
                StackItemKind::TriggeredAbility {
                    source_id: 0,
                    source_name: CardName::Plains,
                    effect: dt.effect,
                },
                dt.controller,
                Vec::new(),
            );
            proof {
                assert forall|q: int| 0 <= q < j + 1 implies is_delayed_item(
                    #[trigger] self.stack.items@[stack0.len() + q],
                    to_fire@[q],
                ) by {
                    if q < j {
                        assert(self.stack.items@[stack0.len() + q] == before[stack0.len() + q]);
                    }
                }
                assert(self.stack.items@.subrange(0, stack0.len() as int) =~= stack0);
            }
            j = j + 1;
        }
    }
}

/// Whether delayed trigger `dt` fires now.
fn delayed_fires(dt: &DelayedTrigger, phase: Phase, step: Option<Step>, active: PlayerId) -> (r: bool)
    ensures
        r == fires_now(*dt, phase, step, active),
{
    let in_end_step = phase == Phase::Ending && step == Some(Step::End);
    let in_upkeep = phase == Phase::Beginning && step == Some(Step::Upkeep);
    match dt.condition {
        DelayedTriggerCondition::AtBeginningOfEndStep { player } => in_end_step && active == player,
        DelayedTriggerCondition::AtBeginningOfUpkeep { player } => in_upkeep && active == player,
        DelayedTriggerCondition::AtBeginningOfNextEndStep => in_end_step,
        DelayedTriggerCondition::AtBeginningOfNextUpkeep => in_upkeep,
    }
}

/// When nothing fires, nothing is removed.
proof fn lemma_filter_keep_when_none_fire(s: Seq<DelayedTrigger>, phase: Phase, step: Option<Step>, active: PlayerId)
    requires
        s.filter(|dt: DelayedTrigger| fires_now(dt, phase, step, active)).len() == 0,
    ensures
        s.filter(|dt: DelayedTrigger| !(fires_now(dt, phase, step, active) && dt.fires_once)) == s,
    decreases s.len(),
{
    let fires = |dt: DelayedTrigger| fires_now(dt, phase, step, active);
    let keep = |dt: DelayedTrigger| !(fires_now(dt, phase, step, active) && dt.fires_once);
    if s.len() > 0 {
        let t = s.drop_last();
        assert(s =~= t.push(s.last()));
        t.lemma_filter_push(s.last(), fires);
        t.lemma_filter_push(s.last(), keep);
        if fires(s.last()) {
            assert(s.filter(fires).len() == t.filter(fires).len() + 1);
        }
        lemma_filter_keep_when_none_fire(t, phase, step, active);
    } else {
        assert(s.filter(keep) =~= s);
    }
}



} // verus!

verus! {

/// Whether some declared attacker (the first permanent with its id) has first strike or
/// double strike.
pub open spec fn attackers_have_first_strike(bf: Seq<Permanent>, attackers: Seq<(ObjectId, PlayerId)>) -> bool {
    exists|i: int| 0 <= i < attackers.len() && #[trigger] strikes_first(bf, attackers[i].0)
}

/// Whether the permanent with id `id` exists and has first strike or double strike.
pub open spec fn strikes_first(bf: Seq<Permanent>, id: ObjectId) -> bool {
    match perm_with(bf, id) {
        Some(p) => p.keywords.holds(Keyword::FirstStrike) || p.keywords.holds(Keyword::DoubleStrike),
        None => false,
    }
}

impl GameState {
    /// Discard down to seven cards, clear damage and per-turn flags, undo temporary effects,
    /// and forget this turn's Snapcaster Mage flashback grants.
    fn cleanup_step(&mut self)
        requires
            old(self).wf(),
            undo_all_safe(
                old(self).battlefield@.map_values(|p: Permanent| cleaned(p)),
                old(self).temporary_effects@,
                old(self).temporary_effects@.len() as int,
            ),
        ensures
            final(self).wf(),
            ({
                let a = old(self).active_player as int;
                let hand = old(self).players@[a].hand@;
                let keep = min2(hand.len() as int, 7);
                &&& final(self).players@[a].hand@ == hand.subrange(0, keep)
                &&& final(self).players@[a].graveyard@ == old(self).players@[a].graveyard@
                    + hand.subrange(keep, hand.len() as int).reverse()
                &&& final(self).players@[a] == (Player {
                    hand: final(self).players@[a].hand,
                    graveyard: final(self).players@[a].graveyard,
                    ..old(self).players@[a]
                })
                &&& final(self).players@ == old(self).players@.update(a, final(self).players@[a])
            }),
            final(self).battlefield@ == undo_all(
                old(self).battlefield@.map_values(|p: Permanent| cleaned(p)),
                old(self).temporary_effects@,
                old(self).temporary_effects@.len() as int,
            ),
            final(self).temporary_effects@.len() == 0,
            final(self).snapcaster_flashback_cards@.len() == 0,
            *final(self) == (GameState {
                players: final(self).players,
                battlefield: final(self).battlefield,
                temporary_effects: final(self).temporary_effects,
                snapcaster_flashback_cards: final(self).snapcaster_flashback_cards,
                ..*old(self)
            }),
    {
        let active = self.active_player as usize;
        let ghost p0 = self.players@[active as int];
        let ghost old_self = *self;
        while self.players[active].hand.len() > 7
            invariant
                self.wf(),
                old_self.wf(),
                active == old_self.active_player,
                min2(p0.hand@.len() as int, 7) <= self.players@[active as int].hand@.len() <= p0.hand@.len(),
                p0.hand@.len() > 7 ==> self.players@[active as int].hand@ == p0.hand@.subrange(
                    0,
                    self.players@[active as int].hand@.len() as int,
                ),
                p0.hand@.len() <= 7 ==> self.players@[active as int] == p0,
                self.players@[active as int].graveyard@ == p0.graveyard@ + p0.hand@.subrange(
                    self.players@[active as int].hand@.len() as int,
                    p0.hand@.len() as int,
                ).reverse(),
                self.players@[active as int] == (Player {
                    hand: self.players@[active as int].hand,
                    graveyard: self.players@[active as int].graveyard,
                    ..p0
                }),
                self.players@ == old_self.players@.update(active as int, self.players@[active as int]),
                *self == (GameState { players: self.players, ..old_self }),
            decreases self.players@[active as int].hand@.len(),
        {
            let ghost h = self.players@[active as int].hand@;
            if let Some(id) = self.players[active].hand.pop() {
                self.players[active].graveyard.push(id);
                proof {
                    let n = h.len() as int;
                    assert(p0.hand@.subrange(n - 1, p0.hand@.len() as int).reverse() =~= p0.hand@.subrange(
                        n,
                        p0.hand@.len() as int,
                    ).reverse().push(id));
                    assert(self.players@[active as int].hand@ =~= p0.hand@.subrange(0, n - 1));
                    assert(self.players@[active as int].graveyard@ =~= p0.graveyard@ + p0.hand@.subrange(
                        n - 1,
                        p0.hand@.len() as int,
                    ).reverse());
                }
            }
            proof {
                assert(self.players@ =~= old_self.players@.update(active as int, self.players@[active as int]));
            }
        }
        proof {
            let hl = p0.hand@.len() as int;
            if hl <= 7 {
                assert(p0.hand@.subrange(0, hl) =~= p0.hand@);
                assert(p0.hand@.subrange(hl, hl).reverse() =~= Seq::<ObjectId>::empty());
                assert(p0.graveyard@ + Seq::<ObjectId>::empty() =~= p0.graveyard@);
            }
        }
        let ghost mid = *self;
        let mut i: usize = 0;
        while i < self.battlefield.len()
            invariant
                i <= self.battlefield@.len(),
                self.battlefield@.len() == mid.battlefield@.len(),
                forall|j: int|
                    0 <= j < self.battlefield@.len() ==> #[trigger] self.battlefield@[j] == (if j < i {
                        cleaned(mid.battlefield@[j])
                    } else {
                        mid.battlefield@[j]
                    }),
                *self == (GameState { battlefield: self.battlefield, ..mid }),
            decreases self.battlefield@.len() - i,
        {
            self.battlefield[i].end_of_turn_cleanup();
            i = i + 1;
        }
        proof {
            assert(self.battlefield@ =~= old_self.battlefield@.map_values(|p: Permanent| cleaned(p)));
        }
        self.end_of_turn_cleanup();
        self.snapcaster_flashback_cards.clear();
    }

    /// Move to the next turn: an extra turn keeps the active player (using one up),
    /// otherwise the opponent becomes active; the new active player's per-turn state is
    /// reset, their permanents untap, and they get priority in the untap step.
    fn next_turn(&mut self)
        requires
            old(self).wf(),
            old(self).turn_number < u32::MAX,
        ensures
            final(self).wf(),
            ({
                let a = old(self).active_player as int;
                let extra = old(self).players@[a].extra_turns > 0;
                let na: PlayerId = if extra { old(self).active_player } else { (1 - old(self).active_player) as PlayerId };
                let p1 = if extra {
                    Player { extra_turns: (old(self).players@[a].extra_turns - 1) as u32, ..old(self).players@[a] }
                } else {
                    old(self).players@[a]
                };
                let ps = old(self).players@.update(a, p1);
                &&& final(self).active_player == na
                &&& final(self).players@ == ps.update(
                    na as int,
                    Player {
                        land_plays_remaining: 1,
                        draws_this_turn: 0,
                        has_drawn_this_turn: false,
                        cards_discarded_this_turn: 0,
                        spells_cast_this_turn: 0,
                        protection_from_everything: false,
                        ..ps[na as int]
                    },
                )
                &&& final(self).battlefield@.len() == old(self).battlefield@.len()
                &&& forall|i: int|
                    0 <= i < old(self).battlefield@.len() ==> #[trigger] final(self).battlefield@[i]
                        == (if old(self).battlefield@[i].controller == na
                        && !old(self).battlefield@[i].doesnt_untap {
                        Permanent { tapped: false, ..old(self).battlefield@[i] }
                    } else {
                        old(self).battlefield@[i]
                    })
                &&& final(self).priority_player == na
            }),
            *final(self) == (GameState {
                players: final(self).players,
                active_player: final(self).active_player,
                priority_player: final(self).priority_player,
                battlefield: final(self).battlefield,
                turn_number: (old(self).turn_number + 1) as u32,
                phase: Phase::Beginning,
                step: Some(Step::Untap),
                storm_count: 0,
                action_context: ActionContext::Priority,
                ..*old(self)
            }),
    {
        let active = self.active_player as usize;
        if self.players[active].extra_turns > 0 {
            self.players[active].extra_turns = self.players[active].extra_turns - 1;
        } else {
            self.active_player = self.opponent(self.active_player);
        }
        self.turn_number = self.turn_number + 1;
        self.phase = Phase::Beginning;
        self.step = Some(Step::Untap);
        self.storm_count = 0;
        let active = self.active_player as usize;
        self.players[active].reset_for_turn();
        self.untap_step();
        self.priority_player = self.active_player;
        self.action_context = ActionContext::Priority;
    }
}

} // verus!

verus! {

/// The phase and step that `advance_phase` moves to from state `g`.
pub open spec fn phase_after(g: GameState) -> (Phase, Option<Step>) {
    match (g.phase, g.step) {
        (Phase::Beginning, Some(Step::Untap)) => (Phase::Beginning, Some(Step::Upkeep)),
        (Phase::Beginning, Some(Step::Upkeep)) => (Phase::Beginning, Some(Step::Draw)),
        (Phase::Beginning, Some(Step::Draw)) => (Phase::PreCombatMain, None),
        (Phase::PreCombatMain, _) => (Phase::Combat, Some(Step::BeginCombat)),
        (Phase::Combat, Some(Step::BeginCombat)) => (Phase::Combat, Some(Step::DeclareAttackers)),
        (Phase::Combat, Some(Step::DeclareAttackers)) => if g.attackers@.len() == 0 {
            (Phase::PostCombatMain, None)
        } else {
            (Phase::Combat, Some(Step::DeclareBlockers))
        },
        (Phase::Combat, Some(Step::DeclareBlockers)) => if attackers_have_first_strike(
            g.battlefield@,
            g.attackers@,
        ) {
            (Phase::Combat, Some(Step::FirstStrikeDamage))
        } else {
            (Phase::Combat, Some(Step::CombatDamage))
        },
        (Phase::Combat, Some(Step::FirstStrikeDamage)) => (Phase::Combat, Some(Step::CombatDamage)),
        (Phase::Combat, Some(Step::CombatDamage)) => (Phase::Combat, Some(Step::EndOfCombat)),
        (Phase::Combat, Some(Step::EndOfCombat)) => (Phase::PostCombatMain, None),
        (Phase::PostCombatMain, _) => (Phase::Ending, Some(Step::End)),
        (Phase::Ending, Some(Step::End)) => (Phase::Ending, Some(Step::Cleanup)),
        _ => (Phase::Beginning, Some(Step::Untap)),
    }
}

/// Whether `advance_phase` from `g` starts a new turn.
pub open spec fn starts_new_turn(g: GameState) -> bool {
    phase_after(g) == (Phase::Beginning, Some(Step::Untap))
}

/// The turn passed from `g0` to `g1`: an extra turn of the active player is used up, or the
/// other player becomes active; the new active player's per-turn state is reset and their
/// permanents untap (except those that don't untap); storm is reset and the new active
/// player holds priority.
pub open spec fn turn_handed_over(g0: GameState, g1: GameState) -> bool {
    let a = g0.active_player as int;
    let extra = g0.players@[a].extra_turns > 0;
    let na: PlayerId = if extra { g0.active_player } else { (1 - g0.active_player) as PlayerId };
    let q = g1.players@[na as int];
    &&& g1.active_player == na
    &&& g1.priority_player == na
    &&& g1.storm_count == 0
    &&& g1.action_context == ActionContext::Priority
    &&& g1.players@[a].extra_turns == if extra { g0.players@[a].extra_turns - 1 } else { g0.players@[a].extra_turns as int }
    &&& q.land_plays_remaining == 1 && q.draws_this_turn == 0 && !q.has_drawn_this_turn
    &&& q.cards_discarded_this_turn == 0 && q.spells_cast_this_turn == 0 && !q.protection_from_everything
    &&& g1.battlefield@.len() == g0.battlefield@.len()
    &&& forall|i: int| 0 <= i < g0.battlefield@.len() ==> #[trigger] g1.battlefield@[i]
        == (if g0.battlefield@[i].controller == na && !g0.battlefield@[i].doesnt_untap {
            Permanent { tapped: false, ..g0.battlefield@[i] }
        } else {
            g0.battlefield@[i]
        })
}

/// The draw step's draw from `g0` to `g1`: the active player draws the top card of their
/// library (when there is one), except the starting player on the first turn.
pub open spec fn draw_step_drew(g0: GameState, g1: GameState) -> bool {
    let a = g0.active_player as int;
    let p = g0.players@[a];
    let m = if g0.turn_number > 1 || g0.active_player != 0 { min2(1, p.library@.len() as int) } else { 0 };
    &&& g1.players@[a].hand@ == p.hand@ + top_cards(p.library@, m)
    &&& g1.players@[a].library@ == p.library@.subrange(0, p.library@.len() - m)
}

/// The cleanup step's discard from `g0` to `g1`: the active player keeps the first seven
/// cards of their hand and discards the rest (the last first); the temporary effects end.
pub open spec fn cleanup_discarded(g0: GameState, g1: GameState) -> bool {
    let a = g0.active_player as int;
    let hand = g0.players@[a].hand@;
    let keep = min2(hand.len() as int, 7);
    &&& g1.players@[a].hand@ == hand.subrange(0, keep)
    &&& g1.players@[a].graveyard@ == g0.players@[a].graveyard@ + hand.subrange(keep, hand.len() as int).reverse()
    &&& g1.temporary_effects@.len() == 0
}

/// `g1` is `g0` after moving on to the next step (see `GameState::advance_phase`).
pub open spec fn phase_advanced(g0: GameState, g1: GameState) -> bool {
    &&& g1.wf()
    &&& (g1.phase, g1.step) == phase_after(g0)
    &&& g1.turn_number == if starts_new_turn(g0) {
        g0.turn_number + 1
        } else {
        g0.turn_number as int
        }
    &&& forall|i: int|
        0 <= i < 2 ==> #[trigger] g1.players@[i].mana_pool == empty_pool()
    &&& forall|i: int| 0 <= i < 2 ==> g1.passed_priority@[i] == false
    &&& g0.stack.items@.len() <= g1.stack.items@.len()
    &&& g1.stack.items@.subrange(0, g0.stack.items@.len() as int)
        == g0.stack.items@
    &&& g1.result == g0.result
    &&& g1.card_registry == g0.card_registry
    &&& g1.next_object_id == g0.next_object_id
    &&& starts_new_turn(g0) ==> turn_handed_over(g0, g1)
    &&& g0.phase == Phase::Beginning && g0.step == Some(Step::Upkeep) ==> draw_step_drew(g0, g1)
    &&& in_end_step(g0) ==> cleanup_discarded(g0, g1)
    &&& !starts_new_turn(g0) ==> g1.active_player == g0.active_player
    &&& !starts_new_turn(g0) && !in_end_step(g0) ==> g1.priority_player == (
        if g0.phase == Phase::Combat && g0.step == Some(Step::DeclareAttackers) && g0.attackers@.len() > 0 {
        (1 - g0.active_player) as PlayerId
        } else {
        g0.active_player
        })
    &&& (g1.phase, g1.step) == (Phase::Beginning, Some(Step::Upkeep))
        || (g1.phase, g1.step) == (Phase::Ending, Some(Step::End))
        ==> g1.delayed_triggers@ == g0.delayed_triggers@.filter(
        |dt: DelayedTrigger| !(fires_now(dt, g1.phase, g1.step, g0.active_player) && dt.fires_once))
}

/// Whether `g` is in the end step (so advancing runs the cleanup step).
pub open spec fn in_end_step(g: GameState) -> bool {
    g.phase == Phase::Ending && g.step == Some(Step::End)
}

impl GameState {
    /// Whether the first permanent with id `id` has first strike or double strike.
    fn has_first_strike(&self, id: ObjectId) -> (r: bool)
        ensures
            r == strikes_first(self.battlefield@, id),
    {
        match self.find_permanent(id) {
            Some(p) => p.keywords.has(Keyword::FirstStrike) || p.keywords.has(Keyword::DoubleStrike),
            None => false,
        }
    }

    /// Advance to the next phase/step. Mana pools empty at every change; the phase and
    /// step move as `phase_after` says; the draw step draws for the active player (not on
    /// the first player's first turn); the end step queues the monarch's draw; upkeep and
    /// end step fire delayed triggers; the cleanup step discards to seven and undoes
    /// until-end-of-turn effects; after cleanup the next turn starts.
    pub fn advance_phase(&mut self)
        requires
            old(self).wf(),
            old(self).turn_number < u32::MAX,
            in_end_step(*old(self)) ==> undo_all_safe(
                old(self).battlefield@.map_values(|p: Permanent| cleaned(p)),
                old(self).temporary_effects@,
                old(self).temporary_effects@.len() as int,
            ),
        ensures
            phase_advanced(*old(self), *final(self)),
            final(self).wf(),
            (final(self).phase, final(self).step) == phase_after(*old(self)),
            final(self).turn_number == if starts_new_turn(*old(self)) {
                old(self).turn_number + 1
            } else {
                old(self).turn_number as int
            },
            forall|i: int|
                0 <= i < 2 ==> #[trigger] final(self).players@[i].mana_pool == empty_pool(),
            forall|i: int| 0 <= i < 2 ==> final(self).passed_priority@[i] == false,
            old(self).stack.items@.len() <= final(self).stack.items@.len(),
            final(self).stack.items@.subrange(0, old(self).stack.items@.len() as int)
                == old(self).stack.items@,
            final(self).result == old(self).result,
            final(self).card_registry == old(self).card_registry,
            final(self).next_object_id == old(self).next_object_id,
            starts_new_turn(*old(self)) ==> turn_handed_over(*old(self), *final(self)),
            old(self).phase == Phase::Beginning && old(self).step == Some(Step::Upkeep) ==> draw_step_drew(*old(self), *final(self)),
            in_end_step(*old(self)) ==> cleanup_discarded(*old(self), *final(self)),
            !starts_new_turn(*old(self)) ==> final(self).active_player == old(self).active_player,
            !starts_new_turn(*old(self)) && !in_end_step(*old(self)) ==> final(self).priority_player == (
                if old(self).phase == Phase::Combat && old(self).step == Some(Step::DeclareAttackers) && old(self).attackers@.len() > 0 {
                    (1 - old(self).active_player) as PlayerId
                } else {
                    old(self).active_player
                }),
            (final(self).phase, final(self).step) == (Phase::Beginning, Some(Step::Upkeep))
                || (final(self).phase, final(self).step) == (Phase::Ending, Some(Step::End))
                ==> final(self).delayed_triggers@ == old(self).delayed_triggers@.filter(
                    |dt: DelayedTrigger| !(fires_now(dt, final(self).phase, final(self).step, old(self).active_player) && dt.fires_once)),
    {
        let mut pi: usize = 0;
        while pi < self.players.len()
            invariant
                self.wf(),
                pi <= 2,
                forall|i: int| 0 <= i < pi ==> #[trigger] self.players@[i].mana_pool == empty_pool(),
                *self == (GameState { players: self.players, ..*old(self) }),
                forall|i: int|
                    0 <= i < 2 ==> #[trigger] self.players@[i] == (Player {
                        mana_pool: self.players@[i].mana_pool,
                        ..old(self).players@[i]
                    }),
            decreases 2 - pi,
        {
            self.players[pi].mana_pool.empty();
            pi = pi + 1;
        }
        let ghost emptied = *self;
        match (self.phase, self.step) {
            (Phase::Beginning, Some(Step::Untap)) => {
                self.step = Some(Step::Upkeep);
                self.check_delayed_triggers();
                self.give_priority_to_active();
            },
            (Phase::Beginning, Some(Step::Upkeep)) => {
                self.step = Some(Step::Draw);
                let ghost a = old(self).active_player as int;
                proof {
                    assert(self.players@[a] == (Player { mana_pool: self.players@[a].mana_pool, ..old(self).players@[a] }));
                }
                if self.turn_number > 1 || self.active_player != 0 {
                    let active = self.active_player as usize;
                    self.move_top_cards_to_hand(active, 1);
                } else {
                    proof {
                        let p = old(self).players@[a];
                        assert(top_cards(p.library@, 0) =~= Seq::<ObjectId>::empty());
                        assert(p.hand@ + top_cards(p.library@, 0) =~= p.hand@);
                        assert(p.library@.subrange(0, p.library@.len() as int) =~= p.library@);
                    }
                }
                self.give_priority_to_active();
            },
            (Phase::Beginning, Some(Step::Draw)) => {
                self.phase = Phase::PreCombatMain;
                self.step = None;
                self.give_priority_to_active();
            },
            (Phase::PreCombatMain, _) => {
                self.phase = Phase::Combat;
                self.step = Some(Step::BeginCombat);
                self.give_priority_to_active();
            },
            (Phase::Combat, Some(Step::BeginCombat)) => {
                self.step = Some(Step::DeclareAttackers);
                self.action_context = ActionContext::DeclareAttackers;
                self.attackers.clear();
                self.give_priority_to_active();
            },
            (Phase::Combat, Some(Step::DeclareAttackers)) => {
                if self.attackers.len() == 0 {
                    self.phase = Phase::PostCombatMain;
                    self.step = None;
                    self.action_context = ActionContext::Priority;
                    self.give_priority_to_active();
                } else {
                    self.step = Some(Step::DeclareBlockers);
                    self.action_context = ActionContext::DeclareBlockers;
                    self.priority_player = self.opponent(self.active_player);
                }
            },
            (Phase::Combat, Some(Step::DeclareBlockers)) => {
                self.action_context = ActionContext::Priority;
                let mut has_first_strike = false;
                let mut q: usize = 0;
                while q < self.attackers.len()
                    invariant
                        q <= self.attackers@.len(),
                        has_first_strike == exists|j: int|
                            0 <= j < q && #[trigger] strikes_first(self.battlefield@, self.attackers@[j].0),
                    decreases self.attackers@.len() - q,
                {
                    if self.has_first_strike(self.attackers[q].0) {
                        has_first_strike = true;
                    }
                    q = q + 1;
                }
                if has_first_strike {
                    self.step = Some(Step::FirstStrikeDamage);
                } else {
                    self.step = Some(Step::CombatDamage);
                }
                self.give_priority_to_active();
            },
            (Phase::Combat, Some(Step::FirstStrikeDamage)) => {
                self.step = Some(Step::CombatDamage);
                self.give_priority_to_active();
            },
            (Phase::Combat, Some(Step::CombatDamage)) => {
                self.step = Some(Step::EndOfCombat);
                self.give_priority_to_active();
            },
            (Phase::Combat, Some(Step::EndOfCombat)) => {
                self.attackers.clear();
                self.blockers.clear();
                self.combat_damage_dealt = false;
                self.phase = Phase::PostCombatMain;
                self.step = None;
                self.action_context = ActionContext::Priority;
                self.give_priority_to_active();
            },
            (Phase::PostCombatMain, _) => {
                self.phase = Phase::Ending;
                self.step = Some(Step::End);
                if let Some(monarch_id) = self.monarch {
                    if monarch_id == self.active_player {
                        self.stack.push(
                            StackItemKind::TriggeredAbility {
                                source_id: 0,
                                source_name: CardName::Plains,
                                effect: TriggeredEffect::MonarchEndStep,
                            },
                            monarch_id,
                            Vec::new(),
                        );
                    }
                }
                let ghost before = self.stack.items@;
                self.check_delayed_triggers();
                proof {
                    assert(self.stack.items@.subrange(0, old(self).stack.items@.len() as int)
                        =~= old(self).stack.items@);
                }
                self.give_priority_to_active();
            },
            (Phase::Ending, Some(Step::End)) => {
                self.step = Some(Step::Cleanup);
                proof {
                    assert(self.battlefield@ == old(self).battlefield@);
                }
                self.cleanup_step();
            },
            _ => {
                self.next_turn();
            },
        }
        let ghost before_reset = *self;
        self.reset_priority_passes();
        proof {
            assert(self.stack.items@.subrange(0, old(self).stack.items@.len() as int) =~= old(self).stack.items@);
        }
    }
}

} // verus!

verus! {

impl GameState {
    /// Mutable access to the permanent with id `id` (the first one), if any.
    pub fn find_permanent_mut(&mut self, id: ObjectId) -> (r: Option<&mut Permanent>)
        ensures
            perm_pos(old(self).battlefield@, id) == -1 ==> r is None && *final(self) == *old(self),
            perm_pos(old(self).battlefield@, id) != -1 ==> (r matches Some(p) && *p == old(
                self,
            ).battlefield@[perm_pos(old(self).battlefield@, id)] && final(self).battlefield@
                == old(self).battlefield@.update(perm_pos(old(self).battlefield@, id), *final(p))
                && *final(self) == (GameState { battlefield: final(self).battlefield, ..*old(self) })),
    {
        match self.perm_index(id) {
            Some(i) => Some(&mut self.battlefield[i]),
            None => None,
        }
    }
}

} // verus!

verus! {

/// Count of permanents in `bf` controlled by `player` that satisfy `f`.
pub open spec fn count_where(bf: Seq<Permanent>, f: spec_fn(Permanent) -> bool) -> nat {
    bf.filter(f).len()
}

impl GameState {
    /// The permanents controlled by `player` that also satisfy `kind`, in battlefield order.
    fn collect_controlled(&self, player: PlayerId, kind: u8) -> (r: Vec<&Permanent>)
        ensures
            same_perms(r@, self.battlefield@.filter(|p: Permanent| p.controller == player && kind_ok(p, kind))),
    {
        let ghost f = |p: Permanent| p.controller == player && kind_ok(p, kind);
        let mut r: Vec<&Permanent> = Vec::new();
        let mut i: usize = 0;
        while i < self.battlefield.len()
            invariant
                i <= self.battlefield@.len(),
                same_perms(r@, self.battlefield@.subrange(0, i as int).filter(f)),
                f == (|p: Permanent| p.controller == player && kind_ok(p, kind)),
            decreases self.battlefield@.len() - i,
        {
            let p = &self.battlefield[i];
            proof {
                assert(self.battlefield@.subrange(0, i as int + 1) =~= self.battlefield@.subrange(0, i as int).push(*p));
                self.battlefield@.subrange(0, i as int).lemma_filter_push(*p, f);
            }
            let ok = match kind {
                0 => true,
                1 => p.is_creature(),
                2 => p.is_land(),
                _ => p.is_artifact(),
            };
            if p.controller == player && ok {
                r.push(p);
            }
            i = i + 1;
        }
        proof {
            assert(self.battlefield@.subrange(0, i as int) =~= self.battlefield@);
        }
        r
    }

    /// The permanents controlled by `player`, in battlefield order.
    pub fn permanents_controlled_by(&self, player: PlayerId) -> (r: Vec<&Permanent>)
        ensures
            same_perms(r@, self.battlefield@.filter(|p: Permanent| p.controller == player)),
    {
        let r = self.collect_controlled(player, 0);
        proof {
            assert((|p: Permanent| p.controller == player && kind_ok(p, 0)) =~= (|p: Permanent|
                p.controller == player));
        }
        r
    }

    /// The creatures controlled by `player`, in battlefield order.
    pub fn creatures_controlled_by(&self, player: PlayerId) -> (r: Vec<&Permanent>)
        ensures
            same_perms(r@, self.battlefield@.filter(
                |p: Permanent| p.controller == player && p.has_card_type(CardType::Creature),
            )),
    {
        let r = self.collect_controlled(player, 1);
        proof {
            assert((|p: Permanent| p.controller == player && kind_ok(p, 1)) =~= (|p: Permanent|
                p.controller == player && p.has_card_type(CardType::Creature)));
        }
        r
    }

    /// The lands controlled by `player`, in battlefield order.
    pub fn lands_controlled_by(&self, player: PlayerId) -> (r: Vec<&Permanent>)
        ensures
            same_perms(r@, self.battlefield@.filter(
                |p: Permanent| p.controller == player && p.has_card_type(CardType::Land),
            )),
    {
        let r = self.collect_controlled(player, 2);
        proof {
            assert((|p: Permanent| p.controller == player && kind_ok(p, 2)) =~= (|p: Permanent|
                p.controller == player && p.has_card_type(CardType::Land)));
        }
        r
    }

    /// The artifacts controlled by `player`, in battlefield order.
    pub fn artifacts_controlled_by(&self, player: PlayerId) -> (r: Vec<&Permanent>)
        ensures
            same_perms(r@, self.battlefield@.filter(
                |p: Permanent| p.controller == player && p.has_card_type(CardType::Artifact),
            )),
    {
        let r = self.collect_controlled(player, 3);
        proof {
            assert((|p: Permanent| p.controller == player && kind_ok(p, 3)) =~= (|p: Permanent|
                p.controller == player && p.has_card_type(CardType::Artifact)));
        }
        r
    }

    /// Metalcraft: the player controls three or more artifacts.
    pub fn metalcraft(&self, player: PlayerId) -> (r: bool)
        ensures
            r == (self.battlefield@.filter(
                |p: Permanent| p.controller == player && p.has_card_type(CardType::Artifact),
            ).len() >= 3),
    {
        self.artifacts_controlled_by(player).len() >= 3
    }
}

/// `refs` points, in order, at exactly the permanents of `perms`.
pub open spec fn same_perms(refs: Seq<&Permanent>, perms: Seq<Permanent>) -> bool {
    &&& refs.len() == perms.len()
    &&& forall|i: int| 0 <= i < refs.len() ==> *#[trigger] refs[i] == perms[i]
}

/// Kind selector for `collect_controlled`: 0 any, 1 creature, 2 land, otherwise artifact.
pub open spec fn kind_ok(p: Permanent, kind: u8) -> bool {
    match kind {
        0 => true,
        1 => p.has_card_type(CardType::Creature),
        2 => p.has_card_type(CardType::Land),
        _ => p.has_card_type(CardType::Artifact),
    }
}

} // verus!

verus! {

/// Players' life totals and per-turn counts agree.
pub open spec fn same_player_stats(a: Seq<Player>, b: Seq<Player>) -> bool {
    &&& a.len() == b.len()
    &&& forall|i: int|
        0 <= i < a.len() ==> {
            &&& (#[trigger] a[i]).life == b[i].life
            &&& a[i].extra_turns == b[i].extra_turns
            &&& a[i].draws_this_turn == b[i].draws_this_turn
            &&& a[i].cards_discarded_this_turn == b[i].cards_discarded_this_turn
            &&& a[i].spells_cast_this_turn == b[i].spells_cast_this_turn
        }
}

/// Removing one permanent (at `pos`, the last one moving into its place) while the others
/// shift their P/T modifications by at most one and at most one new object id is used
/// keeps the state within the same bounds.
pub proof fn lemma_within_after_removal(g0: GameState, g1: GameState, k: int, pos: int)
    requires
        g0.within(k),
        0 <= pos < g0.battlefield@.len(),
        g1.battlefield@.len() == g0.battlefield@.len() - 1,
        forall|i: int|
            0 <= i < g1.battlefield@.len() ==> {
                let j = if i == pos { g0.battlefield@.len() - 1 } else { i };
                &&& (#[trigger] g1.battlefield@[i]).close_to(g0.battlefield@[j])
                &&& g1.battlefield@[i].owner == g0.battlefield@[j].owner
                &&& g1.battlefield@[i].controller == g0.battlefield@[j].controller
            },
        g1.next_object_id <= g0.next_object_id + 1,
        g1.turn_number == g0.turn_number,
        g1.storm_count == g0.storm_count,
        same_player_stats(g1.players@, g0.players@),
    ensures
        g1.within(k),
{
    let n0 = g0.battlefield@.len() as int;
    assert forall|i: int| 0 <= i < g1.battlefield@.len() implies #[trigger] g1.battlefield@[i].stats_within(
        k,
        g1.battlefield@.len() as int,
    ) by {
        let j = if i == pos { n0 - 1 } else { i };
        assert(g0.battlefield@[j].stats_within(k, n0));
        assert(g1.battlefield@[i].close_to(g0.battlefield@[j]));
    }
    assert forall|i: int| 0 <= i < g1.players@.len() implies #[trigger] g1.players@[i].stats_within(k) by {
        assert(g0.players@[i].stats_within(k));
    }
    assert forall|i: int| 0 <= i < g1.battlefield@.len() implies (#[trigger] g1.battlefield@[i]).owner < 2
        && g1.battlefield@[i].controller < 2 by {
        let j = if i == pos { n0 - 1 } else { i };
        assert(g0.battlefield@[j].owner < 2);
    }
}

} // verus!

verus! {

/// Advancing from the upkeep to the draw step: on every turn but the first turn of the
/// starting player (player 0), whichever player is active moves the top card of their
/// non-empty library (its last card) to the end of their hand; on that first turn the
/// hand and library stay as they were.
pub proof fn law_draw_step_draws_the_top_card(g0: GameState, g1: GameState)
    requires
        g0.wf(),
        g0.phase == Phase::Beginning,
        g0.step == Some(Step::Upkeep),
        phase_advanced(g0, g1),
    ensures
        (g0.turn_number > 1 || g0.active_player != 0) && g0.players@[g0.active_player as int].library@.len() > 0 ==> {
            let a = g0.active_player as int;
            &&& g1.players@[a].hand@ == g0.players@[a].hand@.push(g0.players@[a].library@.last())
            &&& g1.players@[a].library@ == g0.players@[a].library@.drop_last()
        },
        g0.turn_number <= 1 && g0.active_player == 0 ==> {
            &&& g1.players@[0].hand@ == g0.players@[0].hand@
            &&& g1.players@[0].library@ == g0.players@[0].library@
        },
{
    let a = g0.active_player as int;
    let lib = g0.players@[a].library@;
    assert(draw_step_drew(g0, g1));
    if (g0.turn_number > 1 || g0.active_player != 0) && lib.len() > 0 {
        assert(top_cards(lib, 1) =~= seq![lib.last()]);
        assert(lib.subrange(0, lib.len() - 1) =~= lib.drop_last());
    }
    if g0.turn_number <= 1 && g0.active_player == 0 {
        assert(top_cards(lib, 0) =~= Seq::<ObjectId>::empty());
        assert(lib.subrange(0, lib.len() as int) =~= lib);
        assert(g0.players@[0].hand@ + Seq::<ObjectId>::empty() =~= g0.players@[0].hand@);
    }
}

} // verus!
