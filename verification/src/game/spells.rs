//! What instants and sorceries do when they resolve.
use vstd::prelude::*;
use crate::card::{CardDef, CardName, find_card, lookup, has_type, types_contain, colors_contain};
use crate::game::{ChoiceKind, ChoiceReason, DestinationZone, GameState, PendingChoice, registered_name, perm_with, perm_pos, lemma_perm_pos};
use crate::game::zones::{removed_to_zone, actual_destination};
use crate::permanent::Permanent;
use crate::game::effects::player_replaced;
use crate::game::resolution::{search_restricted, counter_taken, countered};
use crate::stack::{item_pos, lemma_item_pos_from};
use crate::stack::{StackItem, StackItemKind};
use crate::player::{Player, copy_ids, first_index, position_of};
use crate::types::{CardType, Color, ObjectId, PlayerId, Target};

verus! {

/// The first target, if any.
pub open spec fn first_target(targets: Seq<Target>) -> Option<Target> {
    if targets.len() > 0 { Some(targets[0]) } else { None }
}

/// `g1` is `g0` waiting for `player` to choose among exactly `options` for `reason`.
pub open spec fn choice_set(g0: GameState, g1: GameState, player: PlayerId, options: Seq<ObjectId>, reason: ChoiceReason) -> bool {
    &&& g1.pending_choice is Some
    &&& g1.pending_choice->0.player == player
    &&& (g1.pending_choice->0.kind matches ChoiceKind::ChooseFromList { options: o, reason: r } && o@ == options && r == reason)
    &&& g1 == (GameState { pending_choice: g1.pending_choice, ..g0 })
}

/// A library search by `player` among `options`: nothing happens when searching is
/// restricted or there is nothing to find.
pub open spec fn searched(g0: GameState, g1: GameState, player: PlayerId, options: Seq<ObjectId>, reason: ChoiceReason) -> bool {
    if search_restricted(g0.battlefield@, player) || options.len() == 0 {
        g1 == g0
    } else {
        choice_set(g0, g1, player, options, reason)
    }
}

/// Whether card `id` is a green creature card with mana value at most `x`.
pub open spec fn green_creature_upto(reg: Seq<(ObjectId, CardName)>, db: Seq<CardDef>, id: ObjectId, x: u8) -> bool {
    match registered_name(reg, id) {
        Some(cn) => match lookup(db, cn) {
            Some(d) => has_type(d.card_types@, CardType::Creature) && d.color_identity@.contains(Color::Green)
                && d.mana_cost.value() <= x,
            None => false,
        },
        None => false,
    }
}

/// `g1` is `g0` after card `id` went from `player`'s graveyard (its first copy) to their
/// hand; nothing happens when it is not there.
pub open spec fn regrown(g0: GameState, g1: GameState, player: PlayerId, id: ObjectId) -> bool {
    let p0 = g0.players@[player as int];
    let i = first_index(p0.graveyard@, id);
    &&& i < 0 ==> g1 == g0
    &&& i >= 0 ==> {
        let p1 = g1.players@[player as int];
        &&& p1.graveyard@ == p0.graveyard@.remove(i)
        &&& p1.hand@ == p0.hand@.push(id)
        &&& player_replaced(g0, g1, player as int, Player { graveyard: p1.graveyard, hand: p1.hand, ..p0 })
    }
}

/// Whether `kind` (Duress, Inquisition of Kozilek or Thoughtseize) lets its caster take
/// card `id`: Duress a noncreature nonland card, Thoughtseize a nonland card, Inquisition
/// a nonland card with mana value at most 3; a card without a known definition always.
pub open spec fn discard_ok(kind: CardName, reg: Seq<(ObjectId, CardName)>, db: Seq<CardDef>, id: ObjectId) -> bool {
    match registered_name(reg, id) {
        Some(cn) => match lookup(db, cn) {
            Some(d) => {
                let land = has_type(d.card_types@, CardType::Land);
                let creature = has_type(d.card_types@, CardType::Creature);
                match kind {
                    CardName::Duress => !land && !creature,
                    CardName::Thoughtseize | CardName::Unmask => !land,
                    CardName::InquisitionOfKozilek => !land && d.mana_cost.value() <= 3,
                    _ => true,
                }
            },
            None => true,
        },
        None => true,
    }
}

/// `g1` is `g0` after `kind` made `target`'s hand known to `controller`, who chooses a card
/// it allows (nothing happens when there is none).
pub open spec fn hand_choice(g0: GameState, g1: GameState, kind: CardName, controller: PlayerId, target: PlayerId, db: Seq<CardDef>) -> bool {
    let options = g0.players@[target as int].hand@.filter(|id: ObjectId| discard_ok(kind, g0.card_registry@, db, id));
    if options.len() == 0 {
        g1 == g0
    } else {
        choice_set(g0, g1, controller, options, ChoiceReason::ThoughtseizeDiscard)
    }
}

/// `g1` is `g0` with the last card of `player`'s hand taken out.
pub open spec fn hand_popped(g0: GameState, g1: GameState, player: PlayerId) -> bool {
    let p0 = g0.players@[player as int];
    &&& g1.players@[player as int].hand@ == p0.hand@.drop_last()
    &&& player_replaced(g0, g1, player as int, Player { hand: g1.players@[player as int].hand, ..p0 })
}

/// Hymn to Tourach: the last two cards of `target`'s hand (the last first) are discarded.
pub open spec fn hymned(g0: GameState, g1: GameState, target: PlayerId, db: Seq<CardDef>) -> bool {
    let h = g0.players@[target as int].hand@;
    if h.len() == 0 {
        g1 == g0
    } else if h.len() == 1 {
        exists|ga: GameState| #[trigger] hand_popped(g0, ga, target) && crate::game::effects::discarded(ga, g1, h[0], target, db)
    } else {
        exists|ga: GameState, gb: GameState, gc: GameState|
            #[trigger] hand_popped(g0, ga, target) && #[trigger] hand_popped(ga, gb, target)
            && #[trigger] crate::game::effects::discarded(gb, gc, h[h.len() - 1], target, db)
            && crate::game::effects::discarded(gc, g1, h[h.len() - 2], target, db)
    }
}

/// Brainstorm's second half: with two or more cards in hand, the last two go on top of
/// the library (the last one on top).
pub open spec fn put_back_two(g0: GameState, g1: GameState, player: PlayerId) -> bool {
    let p0 = g0.players@[player as int];
    let h = p0.hand@;
    if h.len() >= 2 {
        let p1 = g1.players@[player as int];
        &&& p1.hand@ == h.drop_last().drop_last()
        &&& p1.library@ == p0.library@.push(h[h.len() - 2]).push(h[h.len() - 1])
        &&& player_replaced(g0, g1, player as int, Player { hand: p1.hand, library: p1.library, ..p0 })
    } else {
        g1 == g0
    }
}

/// `g1` is `g0` after the countered item `r` (if a spell) went to its controller's hand
/// (`to_hand`) or on top of their library.
pub open spec fn spell_card_returned(g0: GameState, g1: GameState, r: Option<StackItem>, to_hand: bool) -> bool {
    match r {
        Some(item) => match item.kind {
            StackItemKind::Spell { card_id, .. } => {
                let c = item.controller as int;
                let p0 = g0.players@[c];
                let p1 = g1.players@[c];
                if to_hand {
                    p1.hand@ == p0.hand@.push(card_id) && player_replaced(g0, g1, c, Player { hand: p1.hand, ..p0 })
                } else {
                    p1.library@ == p0.library@.push(card_id) && player_replaced(g0, g1, c, Player { library: p1.library, ..p0 })
                }
            },
            _ => g1 == g0,
        },
        None => g1 == g0,
    }
}

/// Counter the stack item `id` (if it may be countered) and put the spell's card into its
/// controller's hand (`to_hand`) or on top of their library.
pub open spec fn countered_to(g0: GameState, g1: GameState, id: ObjectId, to_hand: bool) -> bool {
    exists|gm: GameState, r: Option<StackItem>| #[trigger] counter_taken(g0, gm, id, r) && spell_card_returned(gm, g1, r, to_hand)
}

/// The mana value Mana Drain gives for the stack item at `i`: the mana value of the spell's
/// card definition, 0 for anything else.
pub open spec fn drain_value(s: Seq<StackItem>, i: int, db: Seq<CardDef>) -> int {
    if i < 0 || i >= s.len() {
        0
    } else {
        match s[i].kind {
            StackItemKind::Spell { card_name, .. } => match lookup(db, card_name) {
                Some(d) => d.mana_cost.value(),
                None => 0,
            },
            _ => 0,
        }
    }
}

/// `g1` is `g0` with `n` more mana of one kind in `player`'s pool.
pub open spec fn mana_added(g0: GameState, g1: GameState, player: PlayerId, color: Option<Color>, n: int) -> bool {
    let p0 = g0.players@[player as int];
    player_replaced(g0, g1, player as int, Player {
        mana_pool: p0.mana_pool.with_amount(color, (p0.mana_pool.amount(color) + n) as u8),
        ..p0
    })
}

/// Mana Drain on the stack item `id`: unless it can't be countered, counter it and add
/// colorless mana equal to its mana value.
pub open spec fn drained(g0: GameState, g1: GameState, id: ObjectId, controller: PlayerId, db: Seq<CardDef>) -> bool {
    let s = g0.stack.items@;
    let i = item_pos(s, id);
    if i >= 0 && s[i].cant_be_countered {
        g1 == g0
    } else {
        exists|gm: GameState| #[trigger] countered(g0, gm, id) && mana_added(gm, g1, controller, None, drain_value(s, i, db))
    }
}


/// `g1` is `g0` after permanent `id` was destroyed.
pub open spec fn destroyed(g0: GameState, g1: GameState, id: ObjectId) -> bool {
    exists|r: Option<Permanent>| #[trigger] removed_to_zone(g0, g1, id, actual_destination(DestinationZone::Graveyard, g0.battlefield@), r)
}

/// `states` runs through the destruction of each of `ids` in order.
pub open spec fn destroyed_chain(states: Seq<GameState>, ids: Seq<ObjectId>) -> bool {
    &&& states.len() == ids.len() + 1
    &&& forall|i: int| 0 <= i < ids.len() ==> destroyed(#[trigger] states[i], states[i + 1], ids[i])
}

/// `g1` is `g0` after destroying each of `ids` in order.
pub open spec fn destroyed_each(g0: GameState, g1: GameState, ids: Seq<ObjectId>) -> bool {
    exists|states: Seq<GameState>| #[trigger] destroyed_chain(states, ids) && states[0] == g0 && states.last() == g1
}

/// The ids of the lands on `bf`, in battlefield order.
pub open spec fn land_ids(bf: Seq<Permanent>) -> Seq<ObjectId> {
    bf.filter(|p: Permanent| p.has_card_type(CardType::Land)).map_values(|p: Permanent| p.id)
}

/// Swords to Plowshares on permanent `id`: it is exiled and its controller gains life equal
/// to its power.
pub open spec fn plowed(g0: GameState, g1: GameState, id: ObjectId) -> bool {
    let power = match perm_with(g0.battlefield@, id) {
        Some(p) => p.power_value(),
        None => 0,
    };
    exists|gm: GameState, r: Option<Permanent>| #[trigger] removed_to_zone(g0, gm, id, DestinationZone::Exile, r) && match r {
        Some(q) => player_replaced(gm, g1, q.controller as int, Player {
            life: (gm.players@[q.controller as int].life + power) as i32,
            ..gm.players@[q.controller as int]
        }),
        None => g1 == gm,
    }
}

/// Whether a Fragmentize or Fatal Push may destroy permanent `id`: its card has a known
/// definition with mana value at most 4.
pub open spec fn small_enough(bf: Seq<Permanent>, db: Seq<CardDef>, id: ObjectId) -> bool {
    match perm_with(bf, id) {
        Some(p) => match lookup(db, p.card_name) {
            Some(d) => d.mana_cost.value() <= 4,
            None => false,
        },
        None => false,
    }
}

/// The destroy-target-permanent spells: the target is destroyed (Fragmentize and Fatal Push
/// only when small enough), and Nature's Claim gives the target's controller 4 life.
pub open spec fn disenchanted(g0: GameState, g1: GameState, kind: CardName, id: ObjectId, db: Seq<CardDef>) -> bool {
    let tc = if kind == CardName::NaturesClaim {
        match perm_with(g0.battlefield@, id) {
            Some(p) => Some(p.controller),
            None => None,
        }
    } else {
        None::<PlayerId>
    };
    exists|gm: GameState| #[trigger] destroyed_or_not(g0, gm, id, disenchant_goes(kind, g0.battlefield@, db, id)) && match tc {
        Some(c) => player_replaced(gm, g1, c as int, Player { life: (gm.players@[c as int].life + 4) as i32, ..gm.players@[c as int] }),
        None => g1 == gm,
    }
}

/// Whether a destroy-target spell of this kind destroys permanent `id`.
pub open spec fn disenchant_goes(kind: CardName, bf: Seq<Permanent>, db: Seq<CardDef>, id: ObjectId) -> bool {
    if kind == CardName::Fragmentize || kind == CardName::FatalPush { small_enough(bf, db, id) } else { true }
}

/// `g1` is `g0` after destroying `id` when `goes`, unchanged otherwise.
pub open spec fn destroyed_or_not(g0: GameState, g1: GameState, id: ObjectId, goes: bool) -> bool {
    if goes { destroyed(g0, g1, id) } else { g1 == g0 }
}

/// Pyroblast and Red Elemental Blast on `id`: a stack item with that id leaves the stack,
/// otherwise the permanent is destroyed.
pub open spec fn blasted(g0: GameState, g1: GameState, id: ObjectId) -> bool {
    let s = g0.stack.items@;
    let i = item_pos(s, id);
    if i >= 0 {
        g1.stack.items@ == s.remove(i) && g1.stack.next_id == g0.stack.next_id && g1 == (GameState { stack: g1.stack, ..g0 })
    } else {
        destroyed(g0, g1, id)
    }
}

/// `g1` is `g0` with `n` copies of a spell (`kind`, `controller`, `targets`) pushed.
pub open spec fn storm_copies(g0: GameState, g1: GameState, kind: StackItemKind, controller: PlayerId, targets: Seq<Target>, n: int) -> bool {
    let s0 = g0.stack.items@;
    let s1 = g1.stack.items@;
    &&& g1 == (GameState { stack: g1.stack, ..g0 })
    &&& s1.len() == s0.len() + n
    &&& forall|i: int| 0 <= i < s0.len() ==> #[trigger] s1[i] == s0[i]
    &&& forall|j: int| 0 <= j < n ==> {
        let it = #[trigger] s1[s0.len() + j];
        &&& it.kind == kind
        &&& it.controller == controller
        &&& it.targets@ == targets
        &&& it.is_copy
    }
}

/// Tendrils of Agony: a targeted player loses 2 life and the caster gains 2; the cast
/// spell (not a copy) is copied once per spell cast before it this turn (storm).
pub open spec fn tendrilled(g0: GameState, g1: GameState, controller: PlayerId, targets: Seq<Target>, is_copy: bool) -> bool {
    exists|gm: GameState| #[trigger] tendrils_life(g0, gm, controller, targets) && if is_copy {
        g1 == gm
    } else {
        storm_copies(gm, g1, StackItemKind::Spell { card_name: CardName::TendrilsOfAgony, card_id: 0, cast_via_evoke: false },
            controller, targets, gm.storm_count as int)
    }
}

/// `g1` is `g0` with `player`'s life changed by `delta`.
pub open spec fn life_changed(g0: GameState, g1: GameState, player: PlayerId, delta: int) -> bool {
    player_replaced(g0, g1, player as int, Player { life: (g0.players@[player as int].life + delta) as i32, ..g0.players@[player as int] })
}

/// The life part of Tendrils of Agony.
pub open spec fn tendrils_life(g0: GameState, g1: GameState, controller: PlayerId, targets: Seq<Target>) -> bool {
    match first_target(targets) {
        Some(Target::Player(p)) => exists|ga: GameState|
            #[trigger] life_changed(g0, ga, p, -2) && life_changed(ga, g1, controller, 2),
        _ => g1 == g0,
    }
}

/// Discarding a few cards uses up one step of room (stated over the result's players).
pub proof fn lemma_hymn_step(g0: GameState, g1: GameState)
    requires
        g1.battlefield@ == g0.battlefield@,
        g1.next_object_id == g0.next_object_id,
        g1.turn_number == g0.turn_number,
        g1.storm_count == g0.storm_count,
        g1.players@.len() == g0.players@.len(),
        forall|i: int| 0 <= i < g1.players@.len() ==> crate::game::bounds::player_step(#[trigger] g1.players@[i], g0.players@[i]),
    ensures
        forall|k: int| 1 <= k && #[trigger] g0.within(k) ==> g1.within(k - 1),
{
    assert forall|k: int| 1 <= k && #[trigger] g0.within(k) implies g1.within(k - 1) by {
        crate::game::bounds::lemma_same_battlefield_step(g0, g1);
        crate::game::bounds::lemma_one_step(g0, g1, k);
    }
}

impl GameState {
    /// Search `player`'s library for any card: the player chooses one for `reason`.
    pub fn tutor(&mut self, player: PlayerId, reason: ChoiceReason)
        requires
            player < old(self).players@.len(),
        ensures
            searched(*old(self), *final(self), player, old(self).players@[player as int].library@, reason),
            crate::game::bounds::stats_frame(*old(self), *final(self)),
    {
        if !self.library_search_restricted(player) {
            let options = copy_ids(&self.players[player as usize].library);
            if options.len() > 0 {
                self.pending_choice = Some(PendingChoice {
                    player,
                    kind: ChoiceKind::ChooseFromList { options, reason },
                });
            }
        }
    }

    /// Green Sun's Zenith: search for a green creature card with mana value at most `x`.
    pub fn green_suns_zenith(&mut self, player: PlayerId, x_value: u8, db: &[CardDef])
        requires
            player < old(self).players@.len(),
            crate::game::db_ok(db@),
        ensures
            searched(*old(self), *final(self), player,
                old(self).players@[player as int].library@.filter(|id: ObjectId| green_creature_upto(old(self).card_registry@, db@, id, x_value)),
                ChoiceReason::GenericSearch),
            crate::game::bounds::stats_frame(*old(self), *final(self)),
    {
        if self.library_search_restricted(player) {
            return;
        }
        let ghost f = |id: ObjectId| green_creature_upto(self.card_registry@, db@, id, x_value);
        let pid = player as usize;
        let mut searchable: Vec<ObjectId> = Vec::new();
        let mut i: usize = 0;
        while i < self.players[pid].library.len()
            invariant
                pid < self.players@.len(),
                i <= self.players@[pid as int].library@.len(),
                crate::game::db_ok(db@),
                f == (|id: ObjectId| green_creature_upto(self.card_registry@, db@, id, x_value)),
                searchable@ == self.players@[pid as int].library@.subrange(0, i as int).filter(f),
            decreases self.players@[pid as int].library@.len() - i,
        {
            let id = self.players[pid].library[i];
            proof {
                let lib = self.players@[pid as int].library@;
                assert(lib.subrange(0, i as int + 1) =~= lib.subrange(0, i as int).push(id));
                lib.subrange(0, i as int).lemma_filter_push(id, f);
            }
            let ok = match self.card_name_for_id(id) {
                Some(cn) => match find_card(db, cn) {
                    Some(def) => {
                        proof { crate::card::lemma_def_pos_from(db@, cn, 0); }
                        types_contain(&def.card_types, CardType::Creature) && colors_contain(&def.color_identity, Color::Green)
                            && def.mana_cost.cmc() <= x_value
                    },
                    None => false,
                },
                None => false,
            };
            if ok {
                searchable.push(id);
            }
            i = i + 1;
        }
        proof {
            assert(self.players@[pid as int].library@.subrange(0, i as int) =~= self.players@[pid as int].library@);
        }
        if searchable.len() > 0 {
            self.pending_choice = Some(PendingChoice {
                player,
                kind: ChoiceKind::ChooseFromList { options: searchable, reason: ChoiceReason::GenericSearch },
            });
        }
    }

    /// Regrowth: return card `target_id` from `player`'s graveyard to their hand.
    pub fn regrow(&mut self, player: PlayerId, target_id: ObjectId)
        requires
            player < old(self).players@.len(),
        ensures
            regrown(*old(self), *final(self), player, target_id),
            crate::game::bounds::stats_frame(*old(self), *final(self)),
    {
        let pid = player as usize;
        proof { crate::player::lemma_first_index(self.players@[pid as int].graveyard@, target_id); }
        if let Some(pos) = position_of(&self.players[pid].graveyard, target_id) {
            let card = self.players[pid].graveyard.remove(pos);
            self.players[pid].hand.push(card);
            proof {
                let p0 = old(self).players@[pid as int];
                let p1 = self.players@[pid as int];
                assert(self.players@ =~= old(self).players@.update(pid as int, Player { graveyard: p1.graveyard, hand: p1.hand, ..p0 }));
            }
        }
    }

    /// Duress, Inquisition of Kozilek, Thoughtseize: `controller` looks at `target`'s hand
    /// and chooses a card the spell allows.
    pub fn choose_from_hand(&mut self, kind: CardName, controller: PlayerId, target: PlayerId, db: &[CardDef])
        requires
            target < old(self).players@.len(),
            crate::game::db_ok(db@),
        ensures
            hand_choice(*old(self), *final(self), kind, controller, target, db@),
            crate::game::bounds::stats_frame(*old(self), *final(self)),
    {
        let ghost f = |id: ObjectId| discard_ok(kind, self.card_registry@, db@, id);
        let pid = target as usize;
        let mut options: Vec<ObjectId> = Vec::new();
        let mut i: usize = 0;
        while i < self.players[pid].hand.len()
            invariant
                pid < self.players@.len(),
                i <= self.players@[pid as int].hand@.len(),
                crate::game::db_ok(db@),
                f == (|id: ObjectId| discard_ok(kind, self.card_registry@, db@, id)),
                options@ == self.players@[pid as int].hand@.subrange(0, i as int).filter(f),
            decreases self.players@[pid as int].hand@.len() - i,
        {
            let id = self.players[pid].hand[i];
            proof {
                let h = self.players@[pid as int].hand@;
                assert(h.subrange(0, i as int + 1) =~= h.subrange(0, i as int).push(id));
                h.subrange(0, i as int).lemma_filter_push(id, f);
            }
            let ok = match self.card_name_for_id(id) {
                Some(cn) => match find_card(db, cn) {
                    Some(def) => {
                        proof { crate::card::lemma_def_pos_from(db@, cn, 0); }
                        let is_land = types_contain(&def.card_types, CardType::Land);
                        let is_creature = types_contain(&def.card_types, CardType::Creature);
                        match kind {
                            CardName::Duress => !is_land && !is_creature,
                            CardName::Thoughtseize | CardName::Unmask => !is_land,
                            CardName::InquisitionOfKozilek => !is_land && def.mana_cost.cmc() <= 3,
                            _ => true,
                        }
                    },
                    None => true,
                },
                None => true,
            };
            if ok {
                options.push(id);
            }
            i = i + 1;
        }
        proof {
            assert(self.players@[pid as int].hand@.subrange(0, i as int) =~= self.players@[pid as int].hand@);
        }
        if options.len() > 0 {
            self.pending_choice = Some(PendingChoice {
                player: controller,
                kind: ChoiceKind::ChooseFromList { options, reason: ChoiceReason::ThoughtseizeDiscard },
            });
        }
    }

    /// Hymn to Tourach: `target` discards the last two cards of their hand.
    pub fn hymn_to_tourach(&mut self, target: PlayerId, db: &[CardDef])
        requires
            target < old(self).players@.len(),
            old(self).players@[target as int].cards_discarded_this_turn + 2 <= u32::MAX,
        ensures
            hymned(*old(self), *final(self), target, db@),
            forall|k: int| 1 <= k && #[trigger] old(self).within(k) ==> final(self).within(k - 1),
            final(self).players@.len() == old(self).players@.len(),
            final(self).num_players == old(self).num_players,
            final(self).passed_priority == old(self).passed_priority,
            final(self).active_player == old(self).active_player,
            final(self).priority_player == old(self).priority_player,
    {
        let pid = target as usize;
        let ghost g0 = *self;
        let ghost h = self.players@[pid as int].hand@;
        let len = self.players[pid].hand.len();
        if len == 0 {
            proof {
                assert forall|i: int| 0 <= i < self.players@.len() implies crate::game::bounds::player_step(#[trigger] self.players@[i], g0.players@[i]) by {}
                lemma_hymn_step(g0, *self);
            }
            return;
        }
        let c1 = match self.players[pid].hand.pop() {
            Some(id) => id,
            None => return,
        };
        let ghost ga = *self;
        proof {
            assert(self.players@ =~= g0.players@.update(pid as int, Player { hand: self.players@[pid as int].hand, ..g0.players@[pid as int] }));
            assert(hand_popped(g0, ga, target));
        }
        if len == 1 {
            self.discard_card(c1, target, db);
            proof {
                assert(h[0] == c1);
                lemma_hymn_step(g0, *self);
            }
            return;
        }
        let c2 = match self.players[pid].hand.pop() {
            Some(id) => id,
            None => return,
        };
        let ghost gb = *self;
        proof {
            assert(self.players@ =~= ga.players@.update(pid as int, Player { hand: self.players@[pid as int].hand, ..ga.players@[pid as int] }));
            assert(hand_popped(ga, gb, target));
        }
        self.discard_card(c1, target, db);
        let ghost gc = *self;
        self.discard_card(c2, target, db);
        proof {
            assert(c1 == h[h.len() - 1]);
            assert(c2 == h[h.len() - 2]);
            assert(hand_popped(g0, ga, target) && hand_popped(ga, gb, target)
                && crate::game::effects::discarded(gb, gc, h[h.len() - 1], target, db@)
                && crate::game::effects::discarded(gc, *self, h[h.len() - 2], target, db@));
            lemma_hymn_step(g0, *self);
        }
    }

    /// Brainstorm's second half: put the last two cards of `player`'s hand on top of their
    /// library, the last one on top.
    pub fn put_back_two_cards(&mut self, player: PlayerId)
        requires
            player < old(self).players@.len(),
        ensures
            put_back_two(*old(self), *final(self), player),
            crate::game::bounds::stats_frame(*old(self), *final(self)),
    {
        let pid = player as usize;
        if self.players[pid].hand.len() >= 2 {
            let c1 = match self.players[pid].hand.pop() { Some(c) => c, None => return };
            let c2 = match self.players[pid].hand.pop() { Some(c) => c, None => return };
            self.players[pid].library.push(c2);
            self.players[pid].library.push(c1);
            proof {
                let p0 = old(self).players@[pid as int];
                let p1 = self.players@[pid as int];
                assert(p1.hand@ =~= p0.hand@.drop_last().drop_last());
                assert(self.players@ =~= old(self).players@.update(pid as int, Player { hand: p1.hand, library: p1.library, ..p0 }));
            }
        }
    }

    /// Memory Lapse (`to_hand` false) and Remand (`to_hand` true): counter the stack item
    /// unless it can't be countered; a spell's card goes on top of its controller's library
    /// or back to their hand.
    pub fn counter_to_owner(&mut self, spell_id: ObjectId, to_hand: bool)
        requires
            crate::game::effects::stack_items_ok(old(self).stack.items@, old(self).players@.len() as int),
        ensures
            countered_to(*old(self), *final(self), spell_id, to_hand),
            crate::game::bounds::stats_frame(*old(self), *final(self)),
    {
        let ghost g0 = *self;
        let r = self.take_counterable(spell_id);
        let ghost gm = *self;
        proof { lemma_item_pos_from(g0.stack.items@, spell_id, 0); }
        match r {
            Some(item) => {
                match item.kind {
                    StackItemKind::Spell { card_id, .. } => {
                        let c = item.controller as usize;
                        if to_hand {
                            self.players[c].hand.push(card_id);
                        } else {
                            self.players[c].library.push(card_id);
                        }
                        proof {
                            let p0 = gm.players@[c as int];
                            let p1 = self.players@[c as int];
                            if to_hand {
                                assert(self.players@ =~= gm.players@.update(c as int, Player { hand: p1.hand, ..p0 }));
                            } else {
                                assert(self.players@ =~= gm.players@.update(c as int, Player { library: p1.library, ..p0 }));
                            }
                        }
                    },
                    _ => {},
                }
            },
            None => {},
        }
        proof {
            assert(counter_taken(g0, gm, spell_id, r) && spell_card_returned(gm, *self, r, to_hand));
        }
    }

    /// Mana Drain: counter the stack item (unless it can't be countered) and add colorless
    /// mana equal to its mana value.
    #[verifier::rlimit(80)]
    #[verifier::spinoff_prover]
    pub fn mana_drain(&mut self, spell_id: ObjectId, controller: PlayerId, db: &[CardDef])
        requires
            old(self).wf(),
            controller < 2,
            crate::game::effects::stack_items_ok(old(self).stack.items@, 2),
            crate::game::db_ok(db@),
            old(self).players@[controller as int].mana_pool.colorless
                + drain_value(old(self).stack.items@, item_pos(old(self).stack.items@, spell_id), db@) <= u8::MAX,
        ensures
            drained(*old(self), *final(self), spell_id, controller, db@),
            crate::game::bounds::stats_frame(*old(self), *final(self)),
    {
        let ghost g0 = *self;
        proof { lemma_item_pos_from(self.stack.items@, spell_id, 0); }
        let pos = self.stack.position(spell_id);
        let mut mana_value: u8 = 0;
        let mut is_uncounterable = false;
        match pos {
            Some(i) => {
                is_uncounterable = self.stack.items[i].cant_be_countered;
                match self.stack.items[i].kind {
                    StackItemKind::Spell { card_name, .. } => {
                        match find_card(db, card_name) {
                            Some(d) => {
                                proof { crate::card::lemma_def_pos_from(db@, card_name, 0); }
                                mana_value = d.mana_cost.cmc();
                            },
                            None => {},
                        }
                    },
                    _ => {},
                }
            },
            None => {},
        }
        if !is_uncounterable {
            self.counter_and_route(spell_id);
            let ghost gm = *self;
            proof {
                assert(gm.players@[controller as int].mana_pool == g0.players@[controller as int].mana_pool) by {
                    let w = choose|gx: GameState, r: Option<StackItem>| #[trigger] counter_taken(g0, gx, spell_id, r) && match r {
                        Some(item) => crate::game::resolution::routed_zones(gx, gm, item),
                        None => gm == gx,
                    };
                }
            }
            self.players[controller as usize].mana_pool.add(None, mana_value);
            proof {
                let p0 = gm.players@[controller as int];
                assert(self.players@ =~= gm.players@.update(controller as int, Player {
                    mana_pool: p0.mana_pool.with_amount(None, (p0.mana_pool.amount(None) + mana_value) as u8),
                    ..p0
                }));
            }
        }
    }

    /// Destroy each of `ids` in order.
    pub fn destroy_each(&mut self, ids: &Vec<ObjectId>)
        requires
            old(self).wf(),
            old(self).within(0),
        ensures
            destroyed_each(*old(self), *final(self), ids@),
            final(self).wf(),
            forall|k: int| #![trigger final(self).within(k)] old(self).within(k) ==> final(self).within(k),
    {
        let ghost g0 = *self;
        let ghost mut states: Seq<GameState> = seq![*self];
        let mut j: usize = 0;
        while j < ids.len()
            invariant
                j <= ids@.len(),
                self.wf(),
                self.within(0),
                forall|k: int| #![trigger self.within(k)] g0.within(k) ==> self.within(k),
                destroyed_chain(states, ids@.subrange(0, j as int)),
                states[0] == g0,
                states.last() == *self,
            decreases ids@.len() - j,
        {
            let ghost before = *self;
            let r = self.destroy_permanent(ids[j]);
            proof {
                assert(destroyed(before, *self, ids@[j as int]));
                let old_states = states;
                states = states.push(*self);
                assert forall|i: int| 0 <= i < j + 1 implies destroyed(#[trigger] states[i], states[i + 1], ids@.subrange(0, j as int + 1)[i]) by {
                    if i < j {
                        assert(states[i] == old_states[i]);
                        assert(states[i + 1] == old_states[i + 1]);
                        assert(destroyed(old_states[i], old_states[i + 1], ids@.subrange(0, j as int)[i]));
                    }
                }
            }
            j = j + 1;
        }
        proof {
            assert(ids@.subrange(0, j as int) =~= ids@);
            assert(destroyed_chain(states, ids@));
        }
    }

    /// Armageddon: destroy every land.
    pub fn armageddon(&mut self)
        requires
            old(self).wf(),
            old(self).within(0),
        ensures
            destroyed_each(*old(self), *final(self), land_ids(old(self).battlefield@)),
            final(self).wf(),
            forall|k: int| #![trigger final(self).within(k)] old(self).within(k) ==> final(self).within(k),
    {
        let ghost f = |p: Permanent| p.has_card_type(CardType::Land);
        let ghost m = |p: Permanent| p.id;
        let mut lands: Vec<ObjectId> = Vec::new();
        let mut i: usize = 0;
        while i < self.battlefield.len()
            invariant
                i <= self.battlefield@.len(),
                f == (|p: Permanent| p.has_card_type(CardType::Land)),
                m == (|p: Permanent| p.id),
                lands@ == self.battlefield@.subrange(0, i as int).filter(f).map_values(m),
            decreases self.battlefield@.len() - i,
        {
            let p = &self.battlefield[i];
            proof {
                assert(self.battlefield@.subrange(0, i as int + 1) =~= self.battlefield@.subrange(0, i as int).push(*p));
                self.battlefield@.subrange(0, i as int).lemma_filter_push(*p, f);
            }
            if p.is_land() {
                lands.push(p.id);
                proof {
                    let s0 = self.battlefield@.subrange(0, i as int).filter(f);
                    assert(s0.push(*p).map_values(m) =~= s0.map_values(m).push(p.id));
                }
            }
            i = i + 1;
        }
        proof {
            assert(self.battlefield@.subrange(0, i as int) =~= self.battlefield@);
        }
        self.destroy_each(&lands);
    }

    /// Swords to Plowshares: exile permanent `id`; its controller gains life equal to its power.
    pub fn swords_to_plowshares(&mut self, id: ObjectId)
        requires
            old(self).wf(),
            old(self).within(1),
        ensures
            plowed(*old(self), *final(self), id),
            final(self).wf(),
            final(self).within(0),
            forall|k: int| 1 <= k && #[trigger] old(self).within(k) ==> final(self).within(k - 1),
    {
        let ghost g0 = *self;
        proof {
            lemma_perm_pos(self.battlefield@, id);
            crate::game::bounds::lemma_within_mono(*self, 1, 0);
        }
        let power: i16 = match self.find_permanent(id) {
            Some(p) => {
                proof { assert(self.battlefield@[perm_pos(self.battlefield@, id)].stats_within(1, self.battlefield@.len() as int)); }
                p.power()
            },
            None => 0,
        };
        let r = self.remove_permanent_to_zone(id, DestinationZone::Exile);
        let ghost gm = *self;
        match r {
            Some(perm) => {
                proof {
                    assert(gm.within(1));
                    assert(gm.players@[perm.controller as int].stats_within(1));
                }
                let c = perm.controller as usize;
                let life = self.players[c].life + power as i32;
                self.players[c].life = life;
                proof {
                    let q = Player { life: (gm.players@[c as int].life + power) as i32, ..gm.players@[c as int] };
                    assert(self.players@ =~= gm.players@.update(c as int, q));
                    assert(crate::game::bounds::player_step(q, gm.players@[c as int]));
                    crate::game::effects::lemma_player_step(gm, *self, c as int, q, 1);
                    assert(removed_to_zone(g0, gm, id, DestinationZone::Exile, r));
                    assert forall|k: int| 1 <= k && #[trigger] g0.within(k) implies self.within(k - 1) by {
                        assert(gm.within(k));
                        crate::game::effects::lemma_player_step(gm, *self, c as int, q, k);
                    }
                }
            },
            None => {
                proof {
                    crate::game::bounds::lemma_within_mono(gm, 1, 0);
                    assert(removed_to_zone(g0, gm, id, DestinationZone::Exile, r));
                    assert forall|k: int| 1 <= k && #[trigger] g0.within(k) implies self.within(k - 1) by {
                        crate::game::bounds::lemma_within_mono(*self, k, k - 1);
                    }
                }
            },
        }
    }

    /// Destroy permanent `id` as a spell does.
    pub fn destroy_target(&mut self, id: ObjectId)
        requires
            old(self).wf(),
            old(self).within(0),
        ensures
            destroyed(*old(self), *final(self), id),
            final(self).wf(),
            forall|k: int| #![trigger final(self).within(k)] old(self).within(k) ==> final(self).within(k),
    {
        let r = self.destroy_permanent(id);
        proof {
            assert(removed_to_zone(*old(self), *self, id, actual_destination(DestinationZone::Graveyard, old(self).battlefield@), r));
            if perm_pos(old(self).battlefield@, id) == -1 {
                assert(*self == *old(self));
            }
        }
    }

    /// Disenchant and the other destroy-target-permanent spells (see `disenchanted`).
    pub fn disenchant(&mut self, kind: CardName, id: ObjectId, db: &[CardDef])
        requires
            old(self).wf(),
            old(self).within(1),
            crate::game::db_ok(db@),
        ensures
            disenchanted(*old(self), *final(self), kind, id, db@),
            final(self).wf(),
            final(self).within(0),
            forall|k: int| 1 <= k && #[trigger] old(self).within(k) ==> final(self).within(k - 1),
    {
        let ghost g0 = *self;
        proof { lemma_perm_pos(self.battlefield@, id); }
        let target_controller: Option<PlayerId> = if kind == CardName::NaturesClaim {
            match self.find_permanent(id) {
                Some(p) => Some(p.controller),
                None => None,
            }
        } else {
            None
        };
        let goes = if kind == CardName::Fragmentize || kind == CardName::FatalPush {
            match self.find_permanent(id) {
                Some(p) => match find_card(db, p.card_name) {
                    Some(d) => {
                        proof { crate::card::lemma_def_pos_from(db@, p.card_name, 0); }
                        d.mana_cost.cmc() <= 4
                    },
                    None => false,
                },
                None => false,
            }
        } else {
            true
        };
        proof { crate::game::bounds::lemma_within_mono(g0, 1, 0); }
        if goes {
            self.destroy_target(id);
        }
        let ghost gm = *self;
        proof {
            assert(destroyed_or_not(g0, gm, id, goes));
            assert(gm.within(1));
        }
        match target_controller {
            Some(tc) => {
                proof {
                    assert(g0.battlefield@[perm_pos(g0.battlefield@, id)].controller < 2);
                    assert(gm.players@[tc as int].stats_within(1));
                }
                let life = self.players[tc as usize].life + 4;
                self.players[tc as usize].life = life;
                proof {
                    let q = Player { life: (gm.players@[tc as int].life + 4) as i32, ..gm.players@[tc as int] };
                    assert(self.players@ =~= gm.players@.update(tc as int, q));
                    crate::game::effects::lemma_player_step(gm, *self, tc as int, q, 1);
                    assert forall|k: int| 1 <= k && #[trigger] g0.within(k) implies self.within(k - 1) by {
                        assert(gm.within(k));
                        crate::game::effects::lemma_player_step(gm, *self, tc as int, q, k);
                    }
                }
            },
            None => {
                proof {
                    crate::game::bounds::lemma_within_mono(gm, 1, 0);
                    assert forall|k: int| 1 <= k && #[trigger] g0.within(k) implies self.within(k - 1) by {
                        assert(gm.within(k));
                        crate::game::bounds::lemma_within_mono(*self, k, k - 1);
                    }
                }
            },
        }
        proof {
            let tc = if kind == CardName::NaturesClaim {
                match perm_with(g0.battlefield@, id) {
                    Some(p) => Some(p.controller),
                    None => None,
                }
            } else {
                None::<PlayerId>
            };
            assert(tc == target_controller);
            let sp = disenchant_goes(kind, g0.battlefield@, db@, id);
            assert(goes == sp);
            assert(destroyed_or_not(g0, gm, id, sp));
            assert(match tc {
                Some(c) => player_replaced(gm, *self, c as int, Player { life: (gm.players@[c as int].life + 4) as i32, ..gm.players@[c as int] }),
                None => *self == gm,
            });
        }
    }

    /// Pyroblast and Red Elemental Blast: a stack item with the target's id leaves the
    /// stack, otherwise the permanent is destroyed.
    pub fn blast(&mut self, id: ObjectId)
        requires
            old(self).wf(),
            old(self).within(0),
        ensures
            blasted(*old(self), *final(self), id),
            final(self).wf(),
            forall|k: int| #![trigger final(self).within(k)] old(self).within(k) ==> final(self).within(k),
    {
        proof { lemma_item_pos_from(self.stack.items@, id, 0); }
        let ghost g0 = *self;
        if self.stack.position(id).is_none() {
            self.destroy_target(id);
        } else {
            self.stack.remove(id);
            proof {
                assert(item_pos(g0.stack.items@, id) >= 0);
                assert(*self == (GameState { stack: self.stack, ..g0 }));
            }
            proof {
                assert forall|k: int| #![trigger self.within(k)] old(self).within(k) implies self.within(k) by {
                    assert forall|i: int| 0 <= i < self.players@.len() implies #[trigger] self.players@[i].stats_within(k) by {
                        assert(old(self).players@[i].stats_within(k));
                    }
                }
            }
        }
    }

    /// Tendrils of Agony (see `tendrilled`).
    #[verifier::rlimit(80)]
    pub fn tendrils_of_agony(&mut self, controller: PlayerId, targets: &[Target], is_copy: bool)
        requires
            old(self).wf(),
            old(self).within(2),
            controller < 2,
            forall|i: int| 0 <= i < targets@.len() ==> (#[trigger] targets@[i] matches Target::Player(p) ==> p < 2),
        ensures
            tendrilled(*old(self), *final(self), controller, targets@, is_copy),
            final(self).wf(),
            final(self).within(0),
            forall|k: int| 2 <= k && #[trigger] old(self).within(k) ==> final(self).within(k - 2),
    {
        let ghost g0 = *self;
        if targets.len() > 0 {
            match targets[0] {
                Target::Player(p) => {
                    proof { assert(self.players@[p as int].stats_within(2)); }
                    let l = self.players[p as usize].life - 2;
                    self.players[p as usize].life = l;
                    let ghost ga = *self;
                    proof {
                        assert(self.players@ =~= g0.players@.update(p as int, Player { life: (g0.players@[p as int].life - 2) as i32, ..g0.players@[p as int] }));
                        assert(life_changed(g0, ga, p, -2));
                        crate::game::effects::lemma_player_step(g0, ga, p as int, Player { life: (g0.players@[p as int].life - 2) as i32, ..g0.players@[p as int] }, 2);
                        assert(ga.players@[controller as int].stats_within(1));
                    }
                    let l2 = self.players[controller as usize].life + 2;
                    self.players[controller as usize].life = l2;
                    proof {
                        assert(self.players@ =~= ga.players@.update(controller as int, Player { life: (ga.players@[controller as int].life + 2) as i32, ..ga.players@[controller as int] }));
                        assert(life_changed(ga, *self, controller, 2));
                        crate::game::effects::lemma_player_step(ga, *self, controller as int, Player { life: (ga.players@[controller as int].life + 2) as i32, ..ga.players@[controller as int] }, 1);
                        assert forall|k: int| 2 <= k && #[trigger] g0.within(k) implies self.within(k - 2) by {
                            crate::game::effects::lemma_player_step(g0, ga, p as int, Player { life: (g0.players@[p as int].life - 2) as i32, ..g0.players@[p as int] }, k);
                            crate::game::effects::lemma_player_step(ga, *self, controller as int, Player { life: (ga.players@[controller as int].life + 2) as i32, ..ga.players@[controller as int] }, k - 1);
                        }
                    }
                },
                _ => {
                    proof {
                        crate::game::bounds::lemma_within_mono(g0, 2, 0);
                        assert forall|k: int| 2 <= k && #[trigger] g0.within(k) implies self.within(k - 2) by {
                            crate::game::bounds::lemma_within_mono(g0, k, k - 2);
                        }
                    }
                },
            }
        } else {
            proof {
                crate::game::bounds::lemma_within_mono(g0, 2, 0);
                assert forall|k: int| 2 <= k && #[trigger] g0.within(k) implies self.within(k - 2) by {
                    crate::game::bounds::lemma_within_mono(g0, k, k - 2);
                }
            }
        }
        let ghost gm = *self;
        proof { assert(tendrils_life(g0, gm, controller, targets@)); }
        if !is_copy {
            let storm = self.storm_count;
            let template = StackItem {
                id: 0,
                kind: StackItemKind::Spell { card_name: CardName::TendrilsOfAgony, card_id: 0, cast_via_evoke: false },
                controller,
                targets: vstd::slice::slice_to_vec(targets),
                cant_be_countered: false,
                x_value: 0,
                cast_from_graveyard: false,
                cast_as_adventure: false,
                modes: Vec::new(),
                is_copy: false,
            };
            let mut n: u16 = 0;
            while n < storm
                invariant
                    n <= storm,
                    storm == gm.storm_count,
                    template.kind == (StackItemKind::Spell { card_name: CardName::TendrilsOfAgony, card_id: 0, cast_via_evoke: false }),
                    template.controller == controller,
                    template.targets@ == targets@,
                    storm_copies(gm, *self, template.kind, controller, targets@, n as int),
                decreases storm - n,
            {
                let ghost before = *self;
                self.stack.push_copy(&template);
                proof {
                    let s0 = gm.stack.items@;
                    assert forall|j: int| 0 <= j < n + 1 implies {
                        let it = #[trigger] self.stack.items@[s0.len() + j];
                        &&& it.kind == template.kind
                        &&& it.controller == controller
                        &&& it.targets@ == targets@
                        &&& it.is_copy
                    } by {
                        if j < n {
                            assert(self.stack.items@[s0.len() + j] == before.stack.items@[s0.len() + j]);
                        }
                    }
                    assert forall|i: int| 0 <= i < s0.len() implies #[trigger] self.stack.items@[i] == s0[i] by {
                        assert(self.stack.items@[i] == before.stack.items@[i]);
                    }
                }
                n = n + 1;
            }
            proof {
                assert forall|i: int| 0 <= i < self.players@.len() implies #[trigger] self.players@[i].stats_within(0) by {
                    assert(gm.players@[i].stats_within(0));
                }
                assert forall|k: int| 2 <= k && #[trigger] g0.within(k) implies self.within(k - 2) by {
                    assert(gm.within(k - 2));
                    crate::game::bounds::lemma_stats_kept(gm, *self, k - 2);
                }
            }
        }
    }
}

} // verus!

verus! {

/// Swords to Plowshares on a permanent of power `P`: the permanent leaves the battlefield
/// (a card goes to exile), and its controller's life total becomes the old one plus `P`;
/// the other player's life is unchanged.
pub proof fn law_plowshares_gives_its_controller_life_equal_to_power(g0: GameState, g1: GameState, id: ObjectId, p: Permanent)
    requires
        g0.wf(),
        g0.within(0),
        perm_with(g0.battlefield@, id) == Some(p),
        plowed(g0, g1, id),
    ensures
        g1.players@[p.controller as int].life == g0.players@[p.controller as int].life + p.power_value(),
        g1.players@[1 - p.controller].life == g0.players@[1 - p.controller].life,
        !p.is_token ==> g1.exile@ == g0.exile@.push((id, p.card_name, p.owner)),
        g1.battlefield@.len() == g0.battlefield@.len() - 1,
{
    let bf = g0.battlefield@;
    lemma_perm_pos(bf, id);
    let i = perm_pos(bf, id);
    assert(bf[i].stats_within(0, bf.len() as int));
    assert(p.controller < 2);
    let c = p.controller as int;
    assert(g0.players@[c].stats_within(0));
    let power = p.power_value();
    let (gm, r) = choose|gm: GameState, r: Option<Permanent>| #[trigger] removed_to_zone(g0, gm, id, DestinationZone::Exile, r) && match r {
        Some(q) => player_replaced(gm, g1, q.controller as int, Player {
            life: (gm.players@[q.controller as int].life + power) as i32,
            ..gm.players@[q.controller as int]
        }),
        None => g1 == gm,
    };
    let q = r->0;
    assert(q.controller == p.controller);
    assert(gm.players@[c].life == g0.players@[c].life);
    assert(gm.players@[1 - c].life == g0.players@[1 - c].life);
    assert(crate::game::zones::removal_destination(DestinationZone::Exile, bf, id) == DestinationZone::Exile);
}

} // verus!
