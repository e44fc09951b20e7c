//! Sacrifice-and-search spells, storm spells that mill or draw, and turn-long blessings.
use vstd::prelude::*;
use crate::card::{CardDef, CardName, colors_contain, find_card, has_type, lookup, types_contain};
use crate::game::{ChoiceKind, ChoiceReason, GameState, PendingChoice, registered_name};
use crate::game::counter_more::with_storm;
use crate::game::effects::{drew, player_replaced};
use crate::game::etb::milled;
use crate::game::resolution::destroyed_first;
use crate::game::spells::{first_target, searched};
use crate::permanent::Permanent;
use crate::player::Player;
use crate::types::{CardType, Color, ObjectId, PlayerId, Target};

verus! {

/// The cards a spell picks from: artifact cards (`kind` 0), green creature cards (1),
/// permanent cards (2) or creature cards (3).
pub open spec fn search_pick(kind: u8, reg: Seq<(ObjectId, CardName)>, db: Seq<CardDef>) -> spec_fn(ObjectId) -> bool {
    |id: ObjectId| match registered_name(reg, id) {
        Some(cn) => match lookup(db, cn) {
            Some(d) => if kind == 0 {
                has_type(d.card_types@, CardType::Artifact)
            } else if kind == 1 {
                has_type(d.card_types@, CardType::Creature) && d.color_identity@.contains(Color::Green)
            } else if kind == 2 {
                has_type(d.card_types@, CardType::Artifact) || has_type(d.card_types@, CardType::Creature)
                    || has_type(d.card_types@, CardType::Enchantment) || has_type(d.card_types@, CardType::Planeswalker)
                    || has_type(d.card_types@, CardType::Land)
            } else {
                has_type(d.card_types@, CardType::Creature)
            },
            None => false,
        },
        None => false,
    }
}

/// `g1` is `g0` after the top card of `c`'s library (when there is one) went to their hand.
pub open spec fn top_to_hand(g0: GameState, g1: GameState, c: int) -> bool {
    let p0 = g0.players@[c];
    let lib = p0.library@;
    if lib.len() == 0 {
        g1 == g0
    } else {
        &&& g1.players@[c].library@ == lib.drop_last()
        &&& g1.players@[c].hand@ == p0.hand@.push(lib.last())
        &&& player_replaced(g0, g1, c, Player { library: g1.players@[c].library, hand: g1.players@[c].hand, ..p0 })
    }
}

/// Whether player `opp` controls a blue or black permanent.
pub open spec fn controls_blue_or_black(bf: Seq<Permanent>, opp: PlayerId) -> bool {
    exists|i: int| 0 <= i < bf.len() && (#[trigger] bf[i]).controller == opp
        && (bf[i].colors@.contains(Color::Blue) || bf[i].colors@.contains(Color::Black))
}

/// `g1` is `g0` with Veil of Summer's blessing on player `c`.
pub open spec fn veiled(g0: GameState, g1: GameState, c: PlayerId) -> bool {
    player_replaced(g0, g1, c as int, Player { veil_of_summer_active: true, ..g0.players@[c as int] })
}

/// Half of `life`, rounded up in size (toward zero for a negative total, as integer
/// division of `life + 1` by two does).
pub open spec fn half_rounded_up(life: int) -> int {
    if life >= 0 { (life + 1) / 2 } else { -((-(life + 1)) / 2) }
}

/// A player's life moving toward zero keeps every bound.
proof fn lemma_life_toward_zero(g0: GameState, g1: GameState, c: int, v: i32, k: int)
    requires
        g0.within(k),
        0 <= c < g0.players@.len(),
        player_replaced(g0, g1, c, Player { life: v, ..g0.players@[c] }),
        g0.players@[c].life >= 0 ==> 0 <= v <= g0.players@[c].life,
        g0.players@[c].life < 0 ==> g0.players@[c].life <= v <= 0,
    ensures
        g0.wf() ==> g1.wf(),
        g1.within(k),
{
    assert forall|i: int| 0 <= i < g1.players@.len() implies #[trigger] g1.players@[i].stats_within(k) by {
        assert(g0.players@[i].stats_within(k));
    }
    assert forall|i: int| 0 <= i < g1.battlefield@.len() implies #[trigger] g1.battlefield@[i].stats_within(k, g1.battlefield@.len() as int) by {
        assert(g0.battlefield@[i].stats_within(k, g0.battlefield@.len() as int));
    }
    assert forall|i: int| 0 <= i < g1.battlefield@.len() implies (#[trigger] g1.battlefield@[i]).owner < 2
        && g1.battlefield@[i].controller < 2 by {
        assert(g0.battlefield@[i].owner < 2);
    }
}

/// Show and Tell offers `c` the permanent cards of their hand (the opponent chooses next);
/// Flash offers the creature cards, when there is one.
pub open spec fn hand_put_choice(g0: GameState, g1: GameState, card_name: CardName, c: PlayerId, db: Seq<CardDef>) -> bool {
    let hand = g0.players@[c as int].hand@;
    if card_name == CardName::ShowAndTell {
        crate::game::spells::choice_set(g0, g1, c, hand.filter(search_pick(2, g0.card_registry@, db)),
            ChoiceReason::ShowAndTellChoose { next_player: Some((1 - c) as PlayerId) })
    } else {
        let options = hand.filter(search_pick(3, g0.card_registry@, db));
        if options.len() == 0 { g1 == g0 } else { crate::game::spells::choice_set(g0, g1, c, options, ChoiceReason::FlashPutCreature) }
    }
}

/// What the spells of this module do.
pub open spec fn search_more_effect(g0: GameState, g1: GameState, card_name: CardName, controller: PlayerId, targets: Seq<Target>, is_copy: bool, db: Seq<CardDef>) -> bool {
    let c = controller as int;
    match card_name {
        CardName::Tinker | CardName::TransmuteArtifact | CardName::NaturalOrder => exists|gm: GameState|
            #[trigger] destroyed_first(g0, gm, targets)
            && searched(gm, g1, controller,
                gm.players@[c].library@.filter(search_pick(if card_name == CardName::NaturalOrder { 1u8 } else { 0u8 }, gm.card_registry@, db)),
                ChoiceReason::GenericSearch),
        CardName::BrainFreeze => exists|gm: GameState| #[trigger] with_storm(gm, g1, card_name, controller, targets, is_copy)
            && match first_target(targets) {
                Some(Target::Player(p)) => milled(g0, gm, p as int, 3),
                _ => gm == g0,
            },
        CardName::MindsDesire | CardName::GalvanicRelay => exists|gm: GameState| #[trigger] with_storm(gm, g1, card_name, controller, targets, is_copy)
            && top_to_hand(g0, gm, c),
        CardName::Doomsday => player_replaced(g0, g1, c, Player {
            life: (g0.players@[c].life - half_rounded_up(g0.players@[c].life as int)) as i32,
            ..g0.players@[c]
        }),
        CardName::ShowAndTell | CardName::Flash => hand_put_choice(g0, g1, card_name, controller, db),
        CardName::YawgmothsWill => player_replaced(g0, g1, c, Player { yawgmoth_will_active: true, ..g0.players@[c] }),
        _ => exists|gm: GameState| #[trigger] veiled(gm, g1, controller)
            && if controls_blue_or_black(g0.battlefield@, (1 - controller) as PlayerId) { drew(g0, gm, controller, 1) } else { gm == g0 },
    }
}

/// Whether `card_name` is a spell of this module.
pub open spec fn is_search_more(card_name: CardName) -> bool {
    match card_name {
        CardName::Tinker | CardName::TransmuteArtifact | CardName::NaturalOrder | CardName::BrainFreeze
        | CardName::MindsDesire | CardName::GalvanicRelay | CardName::Doomsday | CardName::YawgmothsWill
        | CardName::VeilOfSummer | CardName::ShowAndTell | CardName::Flash => true,
        _ => false,
    }
}

/// Executable form of `is_search_more`.
pub fn search_more(card_name: CardName) -> (r: bool)
    ensures
        r == is_search_more(card_name),
{
    match card_name {
        CardName::Tinker | CardName::TransmuteArtifact | CardName::NaturalOrder | CardName::BrainFreeze
        | CardName::MindsDesire | CardName::GalvanicRelay | CardName::Doomsday | CardName::YawgmothsWill
        | CardName::VeilOfSummer | CardName::ShowAndTell | CardName::Flash => true,
        _ => false,
    }
}

impl GameState {
    /// Search `player`'s library for the cards `search_pick(kind, ..)` accepts (see `searched`).
    fn pick_search(&mut self, player: PlayerId, kind: u8, db: &[CardDef])
        requires
            player < old(self).players@.len(),
            crate::game::db_ok(db@),
        ensures
            searched(*old(self), *final(self), player,
                old(self).players@[player as int].library@.filter(search_pick(kind, old(self).card_registry@, db@)),
                ChoiceReason::GenericSearch),
            crate::game::bounds::stats_frame(*old(self), *final(self)),
    {
        if self.library_search_restricted(player) {
            return;
        }
        let ghost f = search_pick(kind, self.card_registry@, db@);
        let pid = player as usize;
        let mut searchable: Vec<ObjectId> = Vec::new();
        let mut i: usize = 0;
        while i < self.players[pid].library.len()
            invariant
                pid < self.players@.len(),
                i <= self.players@[pid as int].library@.len(),
                crate::game::db_ok(db@),
                f == search_pick(kind, self.card_registry@, db@),
                searchable@ == self.players@[pid as int].library@.subrange(0, i as int).filter(f),
            decreases self.players@[pid as int].library@.len() - i,
        {
            let id = self.players[pid].library[i];
            proof {
                let lib = self.players@[pid as int].library@;
                assert(lib.subrange(0, i as int + 1) =~= lib.subrange(0, i as int).push(id));
                lib.subrange(0, i as int).lemma_filter_push(id, f);
            }
            let ok = match self.card_name_for_id(id) {
                Some(cn) => match find_card(db, cn) {
                    Some(def) => {
                        proof { crate::card::lemma_def_pos_from(db@, cn, 0); }
                        Self::pick_kind(kind, def)
                    },
                    None => false,
                },
                None => false,
            };
            if ok {
                searchable.push(id);
            }
            i = i + 1;
        }
        proof {
            assert(self.players@[pid as int].library@.subrange(0, i as int) =~= self.players@[pid as int].library@);
        }
        if searchable.len() > 0 {
            self.pending_choice = Some(PendingChoice {
                player,
                kind: ChoiceKind::ChooseFromList { options: searchable, reason: ChoiceReason::GenericSearch },
            });
        }
    }

    /// Whether a card with definition `def` is of the kind `search_pick(kind, ..)` accepts.
    fn pick_kind(kind: u8, def: &CardDef) -> (r: bool)
        ensures
            r == (if kind == 0 {
                has_type(def.card_types@, CardType::Artifact)
            } else if kind == 1 {
                has_type(def.card_types@, CardType::Creature) && def.color_identity@.contains(Color::Green)
            } else if kind == 2 {
                has_type(def.card_types@, CardType::Artifact) || has_type(def.card_types@, CardType::Creature)
                    || has_type(def.card_types@, CardType::Enchantment) || has_type(def.card_types@, CardType::Planeswalker)
                    || has_type(def.card_types@, CardType::Land)
            } else {
                has_type(def.card_types@, CardType::Creature)
            }),
    {
        if kind == 0 {
            types_contain(&def.card_types, CardType::Artifact)
        } else if kind == 1 {
            types_contain(&def.card_types, CardType::Creature) && colors_contain(&def.color_identity, Color::Green)
        } else if kind == 2 {
            types_contain(&def.card_types, CardType::Artifact) || types_contain(&def.card_types, CardType::Creature)
                || types_contain(&def.card_types, CardType::Enchantment) || types_contain(&def.card_types, CardType::Planeswalker)
                || types_contain(&def.card_types, CardType::Land)
        } else {
            types_contain(&def.card_types, CardType::Creature)
        }
    }

    /// The cards of `player`'s hand that `search_pick(kind, ..)` accepts, in order.
    fn hand_pick(&self, player: PlayerId, kind: u8, db: &[CardDef]) -> (r: Vec<ObjectId>)
        requires
            player < self.players@.len(),
            crate::game::db_ok(db@),
        ensures
            r@ == self.players@[player as int].hand@.filter(search_pick(kind, self.card_registry@, db@)),
    {
        let ghost f = search_pick(kind, self.card_registry@, db@);
        let pid = player as usize;
        let mut out: Vec<ObjectId> = Vec::new();
        let mut i: usize = 0;
        while i < self.players[pid].hand.len()
            invariant
                pid < self.players@.len(),
                i <= self.players@[pid as int].hand@.len(),
                crate::game::db_ok(db@),
                f == search_pick(kind, self.card_registry@, db@),
                out@ == self.players@[pid as int].hand@.subrange(0, i as int).filter(f),
            decreases self.players@[pid as int].hand@.len() - i,
        {
            let id = self.players[pid].hand[i];
            proof {
                let h = self.players@[pid as int].hand@;
                assert(h.subrange(0, i as int + 1) =~= h.subrange(0, i as int).push(id));
                h.subrange(0, i as int).lemma_filter_push(id, f);
            }
            let ok = match self.card_name_for_id(id) {
                Some(cn) => match find_card(db, cn) {
                    Some(def) => {
                        proof { crate::card::lemma_def_pos_from(db@, cn, 0); }
                        Self::pick_kind(kind, def)
                    },
                    None => false,
                },
                None => false,
            };
            if ok {
                out.push(id);
            }
            i = i + 1;
        }
        proof {
            assert(self.players@[pid as int].hand@.subrange(0, i as int) =~= self.players@[pid as int].hand@);
        }
        out
    }

    /// Show and Tell and Flash: `controller` chooses a card from their hand to put onto
    /// the battlefield (see `search_more_effect`).
    fn hand_to_battlefield_choice(&mut self, card_name: CardName, controller: PlayerId, db: &[CardDef])
        requires
            controller < 2,
            old(self).players@.len() == 2,
            crate::game::db_ok(db@),
        ensures
            hand_put_choice(*old(self), *final(self), card_name, controller, db@),
            crate::game::bounds::stats_frame(*old(self), *final(self)),
    {
        if card_name == CardName::ShowAndTell {
            let options = self.hand_pick(controller, 2, db);
            let opp = 1 - controller;
            self.pending_choice = Some(PendingChoice {
                player: controller,
                kind: ChoiceKind::ChooseFromList { options, reason: ChoiceReason::ShowAndTellChoose { next_player: Some(opp) } },
            });
        } else {
            let options = self.hand_pick(controller, 3, db);
            if options.len() > 0 {
                self.pending_choice = Some(PendingChoice {
                    player: controller,
                    kind: ChoiceKind::ChooseFromList { options, reason: ChoiceReason::FlashPutCreature },
                });
            }
        }
    }

    /// Put the top card of `c`'s library into their hand (see `top_to_hand`).
    pub(crate) fn top_card_to_hand(&mut self, c: PlayerId)
        requires
            c < old(self).players@.len(),
        ensures
            top_to_hand(*old(self), *final(self), c as int),
    {
        let pid = c as usize;
        if self.players[pid].library.len() == 0 {
            return;
        }
        let mut library = crate::player::copy_ids(&self.players[pid].library);
        let id = match library.pop() {
            Some(x) => x,
            None => return,
        };
        let mut hand = crate::player::copy_ids(&self.players[pid].hand);
        hand.push(id);
        self.players[pid].library = library;
        self.players[pid].hand = hand;
        proof {
            assert(self.players@ =~= old(self).players@.update(c as int, Player {
                library: self.players@[c as int].library,
                hand: self.players@[c as int].hand,
                ..old(self).players@[c as int]
            }));
        }
    }

    /// Whether `opp` controls a blue or black permanent.
    fn has_blue_or_black(&self, opp: PlayerId) -> (r: bool)
        ensures
            r == controls_blue_or_black(self.battlefield@, opp),
    {
        let mut i: usize = 0;
        while i < self.battlefield.len()
            invariant
                i <= self.battlefield@.len(),
                forall|j: int| 0 <= j < i ==> !((#[trigger] self.battlefield@[j]).controller == opp
                    && (self.battlefield@[j].colors@.contains(Color::Blue) || self.battlefield@[j].colors@.contains(Color::Black))),
            decreases self.battlefield@.len() - i,
        {
            let p = &self.battlefield[i];
            if p.controller == opp && (colors_contain(&p.colors, Color::Blue) || colors_contain(&p.colors, Color::Black)) {
                return true;
            }
            i = i + 1;
        }
        false
    }

    /// Doomsday's life payment: `c` loses half their life, rounded up.
    fn halve_life(&mut self, c: PlayerId)
        requires
            old(self).wf(),
            old(self).within(1),
            c < 2,
        ensures
            player_replaced(*old(self), *final(self), c as int, Player {
                life: (old(self).players@[c as int].life - half_rounded_up(old(self).players@[c as int].life as int)) as i32,
                ..old(self).players@[c as int]
            }),
            final(self).wf(),
            final(self).within(1),
    {
        let ghost g0 = *self;
        let pid = c as usize;
        proof { assert(self.players@[c as int].stats_within(1)); }
        let life = self.players[pid].life;
        let loss: i32 = if life >= 0 { (life + 1) / 2 } else { -((-(life + 1)) / 2) };
        let v = life - loss;
        self.players[pid].life = v;
        proof {
            let q = Player { life: v, ..g0.players@[c as int] };
            assert(self.players@ =~= g0.players@.update(c as int, q));
            lemma_life_toward_zero(g0, *self, c as int, v, 1);
        }
    }

    /// Brain Freeze, Mind's Desire and Galvanic Relay (see `search_more_effect`).
    fn storm_spell(&mut self, card_name: CardName, controller: PlayerId, targets: &[Target], is_copy: bool, db: &[CardDef])
        requires
            old(self).wf(),
            old(self).within(3),
            controller < 2,
            forall|i: int| 0 <= i < targets@.len() ==> (#[trigger] targets@[i] matches Target::Player(p) ==> p < 2),
            card_name == CardName::BrainFreeze || card_name == CardName::MindsDesire || card_name == CardName::GalvanicRelay,
        ensures
            search_more_effect(*old(self), *final(self), card_name, controller, targets@, is_copy, db@),
            final(self).wf(),
            final(self).within(3),
    {
        let ghost g0 = *self;
        if card_name == CardName::BrainFreeze {
            if targets.len() > 0 {
                match targets[0] {
                    Target::Player(p) => {
                        proof { assert(targets@[0] matches Target::Player(q) ==> q < 2); }
                        self.mill(p as usize, 3);
                    },
                    _ => {},
                }
            }
        } else {
            self.top_card_to_hand(controller);
        }
        let ghost gm = *self;
        proof {
            assert(crate::game::bounds::stats_frame(g0, gm));
            crate::game::bounds::lemma_frame_kept(g0, gm);
        }
        if !is_copy {
            self.storm(card_name, controller, targets);
        }
        proof {
            assert(crate::game::bounds::stats_frame(gm, *self));
            crate::game::bounds::lemma_frame_kept(gm, *self);
            assert(with_storm(gm, *self, card_name, controller, targets@, is_copy));
        }
    }

    /// Veil of Summer (see `search_more_effect`).
    fn veil_of_summer(&mut self, controller: PlayerId)
        requires
            old(self).wf(),
            old(self).within(3),
            controller < 2,
        ensures
            exists|gm: GameState| #[trigger] veiled(gm, *final(self), controller)
                && if controls_blue_or_black(old(self).battlefield@, (1 - controller) as PlayerId) { drew(*old(self), gm, controller, 1) } else { gm == *old(self) },
            final(self).wf(),
            final(self).within(1),
    {
        let ghost g0 = *self;
        let c = controller as usize;
        let opp = self.opponent(controller);
        if self.has_blue_or_black(opp) {
            proof { assert(self.players@[controller as int].stats_within(3)); }
            self.draw_cards(controller, 1);
            proof { crate::game::effects::lemma_drew_step(g0, *self, controller, 1, 3); }
        } else {
            proof { crate::game::bounds::lemma_within_mono(g0, 3, 2); }
        }
        let ghost gm = *self;
        self.players[c].veil_of_summer_active = true;
        proof {
            assert(self.players@ =~= gm.players@.update(c as int, Player { veil_of_summer_active: true, ..gm.players@[c as int] }));
            crate::game::bounds::lemma_frame_kept(gm, *self);
            crate::game::bounds::lemma_within_mono(*self, 2, 1);
            assert(veiled(gm, *self, controller));
        }
    }

    /// Tinker, Transmute Artifact and Natural Order (see `search_more_effect`).
    fn sacrifice_and_search(&mut self, card_name: CardName, controller: PlayerId, targets: &[Target], db: &[CardDef])
        requires
            old(self).wf(),
            old(self).within(3),
            controller < 2,
            crate::game::db_ok(db@),
        ensures
            exists|gm: GameState| #[trigger] destroyed_first(*old(self), gm, targets@)
                && searched(gm, *final(self), controller,
                    gm.players@[controller as int].library@.filter(search_pick(if card_name == CardName::NaturalOrder { 1u8 } else { 0u8 }, gm.card_registry@, db@)),
                    ChoiceReason::GenericSearch),
            final(self).wf(),
            final(self).within(3),
    {
        let ghost g0 = *self;
        proof { crate::game::bounds::lemma_within_mono(g0, 3, 0); }
        if targets.len() > 0 {
            match targets[0] {
                Target::Object(id) => { self.destroy_target(id); },
                _ => {},
            }
        }
        let ghost gm = *self;
        proof { assert(gm.within(3)); }
        let kind: u8 = if card_name == CardName::NaturalOrder { 1 } else { 0 };
        self.pick_search(controller, kind, db);
        proof {
            crate::game::bounds::lemma_frame_kept(gm, *self);
            assert(destroyed_first(g0, gm, targets@));
        }
    }

    /// Sacrifice-and-search spells, storm spells that mill or draw, and turn-long blessings
    /// (see `search_more_effect`).
    pub(crate) fn resolve_search_more(&mut self, card_name: CardName, controller: PlayerId, targets: &[Target], is_copy: bool, db: &[CardDef])
        requires
            old(self).wf(),
            old(self).within(3),
            controller < 2,
            crate::game::db_ok(db@),
            forall|i: int| 0 <= i < targets@.len() ==> (#[trigger] targets@[i] matches Target::Player(p) ==> p < 2),
            is_search_more(card_name),
        ensures
            search_more_effect(*old(self), *final(self), card_name, controller, targets@, is_copy, db@),
            final(self).wf(),
            final(self).within(1),
    {
        let ghost g0 = *self;
        let c = controller as usize;
        proof { crate::game::bounds::lemma_within_mono(g0, 3, 1); }
        match card_name {
            CardName::Tinker | CardName::TransmuteArtifact | CardName::NaturalOrder => {
                self.sacrifice_and_search(card_name, controller, targets, db);
                proof { crate::game::bounds::lemma_within_mono(*self, 3, 1); }
            },
            CardName::Doomsday => {
                self.halve_life(controller);
            },
            CardName::BrainFreeze | CardName::MindsDesire | CardName::GalvanicRelay => {
                self.storm_spell(card_name, controller, targets, is_copy, db);
                proof { crate::game::bounds::lemma_within_mono(*self, 3, 1); }
            },
            CardName::ShowAndTell | CardName::Flash => {
                self.hand_to_battlefield_choice(card_name, controller, db);
                proof { crate::game::bounds::lemma_frame_kept(g0, *self); }
            },
            CardName::YawgmothsWill => {
                self.players[c].yawgmoth_will_active = true;
                proof {
                    assert(self.players@ =~= g0.players@.update(c as int, Player { yawgmoth_will_active: true, ..g0.players@[c as int] }));
                    crate::game::bounds::lemma_frame_kept(g0, *self);
                }
            },
            _ => {
                self.veil_of_summer(controller);
            },
        }
    }
}

} // verus!
