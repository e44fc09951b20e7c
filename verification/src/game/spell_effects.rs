//! Further instants and sorceries: card draw, rituals, burn, bounce and shrinking.
use vstd::prelude::*;
use crate::action::TemporaryEffect;
use crate::card::{CardDef, CardName, find_card, has_type, lookup, types_contain};
use crate::game::{ChoiceKind, ChoiceReason, DestinationZone, GameState, PendingChoice, apply_effect, perm_pos, lemma_perm_pos, registered_name};
use crate::game::spells::searched;
use crate::game::effects::{damage_dealt, drew};
use crate::game::resolution::{spell_effect, spell_ready, destroyed_first};
use crate::game::spells::destroyed;
use crate::game::zones::removed_to_zone;
use crate::permanent::Permanent;
use crate::types::{CardType, Color, ObjectId, PlayerId, Target};

verus! {

/// Abrade on permanent `id`: an artifact is destroyed; otherwise it is dealt 3 damage.
pub open spec fn abraded(g0: GameState, g1: GameState, id: ObjectId) -> bool {
    let bf = g0.battlefield@;
    let i = perm_pos(bf, id);
    if i >= 0 && bf[i].has_card_type(CardType::Artifact) {
        destroyed(g0, g1, id)
    } else {
        damage_dealt(g0, g1, Target::Object(id), 3)
    }
}

/// Whether `c` controls an artifact on `bf`.
pub open spec fn controls_artifact(bf: Seq<Permanent>, c: PlayerId) -> bool {
    exists|i: int| 0 <= i < bf.len() && (#[trigger] bf[i]).controller == c && bf[i].has_card_type(CardType::Artifact)
}

/// Redirect Lightning's damage: 5 while its controller controls an artifact, else 4.
pub open spec fn redirect_damage(bf: Seq<Permanent>, c: PlayerId) -> int {
    if controls_artifact(bf, c) { 5 } else { 4 }
}

/// `g1` is `g0` after the permanent named by target `n` (when it names one) returned to
/// its owner's hand.
pub open spec fn bounced_nth(g0: GameState, g1: GameState, targets: Seq<Target>, n: int) -> bool {
    if 0 <= n < targets.len() && targets[n] is Object {
        exists|r: Option<Permanent>| #[trigger] removed_to_zone(g0, g1, targets[n]->Object_0, DestinationZone::Hand, r)
    } else {
        g1 == g0
    }
}

/// `g1` is `g0` after permanent `id` got -5/-5 until end of turn.
pub open spec fn shrunk(g0: GameState, g1: GameState, id: ObjectId) -> bool {
    let e = TemporaryEffect::ModifyPT { target: id, power: -5i16, toughness: -5i16 };
    &&& g1.battlefield@ == apply_effect(g0.battlefield@, e)
    &&& g1.temporary_effects@ == g0.temporary_effects@.push(e)
    &&& g1 == (GameState { battlefield: g1.battlefield, temporary_effects: g1.temporary_effects, ..g0 })
}

/// The library cards that are known artifacts or enchantments.
pub open spec fn artifact_or_enchantment(reg: Seq<(ObjectId, CardName)>, db: Seq<CardDef>) -> spec_fn(ObjectId) -> bool {
    |id: ObjectId| match registered_name(reg, id) {
        Some(cn) => match lookup(db, cn) {
            Some(d) => has_type(d.card_types@, CardType::Artifact) || has_type(d.card_types@, CardType::Enchantment),
            None => false,
        },
        None => false,
    }
}

/// `g1` is `g0` after player `p` shuffled hand and graveyard into the library (in that
/// order, onto the top).
pub open spec fn twisted(g0: GameState, g1: GameState, p: int) -> bool {
    let p0 = g0.players@[p];
    &&& g1.players@ == g0.players@.update(p, crate::player::Player {
        hand: g1.players@[p].hand,
        library: g1.players@[p].library,
        graveyard: g1.players@[p].graveyard,
        ..p0
    })
    &&& g1.players@[p].hand@.len() == 0
    &&& g1.players@[p].graveyard@.len() == 0
    &&& g1.players@[p].library@ == p0.library@ + p0.hand@ + p0.graveyard@
    &&& g1 == (GameState { players: g1.players, ..g0 })
}

/// `g1` is `g0` after player `p` gave up their hand: into the graveyard, or with the
/// graveyard into the library when `twist`.
pub open spec fn hand_given_up(g0: GameState, g1: GameState, p: int, twist: bool) -> bool {
    if twist { twisted(g0, g1, p) } else { crate::apply::hand_dumped(g0, g1, p) }
}

/// `g1` is `g0` after a wheel: each player in turn gives up their hand (see
/// `hand_given_up`) and draws seven.
pub open spec fn wheeled(g0: GameState, g1: GameState, twist: bool) -> bool {
    exists|ga: GameState, gb: GameState, gc: GameState|
        #[trigger] hand_given_up(g0, ga, 0, twist) && #[trigger] drew(ga, gb, 0, 7)
        && #[trigger] hand_given_up(gb, gc, 1, twist) && drew(gc, g1, 1, 7)
}

/// Whether `card_name` is one of the spells of this module.
pub open spec fn is_more_spell(card_name: CardName) -> bool {
    match card_name {
        CardName::TreasureCruise | CardName::StockUp | CardName::LorienRevealed | CardName::DigThroughTime | CardName::ExpressiveIteration
        | CardName::GiftsUngiven | CardName::Thoughtcast | CardName::Gush | CardName::GitaxianProbe
        | CardName::CabalRitual | CardName::Abrade | CardName::ShrapnelBlast | CardName::RedirectLightning
        | CardName::BrazenBorrower | CardName::ChainOfVapor | CardName::IntoTheFloodMaw | CardName::StepThrough
        | CardName::Dismember | CardName::MerchantScroll | CardName::ImperialSeal | CardName::DemonicConsultation
        | CardName::BeseechTheMirror | CardName::EnlightenedTutor | CardName::WheelOfFortune | CardName::Timetwister
        | CardName::EchoOfEons => true,
        _ => false,
    }
}

/// Executable form of `is_more_spell`.
pub fn more_spell(card_name: CardName) -> (r: bool)
    ensures
        r == is_more_spell(card_name),
{
    match card_name {
        CardName::TreasureCruise | CardName::StockUp | CardName::LorienRevealed | CardName::DigThroughTime | CardName::ExpressiveIteration
        | CardName::GiftsUngiven | CardName::Thoughtcast | CardName::Gush | CardName::GitaxianProbe
        | CardName::CabalRitual | CardName::Abrade | CardName::ShrapnelBlast | CardName::RedirectLightning
        | CardName::BrazenBorrower | CardName::ChainOfVapor | CardName::IntoTheFloodMaw | CardName::StepThrough
        | CardName::Dismember | CardName::MerchantScroll | CardName::ImperialSeal | CardName::DemonicConsultation
        | CardName::BeseechTheMirror | CardName::EnlightenedTutor | CardName::WheelOfFortune | CardName::Timetwister
        | CardName::EchoOfEons => true,
        _ => false,
    }
}

impl GameState {
    /// Whether `c` controls an artifact.
    pub(crate) fn controls_an_artifact(&self, c: PlayerId) -> (r: bool)
        ensures
            r == controls_artifact(self.battlefield@, c),
    {
        let mut i: usize = 0;
        while i < self.battlefield.len()
            invariant
                i <= self.battlefield@.len(),
                forall|j: int| 0 <= j < i ==> !((#[trigger] self.battlefield@[j]).controller == c && self.battlefield@[j].has_card_type(CardType::Artifact)),
            decreases self.battlefield@.len() - i,
        {
            if self.battlefield[i].controller == c && self.battlefield[i].is_artifact() {
                return true;
            }
            i = i + 1;
        }
        false
    }

    /// Return the permanent named by target `n` (when it names one) to its owner's hand.
    fn bounce_nth(&mut self, targets: &[Target], n: usize)
        requires
            old(self).wf(),
            old(self).within(0),
        ensures
            bounced_nth(*old(self), *final(self), targets@, n as int),
            final(self).wf(),
            forall|k: int| #![trigger final(self).within(k)] old(self).within(k) ==> final(self).within(k),
    {
        if n < targets.len() {
            match targets[n] {
                Target::Object(id) => {
                    let r = self.remove_permanent_to_zone(id, DestinationZone::Hand);
                    proof { assert(removed_to_zone(*old(self), *self, id, DestinationZone::Hand, r)); }
                },
                _ => {},
            }
        }
    }

    /// Deal `amount` (at most 5) damage to `t`, one step of room.
    fn burn(&mut self, t: Target, amount: u16, controller: PlayerId)
        requires
            old(self).wf(),
            old(self).within(2),
            amount <= 5,
            t matches Target::Player(p) ==> p < 2,
        ensures
            damage_dealt(*old(self), *final(self), t, amount),
            final(self).wf(),
            final(self).within(1),
    {
        let ghost g0 = *self;
        proof {
            match t {
                Target::Player(p) => {
                    assert(g0.players@[p as int].stats_within(2));
                },
                Target::Object(id) => {
                    lemma_perm_pos(g0.battlefield@, id);
                    if perm_pos(g0.battlefield@, id) >= 0 {
                        assert(g0.battlefield@[perm_pos(g0.battlefield@, id)].stats_within(2, g0.battlefield@.len() as int));
                        assert((amount as i16) == amount) by (bit_vector)
                            requires amount <= 5;
                    }
                },
                Target::NoTarget => {},
            }
        }
        self.deal_damage_to_target(t, amount, controller);
        proof { crate::game::effects::lemma_damage_step(g0, *self, t, amount, 2); }
    }

    /// Enlightened Tutor: search for an artifact or enchantment card to put on top.
    fn enlightened_tutor(&mut self, player: PlayerId, db: &[CardDef])
        requires
            player < old(self).players@.len(),
        ensures
            searched(*old(self), *final(self), player,
                old(self).players@[player as int].library@.filter(artifact_or_enchantment(old(self).card_registry@, db@)),
                ChoiceReason::MysticalTutorSearch),
            crate::game::bounds::stats_frame(*old(self), *final(self)),
    {
        if self.library_search_restricted(player) {
            return;
        }
        let ghost f = artifact_or_enchantment(self.card_registry@, db@);
        let pid = player as usize;
        let mut searchable: Vec<ObjectId> = Vec::new();
        let mut i: usize = 0;
        while i < self.players[pid].library.len()
            invariant
                pid < self.players@.len(),
                i <= self.players@[pid as int].library@.len(),
                f == artifact_or_enchantment(self.card_registry@, db@),
                searchable@ == self.players@[pid as int].library@.subrange(0, i as int).filter(f),
            decreases self.players@[pid as int].library@.len() - i,
        {
            let id = self.players[pid].library[i];
            proof {
                let lib = self.players@[pid as int].library@;
                assert(lib.subrange(0, i as int + 1) =~= lib.subrange(0, i as int).push(id));
                lib.subrange(0, i as int).lemma_filter_push(id, f);
            }
            let ok = match self.card_name_for_id(id) {
                Some(cn) => match find_card(db, cn) {
                    Some(def) => types_contain(&def.card_types, CardType::Artifact) || types_contain(&def.card_types, CardType::Enchantment),
                    None => false,
                },
                None => false,
            };
            if ok {
                searchable.push(id);
            }
            i = i + 1;
        }
        proof {
            assert(self.players@[pid as int].library@.subrange(0, i as int) =~= self.players@[pid as int].library@);
        }
        if searchable.len() > 0 {
            self.pending_choice = Some(PendingChoice {
                player,
                kind: ChoiceKind::ChooseFromList { options: searchable, reason: ChoiceReason::MysticalTutorSearch },
            });
        }
    }

    /// Player `p` shuffles hand and graveyard into the library (see `twisted`).
    fn twist_hand(&mut self, p: usize)
        requires
            p < old(self).players@.len(),
        ensures
            twisted(*old(self), *final(self), p as int),
    {
        let ghost p0 = self.players@[p as int];
        let mut library = crate::player::copy_ids(&self.players[p].library);
        let mut j: usize = 0;
        while j < self.players[p].hand.len()
            invariant
                p < self.players@.len(),
                *self == *old(self),
                p0 == self.players@[p as int],
                j <= p0.hand@.len(),
                library@ == p0.library@ + p0.hand@.subrange(0, j as int),
            decreases p0.hand@.len() - j,
        {
            library.push(self.players[p].hand[j]);
            proof { assert(p0.library@ + p0.hand@.subrange(0, j as int + 1) =~= (p0.library@ + p0.hand@.subrange(0, j as int)).push(p0.hand@[j as int])); }
            j = j + 1;
        }
        proof { assert(p0.hand@.subrange(0, j as int) =~= p0.hand@); }
        let mut k: usize = 0;
        while k < self.players[p].graveyard.len()
            invariant
                p < self.players@.len(),
                *self == *old(self),
                p0 == self.players@[p as int],
                k <= p0.graveyard@.len(),
                library@ == p0.library@ + p0.hand@ + p0.graveyard@.subrange(0, k as int),
            decreases p0.graveyard@.len() - k,
        {
            library.push(self.players[p].graveyard[k]);
            proof {
                assert(p0.library@ + p0.hand@ + p0.graveyard@.subrange(0, k as int + 1)
                    =~= (p0.library@ + p0.hand@ + p0.graveyard@.subrange(0, k as int)).push(p0.graveyard@[k as int]));
            }
            k = k + 1;
        }
        proof { assert(p0.graveyard@.subrange(0, k as int) =~= p0.graveyard@); }
        self.players[p].library = library;
        self.players[p].hand = Vec::new();
        self.players[p].graveyard = Vec::new();
        proof {
            assert(self.players@ =~= old(self).players@.update(p as int, crate::player::Player {
                hand: self.players@[p as int].hand,
                library: self.players@[p as int].library,
                graveyard: self.players@[p as int].graveyard,
                ..p0
            }));
        }
    }

    /// Each player in turn gives up their hand and draws seven (see `wheeled`).
    fn wheel(&mut self, twist: bool)
        requires
            old(self).wf(),
            old(self).within(3),
        ensures
            wheeled(*old(self), *final(self), twist),
            final(self).wf(),
            final(self).within(1),
    {
        let ghost g0 = *self;
        if twist { self.twist_hand(0); } else { self.dump_hand(0); }
        let ghost ga = *self;
        proof {
            crate::game::bounds::lemma_stats_kept(g0, ga, 3);
            assert(ga.players@[0].stats_within(3));
        }
        self.draw_cards(0, 7);
        let ghost gb = *self;
        proof { crate::game::effects::lemma_drew_step(ga, gb, 0, 7, 3); }
        if twist { self.twist_hand(1); } else { self.dump_hand(1); }
        let ghost gc = *self;
        proof {
            crate::game::bounds::lemma_stats_kept(gb, gc, 2);
            assert(gc.players@[1].stats_within(2));
        }
        self.draw_cards(1, 7);
        proof {
            crate::game::effects::lemma_drew_step(gc, *self, 1, 7, 2);
            assert(hand_given_up(g0, ga, 0, twist));
            assert(drew(ga, gb, 0, 7));
            assert(hand_given_up(gb, gc, 1, twist));
        }
    }

    /// Card draw, rituals, burn, bounce and shrinking spells (see `spell_effect`).
    pub(crate) fn resolve_more_spell(&mut self, card_name: CardName, controller: PlayerId, targets: &[Target], x_value: u8, is_copy: bool, db: &[CardDef])
        requires
            spell_ready(*old(self), card_name, controller, targets@, db@),
            is_more_spell(card_name),
        ensures
            spell_effect(*old(self), *final(self), card_name, controller, targets@, x_value, is_copy, db@),
            final(self).wf(),
            final(self).within(1),
    {
        let ghost g0 = *self;
        let first: Option<Target> = if targets.len() > 0 { Some(targets[0]) } else { None };
        proof {
            crate::game::bounds::lemma_within_mono(g0, 3, 0);
            crate::game::bounds::lemma_within_mono(g0, 3, 2);
        }
        match card_name {
            CardName::TreasureCruise | CardName::StockUp | CardName::LorienRevealed | CardName::DigThroughTime | CardName::ExpressiveIteration
            | CardName::GiftsUngiven | CardName::Thoughtcast | CardName::Gush | CardName::GitaxianProbe => {
                let n: usize = match card_name {
                    CardName::TreasureCruise | CardName::StockUp | CardName::LorienRevealed => 3,
                    CardName::GitaxianProbe => 1,
                    _ => 2,
                };
                proof { assert(self.players@[controller as int].stats_within(3)); }
                self.draw_cards(controller, n);
                proof {
                    crate::game::effects::lemma_drew_step(g0, *self, controller, n as nat, 3);
                    crate::game::bounds::lemma_within_mono(*self, 2, 1);
                }
            },
            CardName::CabalRitual => {
                let amount: u8 = if self.players[controller as usize].graveyard.len() >= 7 { 5 } else { 3 };
                self.players[controller as usize].mana_pool.add(Some(Color::Black), amount);
                proof {
                    let c = controller as int;
                    assert(self.players@ =~= g0.players@.update(c, crate::player::Player {
                        mana_pool: self.players@[c].mana_pool,
                        ..g0.players@[c]
                    }));
                    crate::game::bounds::lemma_stats_kept(g0, *self, 3);
                    crate::game::bounds::lemma_within_mono(*self, 3, 1);
                }
            },
            CardName::Abrade => {
                match first {
                    Some(Target::Object(id)) => {
                        proof { lemma_perm_pos(g0.battlefield@, id); }
                        let is_artifact = match self.find_permanent(id) {
                            Some(p) => p.is_artifact(),
                            None => false,
                        };
                        if is_artifact {
                            self.destroy_target(id);
                            proof { crate::game::bounds::lemma_within_mono(*self, 3, 1); }
                        } else {
                            self.burn(Target::Object(id), 3, controller);
                        }
                    },
                    _ => {
                        proof { crate::game::bounds::lemma_within_mono(g0, 3, 1); }
                    },
                }
            },
            CardName::ShrapnelBlast => {
                match first {
                    Some(Target::Object(id)) => {
                        self.destroy_target(id);
                    },
                    _ => {},
                }
                let ghost gm = *self;
                proof {
                    assert(destroyed_first(g0, gm, targets@));
                    assert(gm.within(2));
                }
                if targets.len() > 1 {
                    proof { assert(targets@[1] matches Target::Player(p) ==> p < 2); }
                    self.burn(targets[1], 5, controller);
                } else {
                    proof { crate::game::bounds::lemma_within_mono(gm, 2, 1); }
                }
            },
            CardName::RedirectLightning => {
                match first {
                    Some(t) => {
                        let amount: u16 = if self.controls_an_artifact(controller) { 5 } else { 4 };
                        proof { assert(targets@[0] matches Target::Player(p) ==> p < 2); }
                        self.burn(t, amount, controller);
                    },
                    None => {
                        proof { crate::game::bounds::lemma_within_mono(g0, 3, 1); }
                    },
                }
            },
            CardName::BrazenBorrower | CardName::ChainOfVapor | CardName::IntoTheFloodMaw => {
                self.bounce_nth(targets, 0);
                proof {
                    assert(self.within(3));
                    crate::game::bounds::lemma_within_mono(*self, 3, 1);
                }
            },
            CardName::MerchantScroll | CardName::DemonicConsultation | CardName::BeseechTheMirror => {
                let reason = if card_name == CardName::MerchantScroll {
                    ChoiceReason::MysticalTutorSearch
                } else {
                    ChoiceReason::DemonicTutorSearch
                };
                self.tutor(controller, reason);
                proof {
                    crate::game::bounds::lemma_frame_kept(g0, *self);
                    crate::game::bounds::lemma_within_mono(*self, 3, 1);
                }
            },
            CardName::ImperialSeal => {
                proof { crate::game::bounds::lemma_within_mono(g0, 3, 1); }
                self.change_life(controller, -2);
                let ghost gm = *self;
                proof { assert(gm.within(2)); }
                self.tutor(controller, ChoiceReason::MysticalTutorSearch);
                proof {
                    crate::game::bounds::lemma_frame_kept(gm, *self);
                    crate::game::bounds::lemma_within_mono(*self, 2, 1);
                    assert(crate::game::spells::life_changed(g0, gm, controller, -2));
                }
            },
            CardName::EnlightenedTutor => {
                self.enlightened_tutor(controller, db);
                proof {
                    crate::game::bounds::lemma_frame_kept(g0, *self);
                    crate::game::bounds::lemma_within_mono(*self, 3, 1);
                }
            },
            CardName::WheelOfFortune | CardName::Timetwister | CardName::EchoOfEons => {
                self.wheel(card_name != CardName::WheelOfFortune);
            },
            CardName::StepThrough => {
                self.bounce_nth(targets, 0);
                let ghost gm = *self;
                proof { assert(gm.within(3)); crate::game::bounds::lemma_within_mono(gm, 3, 0); }
                self.bounce_nth(targets, 1);
                proof {
                    assert(self.within(3));
                    crate::game::bounds::lemma_within_mono(*self, 3, 1);
                    assert(bounced_nth(g0, gm, targets@, 0));
                }
            },
            _ => {
                match first {
                    Some(Target::Object(id)) => {
                        let e = TemporaryEffect::ModifyPT { target: id, power: -5, toughness: -5 };
                        proof {
                            lemma_perm_pos(g0.battlefield@, id);
                            let i = perm_pos(g0.battlefield@, id);
                            if i >= 0 {
                                assert(g0.battlefield@[i].stats_within(3, g0.battlefield@.len() as int));
                            }
                        }
                        self.add_temporary_effect(e);
                        proof {
                            let bf0 = g0.battlefield@;
                            let i = perm_pos(bf0, id);
                            assert forall|j: int| 0 <= j < bf0.len() implies crate::game::equipment::close(#[trigger] self.battlefield@[j], bf0[j], 5) by {
                                if i >= 0 && j == i {
                                    assert(bf0[i].stats_within(3, bf0.len() as int));
                                }
                            }
                            crate::game::equipment::lemma_close_step(g0, *self, 5, 3);
                            crate::game::bounds::lemma_within_mono(*self, 2, 1);
                        }
                    },
                    _ => {
                        proof { crate::game::bounds::lemma_within_mono(g0, 3, 1); }
                    },
                }
            },
        }
    }
}

} // verus!
