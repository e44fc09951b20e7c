//! Triggered abilities that swap control, sacrifice, protect or make Treasure.
use vstd::prelude::*;
use crate::card::CardDef;
use crate::game::{DestinationZone, GameState, perm_pos, lemma_perm_pos};
use crate::game::abilities::{trigger_effect, trigger_ready};
use crate::game::queries::control_exchanged;
use crate::game::zones::removed_to_zone;
use crate::permanent::Permanent;
use crate::stack::TriggeredEffect;
use crate::types::{ObjectId, PlayerId, Target};

verus! {

/// `g1` is `g0` after permanents `a` and `b` exchanged controllers (when both are there).
pub open spec fn exchanged(g0: GameState, g1: GameState, a: ObjectId, b: ObjectId) -> bool {
    &&& g1.battlefield@ == control_exchanged(g0.battlefield@, a, b)
    &&& g1 == (GameState { battlefield: g1.battlefield, ..g0 })
}

/// `g1` is `g0` after permanent `id` was sacrificed when it is on the battlefield (and,
/// when `by` names a player, controlled by them); otherwise nothing happens.
pub open spec fn sacrificed_if(g0: GameState, g1: GameState, id: ObjectId, by: Option<PlayerId>) -> bool {
    let bf = g0.battlefield@;
    let i = perm_pos(bf, id);
    if i >= 0 && (by matches Some(c) ==> bf[i].controller == c) {
        exists|r: Option<Permanent>| #[trigger] removed_to_zone(g0, g1, id, DestinationZone::Graveyard, r)
    } else {
        g1 == g0
    }
}

/// The mana value of card `id` by the registry and `db` (0 when unknown).
pub open spec fn card_mana_value(reg: Seq<(ObjectId, crate::card::CardName)>, db: Seq<CardDef>, id: ObjectId) -> int {
    match crate::game::registered_name(reg, id) {
        Some(cn) => match crate::card::lookup(db, cn) {
            Some(d) => d.mana_cost.value(),
            None => 0,
        },
        None => 0,
    }
}

/// Dark Confidant: `c` puts the top card of their library into their hand and loses life
/// equal to its mana value (nothing when the library is empty).
pub open spec fn confidant(g0: GameState, g1: GameState, c: PlayerId, db: Seq<CardDef>) -> bool {
    let lib = g0.players@[c as int].library@;
    if lib.len() == 0 {
        g1 == g0
    } else {
        exists|gm: GameState| #[trigger] crate::game::search_more::top_to_hand(g0, gm, c as int)
            && crate::game::spells::life_changed(gm, g1, c, -card_mana_value(g0.card_registry@, db, lib.last()))
    }
}

/// Whether `effect` is handled by `resolve_trigger_more`.
pub open spec fn is_more_trigger(effect: TriggeredEffect) -> bool {
    match effect {
        TriggeredEffect::GildedDrakeExchange { .. } | TriggeredEffect::OkoExchange | TriggeredEffect::SacrificeTarget { .. }
        | TriggeredEffect::DressDownSacrifice { .. } | TriggeredEffect::TheOneRingETB { .. }
        | TriggeredEffect::RagavanCombatDamage | TriggeredEffect::LeovoldTargetDraw
        | TriggeredEffect::RazorkinNeedleheadOpponentDraw | TriggeredEffect::BonecrusherGiantTargeted { .. }
        | TriggeredEffect::DarkConfidantUpkeep => true,
        _ => false,
    }
}

/// Executable form of `is_more_trigger`.
pub fn more_trigger(effect: TriggeredEffect) -> (r: bool)
    ensures
        r == is_more_trigger(effect),
{
    match effect {
        TriggeredEffect::GildedDrakeExchange { .. } | TriggeredEffect::OkoExchange | TriggeredEffect::SacrificeTarget { .. }
        | TriggeredEffect::DressDownSacrifice { .. } | TriggeredEffect::TheOneRingETB { .. }
        | TriggeredEffect::RagavanCombatDamage | TriggeredEffect::LeovoldTargetDraw
        | TriggeredEffect::RazorkinNeedleheadOpponentDraw | TriggeredEffect::BonecrusherGiantTargeted { .. }
        | TriggeredEffect::DarkConfidantUpkeep => true,
        _ => false,
    }
}

/// Exchanging controllers keeps well-formedness and every bound.
proof fn lemma_exchange_kept(g0: GameState, g1: GameState, a: ObjectId, b: ObjectId, k: int)
    requires
        g0.within(k),
        exchanged(g0, g1, a, b),
    ensures
        g0.wf() ==> g1.wf(),
        g1.within(k),
{
    let bf = g0.battlefield@;
    lemma_perm_pos(bf, a);
    lemma_perm_pos(bf, b);
    crate::game::queries::lemma_handed_to(bf[perm_pos(bf, a)], bf[perm_pos(bf, b)].controller);
    let ia = perm_pos(bf, a);
    let ib = perm_pos(bf, b);
    if ia != -1 && ib != -1 {
        let bf1 = bf.update(ia, crate::game::queries::handed_to(bf[ia], bf[ib].controller));
        crate::game::queries::lemma_handed_to(bf1[ib], bf[ia].controller);
    }
    let n = bf.len() as int;
    assert forall|i: int| 0 <= i < n implies #[trigger] g1.battlefield@[i].stats_within(k, n) by {
        assert(bf[i].stats_within(k, n));
    }
    assert forall|i: int| 0 <= i < n implies (#[trigger] g1.battlefield@[i]).owner < 2 && g1.battlefield@[i].controller < 2 by {
        assert(bf[i].owner < 2 && bf[i].controller < 2);
        if ia != -1 && ib != -1 {
            assert(bf[ia].owner < 2 && bf[ib].owner < 2);
        }
    }
    assert forall|i: int| 0 <= i < g1.players@.len() implies #[trigger] g1.players@[i].stats_within(k) by {
        assert(g0.players@[i].stats_within(k));
    }
}

impl GameState {
    /// Dark Confidant's upkeep trigger (see `confidant`).
    fn dark_confidant(&mut self, c: PlayerId, db: &[CardDef])
        requires
            old(self).wf(),
            old(self).within(3),
            c < 2,
            crate::game::db_ok(db@),
        ensures
            confidant(*old(self), *final(self), c, db@),
            final(self).wf(),
            final(self).within(1),
    {
        let ghost g0 = *self;
        let pid = c as usize;
        let n = self.players[pid].library.len();
        if n == 0 {
            proof { crate::game::bounds::lemma_within_mono(g0, 3, 1); }
            return;
        }
        let id = self.players[pid].library[n - 1];
        let mv: i32 = match self.card_name_for_id(id) {
            Some(cn) => match crate::card::find_card(db, cn) {
                Some(def) => {
                    proof { crate::card::lemma_def_pos_from(db@, cn, 0); }
                    def.mana_cost.cmc() as i32
                },
                None => 0,
            },
            None => 0,
        };
        self.top_card_to_hand(c);
        let ghost gm = *self;
        proof {
            assert(crate::game::bounds::stats_frame(g0, gm));
            crate::game::bounds::lemma_frame_kept(g0, gm);
            assert(g0.within(3));
            assert(gm.within(3));
            crate::game::bounds::lemma_within_mono(gm, 3, 1);
            assert(mv == card_mana_value(g0.card_registry@, db@, g0.players@[c as int].library@.last()));
        }
        self.change_life(c, -mv);
        proof {
            assert(self.within(2));
            crate::game::bounds::lemma_within_mono(*self, 2, 1);
            assert(crate::game::search_more::top_to_hand(g0, gm, c as int));
        }
    }

    /// Triggered abilities that swap control, sacrifice, protect or make Treasure (see
    /// `trigger_effect`).
    pub(crate) fn resolve_trigger_more(&mut self, effect: TriggeredEffect, controller: PlayerId, targets: &[Target], db: &[CardDef])
        requires
            trigger_ready(*old(self), effect, controller, targets@, db@),
            is_more_trigger(effect),
        ensures
            trigger_effect(*old(self), *final(self), effect, controller, targets@, db@),
            final(self).wf(),
            final(self).within(1),
    {
        let ghost g0 = *self;
        proof {
            crate::game::bounds::lemma_within_mono(g0, 3, 1);
            crate::game::bounds::lemma_within_mono(g0, 3, 0);
        }
        match effect {
            TriggeredEffect::GildedDrakeExchange { drake_id } => {
                if targets.len() > 0 {
                    match targets[0] {
                        Target::Object(id) => {
                            self.exchange_control(drake_id, id);
                            proof { lemma_exchange_kept(g0, *self, drake_id, id, 1); }
                        },
                        _ => {},
                    }
                }
            },
            TriggeredEffect::OkoExchange => {
                if targets.len() >= 2 {
                    match (targets[0], targets[1]) {
                        (Target::Object(a), Target::Object(b)) => {
                            self.exchange_control(a, b);
                            proof { lemma_exchange_kept(g0, *self, a, b, 1); }
                        },
                        _ => {},
                    }
                }
            },
            TriggeredEffect::SacrificeTarget { permanent_id } | TriggeredEffect::DressDownSacrifice { permanent_id } => {
                proof { lemma_perm_pos(g0.battlefield@, permanent_id); }
                let by_controller = match effect {
                    TriggeredEffect::SacrificeTarget { .. } => true,
                    _ => false,
                };
                let present = match self.find_permanent(permanent_id) {
                    Some(p) => !by_controller || p.controller == controller,
                    None => false,
                };
                if present {
                    let r = self.remove_permanent_to_zone(permanent_id, DestinationZone::Graveyard);
                    proof {
                        assert(removed_to_zone(g0, *self, permanent_id, DestinationZone::Graveyard, r));
                        assert(self.within(1));
                    }
                }
            },
            TriggeredEffect::TheOneRingETB { .. } => {
                self.players[controller as usize].protection_from_everything = true;
                proof {
                    let c = controller as int;
                    assert(self.players@ =~= g0.players@.update(c, crate::player::Player {
                        protection_from_everything: true,
                        ..g0.players@[c]
                    }));
                    crate::game::bounds::lemma_stats_kept(g0, *self, 1);
                }
            },
            TriggeredEffect::LeovoldTargetDraw => {
                proof { assert(self.players@[controller as int].stats_within(3)); }
                self.draw_cards(controller, 1);
                proof {
                    crate::game::effects::lemma_drew_step(g0, *self, controller, 1, 3);
                    crate::game::bounds::lemma_within_mono(*self, 2, 1);
                }
            },
            TriggeredEffect::RazorkinNeedleheadOpponentDraw | TriggeredEffect::BonecrusherGiantTargeted { .. } => {
                let (p, d): (PlayerId, i32) = match effect {
                    TriggeredEffect::BonecrusherGiantTargeted { target_player } => (target_player, -2),
                    _ => (1 - controller, -1),
                };
                self.change_life(p, d);
                proof { assert(self.within(2)); crate::game::bounds::lemma_within_mono(*self, 2, 1); }
            },
            TriggeredEffect::DarkConfidantUpkeep => {
                self.dark_confidant(controller, db);
            },
            _ => {
                let t = self.create_treasure_token(controller);
                proof {
                    crate::game::effects::lemma_treasure_step(g0, *self, controller, t, 3);
                    crate::game::bounds::lemma_within_mono(*self, 2, 1);
                }
            },
        }
    }
}

} // verus!
