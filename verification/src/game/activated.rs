//! Activated abilities of artifacts, lands and planeswalkers beyond the draw-and-bounce core.
use vstd::prelude::*;
use crate::card::CardName;
use crate::game::{DestinationZone, Emblem, GameState, perm_pos, lemma_perm_pos};
use crate::game::effects::{damage_dealt, damage_fits, drew, name_or_plains, player_replaced};
use crate::game::etb::{counters_added, first_where, flagged, tagged};
use crate::game::resolution::destroyed_first;
use crate::game::spell_effects::controls_artifact;
use crate::game::spells::first_target;
use crate::game::zones::removed_to_zone;
use crate::permanent::Permanent;
use crate::player::Player;
use crate::stack::ActivatedEffect;
use crate::types::{CounterType, ObjectId, PlayerId, Target};

verus! {

/// `g1` is `g0` after the permanent named by the first target (when it names one) left the
/// battlefield for `zone`.
pub open spec fn moved_first(g0: GameState, g1: GameState, targets: Seq<Target>, zone: DestinationZone) -> bool {
    match first_target(targets) {
        Some(Target::Object(id)) => exists|r: Option<Permanent>| #[trigger] removed_to_zone(g0, g1, id, zone, r),
        _ => g1 == g0,
    }
}

/// `g1` is `g0` after `amount` damage to the first target (when there is one).
pub open spec fn damaged_first(g0: GameState, g1: GameState, targets: Seq<Target>, amount: u16) -> bool {
    match first_target(targets) {
        Some(t) => damage_dealt(g0, g1, t, amount),
        None => g1 == g0,
    }
}

/// `g1` is `g0` with permanent `id` (when it is there) controlled by `c`.
pub open spec fn controlled_by(g0: GameState, g1: GameState, id: ObjectId, c: PlayerId) -> bool {
    let bf = g0.battlefield@;
    let i = perm_pos(bf, id);
    if i < 0 {
        g1 == g0
    } else {
        &&& g1.battlefield@ == bf.update(i, Permanent { controller: c, ..bf[i] })
        &&& g1 == (GameState { battlefield: g1.battlefield, ..g0 })
    }
}

/// `g1` is `g0` with permanent `id` (when it is there) untapped.
pub open spec fn untapped(g0: GameState, g1: GameState, id: ObjectId) -> bool {
    let bf = g0.battlefield@;
    let i = perm_pos(bf, id);
    if i < 0 {
        g1 == g0
    } else {
        &&& g1.battlefield@ == bf.update(i, Permanent { tapped: false, ..bf[i] })
        &&& g1 == (GameState { battlefield: g1.battlefield, ..g0 })
    }
}

/// `g1` is `g0` with the permanent named by the first target (when it names one) untapped.
pub open spec fn untapped_first(g0: GameState, g1: GameState, targets: Seq<Target>) -> bool {
    match first_target(targets) {
        Some(Target::Object(id)) => untapped(g0, g1, id),
        _ => g1 == g0,
    }
}

/// `g1` is `g0` after player `p`'s graveyard was exiled, card by card in order, each
/// exiled card owned by `p`.
pub open spec fn graveyard_exiled(g0: GameState, g1: GameState, p: int) -> bool {
    &&& g1.players@ == g0.players@.update(p, Player { graveyard: g1.players@[p].graveyard, ..g0.players@[p] })
    &&& g1.players@[p].graveyard@.len() == 0
    &&& g1.exile@ == g0.exile@ + tagged(g0.players@[p].graveyard@, g0.card_registry@, p as PlayerId)
    &&& g1 == (GameState { players: g1.players, exile: g1.exile, ..g0 })
}

/// `g1` is `g0` after the top card of player `p`'s library (when there is one) was exiled.
pub open spec fn top_exiled(g0: GameState, g1: GameState, p: int) -> bool {
    let lib = g0.players@[p].library@;
    if lib.len() == 0 {
        g1 == g0
    } else {
        &&& g1.players@ == g0.players@.update(p, Player { library: g1.players@[p].library, ..g0.players@[p] })
        &&& g1.players@[p].library@ == lib.drop_last()
        &&& g1.exile@ == g0.exile@.push((lib.last(), name_or_plains(g0.card_registry@, lib.last()), p as PlayerId))
        &&& g1 == (GameState { players: g1.players, exile: g1.exile, ..g0 })
    }
}

/// `g1` is `g0` with emblem `e` given to player `c`.
pub open spec fn emblem_made(g0: GameState, g1: GameState, c: PlayerId, e: Emblem) -> bool {
    &&& g1.emblems@ == g0.emblems@.push((c, e))
    &&& g1 == (GameState { emblems: g1.emblems, ..g0 })
}

/// Whether `p` is a Sensei's Divining Top controlled by `c`.
pub open spec fn top_of(c: PlayerId) -> spec_fn(Permanent) -> bool {
    |p: Permanent| p.card_name == CardName::SenseisDiviningTop && p.controller == c
}

/// `g1` is `g0` after the first Sensei's Divining Top `c` controls (if any) went on top of
/// its owner's library.
pub open spec fn top_returned(g0: GameState, g1: GameState, c: PlayerId) -> bool {
    let j = first_where(g0.battlefield@, top_of(c));
    if j < 0 {
        g1 == g0
    } else {
        exists|r: Option<Permanent>| #[trigger] removed_to_zone(g0, g1, g0.battlefield@[j].id, DestinationZone::Library, r)
    }
}

/// The One Ring's draw: `c` draws one card per burden counter on `ring` (nothing when it
/// is gone or has none).
pub open spec fn ring_drew(g0: GameState, g1: GameState, ring: ObjectId, c: PlayerId) -> bool {
    let i = perm_pos(g0.battlefield@, ring);
    let b: int = if i >= 0 { g0.battlefield@[i].counters.count(CounterType::Burden) as int } else { 0 };
    if b > 0 { drew(g0, g1, c, b as nat) } else { g1 == g0 }
}

/// What the activated abilities handled by `resolve_activated_more` do for `controller`.
pub open spec fn activated_more(g0: GameState, g1: GameState, effect: ActivatedEffect, controller: PlayerId, targets: Seq<Target>) -> bool {
    match effect {
        ActivatedEffect::KarakasBounce | ActivatedEffect::AetherSpellbombBounce => moved_first(g0, g1, targets, DestinationZone::Hand),
        ActivatedEffect::HaywireMiteExile => moved_first(g0, g1, targets, DestinationZone::Exile),
        ActivatedEffect::CyclingDraw | ActivatedEffect::AetherSpellbombDraw | ActivatedEffect::SoulGuideLanternDraw
        | ActivatedEffect::NecropotencePayLife | ActivatedEffect::NarsetMinus => drew(g0, g1, controller, 1),
        ActivatedEffect::WrennPing | ActivatedEffect::WalkingBallistaPing { .. } => damaged_first(g0, g1, targets, 1),
        ActivatedEffect::DackSteal => match first_target(targets) {
            Some(Target::Object(id)) => controlled_by(g0, g1, id, controller),
            _ => g1 == g0,
        },
        ActivatedEffect::TezzeretDraw => if controls_artifact(g0.battlefield@, controller) {
            drew(g0, g1, controller, 1)
        } else {
            g1 == g0
        },
        ActivatedEffect::TimeVaultExtraTurn => player_replaced(g0, g1, controller as int, Player {
            extra_turns: (g0.players@[controller as int].extra_turns + 1) as u32,
            ..g0.players@[controller as int]
        }),
        ActivatedEffect::UntapArtifact | ActivatedEffect::UntapArtifactOrCreature => untapped_first(g0, g1, targets),
        ActivatedEffect::TimeVaultUntap { vault_id } => untapped(g0, g1, vault_id),
        ActivatedEffect::WalkingBallistaAddCounter { ballista_id } => counters_added(g0, g1, ballista_id, CounterType::PlusOnePlusOne, 1),
        ActivatedEffect::CryogenRelicStun => match first_target(targets) {
            Some(Target::Object(id)) => counters_added(g0, g1, id, CounterType::Stun, 1),
            _ => g1 == g0,
        },
        ActivatedEffect::OutlandLiberatorDestroy => destroyed_first(g0, g1, targets),
        ActivatedEffect::TormodsCryptExile => match first_target(targets) {
            Some(Target::Player(p)) => graveyard_exiled(g0, g1, p as int),
            _ => g1 == g0,
        },
        ActivatedEffect::SoulGuideLanternExile => graveyard_exiled(g0, g1, 1 - controller),
        ActivatedEffect::MysticForgeExile => top_exiled(g0, g1, controller as int),
        ActivatedEffect::DackUltimate => emblem_made(g0, g1, controller, Emblem::DackFayden),
        ActivatedEffect::WrennUltimate => emblem_made(g0, g1, controller, Emblem::WrennAndSix),
        ActivatedEffect::TezzeretUltimate => emblem_made(g0, g1, controller, Emblem::TezzeretCruelCaptain),
        ActivatedEffect::GideonEmblem => emblem_made(g0, g1, controller, Emblem::GideonOfTheTrials),
        ActivatedEffect::TopDraw => exists|gm: GameState| #[trigger] top_returned(g0, gm, controller) && drew(gm, g1, controller, 1),
        ActivatedEffect::TheOneRingDraw { ring_id } => exists|ga: GameState, gm: GameState|
            #[trigger] flagged(g0, ga, ring_id, true) && #[trigger] counters_added(ga, gm, ring_id, CounterType::Burden, 1)
            && ring_drew(gm, g1, ring_id, controller),
        _ => g1 == g0,
    }
}

/// Whether `effect` is handled by `resolve_activated_more`.
pub open spec fn is_more_activated(effect: ActivatedEffect) -> bool {
    match effect {
        ActivatedEffect::SacrificeForMana { .. } | ActivatedEffect::GriselbrandDraw | ActivatedEffect::JaceBrainstorm
        | ActivatedEffect::JaceBounce | ActivatedEffect::JaceFateseal | ActivatedEffect::TeferiBounce
        | ActivatedEffect::DrawCards(_) => false,
        _ => true,
    }
}

/// Executable form of `is_more_activated`.
pub fn more_activated(effect: ActivatedEffect) -> (r: bool)
    ensures
        r == is_more_activated(effect),
{
    match effect {
        ActivatedEffect::SacrificeForMana { .. } | ActivatedEffect::GriselbrandDraw | ActivatedEffect::JaceBrainstorm
        | ActivatedEffect::JaceBounce | ActivatedEffect::JaceFateseal | ActivatedEffect::TeferiBounce
        | ActivatedEffect::DrawCards(_) => false,
        _ => true,
    }
}

/// Handing a permanent to a real player keeps well-formedness and every bound.
proof fn lemma_control_kept(g0: GameState, g1: GameState, id: ObjectId, c: PlayerId, k: int)
    requires
        g0.within(k),
        c < 2,
        controlled_by(g0, g1, id, c),
    ensures
        g0.wf() ==> g1.wf(),
        g1.within(k),
{
    let bf = g0.battlefield@;
    lemma_perm_pos(bf, id);
    let n = bf.len() as int;
    assert forall|j: int| 0 <= j < n implies #[trigger] g1.battlefield@[j].stats_within(k, n) by {
        assert(bf[j].stats_within(k, n));
    }
    assert forall|j: int| 0 <= j < n implies (#[trigger] g1.battlefield@[j]).owner < 2 && g1.battlefield@[j].controller < 2 by {
        assert(bf[j].owner < 2);
    }
    assert forall|j: int| 0 <= j < g1.players@.len() implies #[trigger] g1.players@[j].stats_within(k) by {
        assert(g0.players@[j].stats_within(k));
    }
}

/// Untapping a permanent keeps well-formedness and every bound.
proof fn lemma_untap_kept(g0: GameState, g1: GameState, id: ObjectId, k: int)
    requires
        g0.within(k),
        untapped(g0, g1, id),
    ensures
        g0.wf() ==> g1.wf(),
        g1.within(k),
{
    let bf = g0.battlefield@;
    lemma_perm_pos(bf, id);
    if perm_pos(bf, id) >= 0 {
        crate::game::etb::lemma_flag_kept(g0, g1, perm_pos(bf, id), k);
    }
}

impl GameState {
    /// Give permanent `id` to `c` (see `controlled_by`).
    fn steal(&mut self, id: ObjectId, c: PlayerId)
        ensures
            controlled_by(*old(self), *final(self), id, c),
    {
        proof { lemma_perm_pos(self.battlefield@, id); }
        self.gain_control(id, c);
    }

    /// Untap permanent `id` (see `untapped`).
    fn untap_one(&mut self, id: ObjectId)
        ensures
            untapped(*old(self), *final(self), id),
    {
        proof { lemma_perm_pos(self.battlefield@, id); }
        match self.find_permanent_mut(id) {
            Some(perm) => perm.tapped = false,
            None => {},
        }
    }

    /// Exile the top card of player `p`'s library (see `top_exiled`).
    fn exile_top(&mut self, p: PlayerId)
        requires
            p < old(self).players@.len(),
        ensures
            top_exiled(*old(self), *final(self), p as int),
    {
        let pid = p as usize;
        if self.players[pid].library.len() == 0 {
            return;
        }
        let mut library = crate::player::copy_ids(&self.players[pid].library);
        let card_id = match library.pop() {
            Some(c) => c,
            None => return,
        };
        let name = match self.card_name_for_id(card_id) {
            Some(n) => n,
            None => crate::card::CardName::Plains,
        };
        self.players[pid].library = library;
        self.exile.push((card_id, name, p));
        proof {
            assert(self.players@ =~= old(self).players@.update(p as int, Player {
                library: self.players@[p as int].library,
                ..old(self).players@[p as int]
            }));
        }
    }

    /// Index of the first Sensei's Divining Top `c` controls.
    fn find_top(&self, c: PlayerId) -> (r: Option<usize>)
        ensures
            match r {
                Some(i) => i as int == first_where(self.battlefield@, top_of(c)) && i < self.battlefield@.len(),
                None => first_where(self.battlefield@, top_of(c)) == -1,
            },
    {
        let ghost f = top_of(c);
        let mut i: usize = 0;
        while i < self.battlefield.len()
            invariant
                i <= self.battlefield@.len(),
                f == top_of(c),
                first_where(self.battlefield@, f) == crate::game::etb::first_where_from(self.battlefield@, f, i as int),
            decreases self.battlefield@.len() - i,
        {
            let p = &self.battlefield[i];
            if p.card_name == CardName::SenseisDiviningTop && p.controller == c {
                return Some(i);
            }
            i = i + 1;
        }
        None
    }

    /// Sensei's Divining Top's draw (see `activated_more`).
    fn top_draw(&mut self, controller: PlayerId)
        requires
            old(self).wf(),
            old(self).within(3),
            controller < 2,
        ensures
            exists|gm: GameState| #[trigger] top_returned(*old(self), gm, controller) && drew(gm, *final(self), controller, 1),
            final(self).wf(),
            final(self).within(1),
    {
        let ghost g0 = *self;
        proof { crate::game::bounds::lemma_within_mono(g0, 3, 0); }
        match self.find_top(controller) {
            Some(i) => {
                let id = self.battlefield[i].id;
                let r = self.remove_permanent_to_zone(id, DestinationZone::Library);
                proof {
                    lemma_perm_pos(g0.battlefield@, id);
                    assert(removed_to_zone(g0, *self, id, DestinationZone::Library, r));
                    assert(self.within(3));
                }
            },
            None => {},
        }
        let ghost gm = *self;
        proof { assert(top_returned(g0, gm, controller)); assert(gm.players@[controller as int].stats_within(3)); }
        self.draw_cards(controller, 1);
        proof {
            crate::game::effects::lemma_drew_step(gm, *self, controller, 1, 3);
            crate::game::bounds::lemma_within_mono(*self, 2, 1);
        }
    }

    /// The One Ring's draw ability (see `activated_more`).
    fn one_ring_draw(&mut self, ring_id: ObjectId, controller: PlayerId)
        requires
            old(self).wf(),
            old(self).within(3),
            controller < 2,
        ensures
            exists|ga: GameState, gm: GameState|
                #[trigger] flagged(*old(self), ga, ring_id, true) && #[trigger] counters_added(ga, gm, ring_id, CounterType::Burden, 1)
                && ring_drew(gm, *final(self), ring_id, controller),
            final(self).wf(),
            final(self).within(1),
    {
        let ghost g0 = *self;
        self.flag(ring_id, true);
        let ghost ga = *self;
        proof {
            lemma_perm_pos(g0.battlefield@, ring_id);
            if perm_pos(g0.battlefield@, ring_id) >= 0 {
                let i = perm_pos(g0.battlefield@, ring_id);
                crate::game::etb::lemma_flag_kept(g0, ga, i, 3);
                crate::game::lemma_perm_pos_update(g0.battlefield@, i, ga.battlefield@[i], ring_id);
                assert(ga.battlefield@[perm_pos(ga.battlefield@, ring_id)].stats_within(3, ga.battlefield@.len() as int));
            }
        }
        self.add_counters(ring_id, CounterType::Burden, 1);
        let ghost gm = *self;
        proof { crate::game::etb::lemma_counters_step(ga, gm, ring_id, CounterType::Burden, 1, 3); }
        let burden: i16 = match self.find_permanent(ring_id) {
            Some(p) => p.counters.get(CounterType::Burden),
            None => 0,
        };
        proof { lemma_perm_pos(gm.battlefield@, ring_id); }
        if burden > 0 {
            proof {
                let i = perm_pos(gm.battlefield@, ring_id);
                assert(gm.battlefield@[i].stats_within(2, gm.battlefield@.len() as int));
                assert(gm.players@[controller as int].stats_within(2));
            }
            self.draw_cards(controller, burden as usize);
            proof {
                crate::game::effects::lemma_drew_step(gm, *self, controller, burden as nat, 2);
            }
        } else {
            proof { crate::game::bounds::lemma_within_mono(gm, 2, 1); }
        }
        proof { assert(ring_drew(gm, *self, ring_id, controller)); }
    }

    /// Activated abilities beyond the draw-and-bounce core (see `activated_more`).
    pub(crate) fn resolve_activated_more(&mut self, effect: ActivatedEffect, controller: PlayerId, targets: &[Target])
        requires
            old(self).wf(),
            old(self).within(3),
            controller < 2,
            forall|i: int| 0 <= i < targets@.len() ==> (#[trigger] targets@[i] matches Target::Player(p) ==> p < 2),
            is_more_activated(effect),
        ensures
            activated_more(*old(self), *final(self), effect, controller, targets@),
            final(self).wf(),
            final(self).within(1),
    {
        let ghost g0 = *self;
        proof {
            crate::game::bounds::lemma_within_mono(g0, 3, 1);
            crate::game::bounds::lemma_within_mono(g0, 3, 0);
        }
        match effect {
            ActivatedEffect::KarakasBounce | ActivatedEffect::AetherSpellbombBounce | ActivatedEffect::HaywireMiteExile => {
                let zone = match effect {
                    ActivatedEffect::HaywireMiteExile => DestinationZone::Exile,
                    _ => DestinationZone::Hand,
                };
                if targets.len() > 0 {
                    match targets[0] {
                        Target::Object(id) => {
                            let r = self.remove_permanent_to_zone(id, zone);
                            proof {
                                assert(removed_to_zone(g0, *self, id, zone, r));
                                if perm_pos(g0.battlefield@, id) != -1 { assert(self.within(3)); }
                                crate::game::bounds::lemma_within_mono(*self, 3, 1);
                            }
                        },
                        _ => {},
                    }
                }
            },
            ActivatedEffect::CyclingDraw | ActivatedEffect::AetherSpellbombDraw | ActivatedEffect::SoulGuideLanternDraw
            | ActivatedEffect::NecropotencePayLife | ActivatedEffect::NarsetMinus => {
                proof { assert(self.players@[controller as int].stats_within(3)); }
                self.draw_cards(controller, 1);
                proof {
                    crate::game::effects::lemma_drew_step(g0, *self, controller, 1, 3);
                    crate::game::bounds::lemma_within_mono(*self, 2, 1);
                }
            },
            ActivatedEffect::TezzeretDraw => {
                if self.controls_an_artifact(controller) {
                    proof { assert(self.players@[controller as int].stats_within(3)); }
                    self.draw_cards(controller, 1);
                    proof {
                        crate::game::effects::lemma_drew_step(g0, *self, controller, 1, 3);
                        crate::game::bounds::lemma_within_mono(*self, 2, 1);
                    }
                }
            },
            ActivatedEffect::WrennPing | ActivatedEffect::WalkingBallistaPing { .. } => {
                if targets.len() > 0 {
                    let t = targets[0];
                    proof {
                        match t {
                            Target::Player(p) => {
                                assert(targets@[0] matches Target::Player(q) ==> q < 2);
                                assert(g0.players@[p as int].stats_within(3));
                            },
                            Target::Object(id) => {
                                lemma_perm_pos(g0.battlefield@, id);
                                if perm_pos(g0.battlefield@, id) >= 0 {
                                    assert(g0.battlefield@[perm_pos(g0.battlefield@, id)].stats_within(3, g0.battlefield@.len() as int));
                                    assert((1u16 as i16) == 1) by (bit_vector);
                                }
                            },
                            Target::NoTarget => {},
                        }
                        assert(damage_fits(g0, t, 1));
                    }
                    self.deal_damage_to_target(t, 1, controller);
                    proof {
                        crate::game::effects::lemma_damage_step(g0, *self, t, 1, 3);
                        crate::game::bounds::lemma_within_mono(*self, 2, 1);
                    }
                }
            },
            ActivatedEffect::DackSteal => {
                if targets.len() > 0 {
                    match targets[0] {
                        Target::Object(id) => {
                            self.steal(id, controller);
                            proof { lemma_control_kept(g0, *self, id, controller, 1); }
                        },
                        _ => {},
                    }
                }
            },
            ActivatedEffect::TimeVaultExtraTurn => {
                let c = controller as usize;
                proof { assert(g0.players@[c as int].stats_within(3)); }
                let e = self.players[c].extra_turns + 1;
                self.players[c].extra_turns = e;
                proof {
                    let q = Player { extra_turns: e, ..g0.players@[c as int] };
                    assert(self.players@ =~= g0.players@.update(c as int, q));
                    crate::game::effects::lemma_player_step(g0, *self, c as int, q, 3);
                    crate::game::bounds::lemma_within_mono(*self, 2, 1);
                }
            },
            ActivatedEffect::UntapArtifact | ActivatedEffect::UntapArtifactOrCreature => {
                if targets.len() > 0 {
                    match targets[0] {
                        Target::Object(id) => {
                            self.untap_one(id);
                            proof { lemma_untap_kept(g0, *self, id, 1); }
                        },
                        _ => {},
                    }
                }
            },
            ActivatedEffect::TimeVaultUntap { vault_id } => {
                self.untap_one(vault_id);
                proof { lemma_untap_kept(g0, *self, vault_id, 1); }
            },
            ActivatedEffect::WalkingBallistaAddCounter { ballista_id } => {
                proof {
                    lemma_perm_pos(g0.battlefield@, ballista_id);
                    if perm_pos(g0.battlefield@, ballista_id) >= 0 {
                        assert(g0.battlefield@[perm_pos(g0.battlefield@, ballista_id)].stats_within(3, g0.battlefield@.len() as int));
                    }
                }
                self.add_counters(ballista_id, CounterType::PlusOnePlusOne, 1);
                proof {
                    crate::game::etb::lemma_counters_step(g0, *self, ballista_id, CounterType::PlusOnePlusOne, 1, 3);
                    crate::game::bounds::lemma_within_mono(*self, 2, 1);
                }
            },
            ActivatedEffect::CryogenRelicStun => {
                if targets.len() > 0 {
                    match targets[0] {
                        Target::Object(id) => {
                            proof {
                                lemma_perm_pos(g0.battlefield@, id);
                                if perm_pos(g0.battlefield@, id) >= 0 {
                                    assert(g0.battlefield@[perm_pos(g0.battlefield@, id)].stats_within(3, g0.battlefield@.len() as int));
                                }
                            }
                            self.add_counters(id, CounterType::Stun, 1);
                            proof {
                                crate::game::etb::lemma_counters_step(g0, *self, id, CounterType::Stun, 1, 3);
                                crate::game::bounds::lemma_within_mono(*self, 2, 1);
                            }
                        },
                        _ => {},
                    }
                }
            },
            ActivatedEffect::OutlandLiberatorDestroy => {
                if targets.len() > 0 {
                    match targets[0] {
                        Target::Object(id) => {
                            self.destroy_target(id);
                            proof { assert(self.within(1)); }
                        },
                        _ => {},
                    }
                }
            },
            ActivatedEffect::TormodsCryptExile => {
                if targets.len() > 0 {
                    match targets[0] {
                        Target::Player(p) => {
                            proof { assert(targets@[0] matches Target::Player(q) ==> q < 2); }
                            self.exile_graveyard_of(p as usize);
                            proof {
                                crate::game::bounds::lemma_frame_kept(g0, *self);
                                assert(self.within(1));
                            }
                        },
                        _ => {},
                    }
                }
            },
            ActivatedEffect::SoulGuideLanternExile => {
                let opp = self.opponent(controller);
                self.exile_graveyard_of(opp as usize);
                proof {
                    crate::game::bounds::lemma_frame_kept(g0, *self);
                    assert(self.within(1));
                }
            },
            ActivatedEffect::DackUltimate | ActivatedEffect::WrennUltimate | ActivatedEffect::TezzeretUltimate
            | ActivatedEffect::GideonEmblem => {
                let e = match effect {
                    ActivatedEffect::DackUltimate => Emblem::DackFayden,
                    ActivatedEffect::WrennUltimate => Emblem::WrennAndSix,
                    ActivatedEffect::TezzeretUltimate => Emblem::TezzeretCruelCaptain,
                    _ => Emblem::GideonOfTheTrials,
                };
                self.create_emblem(controller, e);
                proof { crate::game::bounds::lemma_frame_kept(g0, *self); }
            },
            ActivatedEffect::TopDraw => {
                self.top_draw(controller);
            },
            ActivatedEffect::TheOneRingDraw { ring_id } => {
                self.one_ring_draw(ring_id, controller);
            },
            ActivatedEffect::MysticForgeExile => {
                self.exile_top(controller);
                proof {
                    crate::game::bounds::lemma_frame_kept(g0, *self);
                    assert(self.within(1));
                }
            },
            _ => {},
        }
    }
}

} // verus!
