//! Read-only queries on the game state, and small state changes (control, emblems, monarch).
use vstd::prelude::*;
use crate::action::DelayedTrigger;
use crate::card::{CardDef, CardName, find_card, lookup, has_type};
use crate::game::{Emblem, DestinationZone, GameState, registered_name, reg_pos_from, lemma_reg_pos_from, perm_pos, perm_with, lemma_perm_pos};
use crate::permanent::Permanent;
use crate::types::{CardType, Color, CounterType, GameResult, ObjectId, PlayerId};

verus! {

/// Whether some permanent on `bf` has name `name`.
pub open spec fn name_on_battlefield(bf: Seq<Permanent>, name: CardName) -> bool {
    exists|i: int| 0 <= i < bf.len() && #[trigger] bf[i].card_name == name
}

/// `p` under the control of `c`.
#[verifier::opaque]
pub open spec fn handed_to(p: Permanent, c: PlayerId) -> Permanent {
    Permanent { controller: c, ..p }
}

/// `handed_to` changes the controller and nothing else.
pub proof fn lemma_handed_to(p: Permanent, c: PlayerId)
    ensures
        handed_to(p, c) == (Permanent { controller: c, ..p }),
        handed_to(p, c).controller == c,
        handed_to(p, c).id == p.id,
        forall|d: PlayerId| #[trigger] handed_to(handed_to(p, c), d) == handed_to(p, d),
        handed_to(p, p.controller) == p,
{
    reveal(handed_to);
}

/// `bf` after the permanents `a` and `b` (the first with each id) swapped controllers,
/// when both are there; otherwise `bf`.
pub open spec fn control_exchanged(bf: Seq<Permanent>, a: ObjectId, b: ObjectId) -> Seq<Permanent> {
    let ia = perm_pos(bf, a);
    let ib = perm_pos(bf, b);
    if ia != -1 && ib != -1 {
        let bf1 = bf.update(ia, handed_to(bf[ia], bf[ib].controller));
        bf1.update(ib, handed_to(bf1[ib], bf[ia].controller))
    } else {
        bf
    }
}

/// Exchanging control of the same two permanents twice gives every permanent back to
/// its former controller.
pub proof fn law_exchanging_twice_restores(bf: Seq<Permanent>, a: ObjectId, b: ObjectId)
    ensures
        control_exchanged(control_exchanged(bf, a, b), a, b) == bf,
{
    lemma_perm_pos(bf, a);
    lemma_perm_pos(bf, b);
    let ia = perm_pos(bf, a);
    let ib = perm_pos(bf, b);
    if ia != -1 && ib != -1 {
        let pa = handed_to(bf[ia], bf[ib].controller);
        let bf1 = bf.update(ia, pa);
        lemma_handed_to(bf[ia], bf[ib].controller);
        lemma_handed_to(bf1[ib], bf[ia].controller);
        let pb = handed_to(bf1[ib], bf[ia].controller);
        let bf2 = bf1.update(ib, pb);
        crate::game::lemma_perm_pos_update(bf, ia, pa, a);
        crate::game::lemma_perm_pos_update(bf, ia, pa, b);
        crate::game::lemma_perm_pos_update(bf1, ib, pb, a);
        crate::game::lemma_perm_pos_update(bf1, ib, pb, b);
        assert(bf2 == control_exchanged(bf, a, b));
        let qa = handed_to(bf2[ia], bf2[ib].controller);
        let bf3 = bf2.update(ia, qa);
        lemma_handed_to(bf2[ia], bf2[ib].controller);
        lemma_handed_to(bf3[ib], bf2[ia].controller);
        lemma_handed_to(bf[ia], bf[ia].controller);
        lemma_handed_to(bf[ib], bf[ib].controller);
        let qb = handed_to(bf3[ib], bf2[ia].controller);
        let bf4 = bf3.update(ib, qb);
        assert(bf4 == control_exchanged(bf2, a, b));
        if ia == ib {
            assert(bf4 =~= bf);
        } else {
            lemma_handed_to(bf[ib], bf[ia].controller);
            assert(bf4 =~= bf);
        }
    }
}

impl GameState {
    /// Whether some permanent on the battlefield has name `name`.
    pub fn any_named(&self, name: CardName) -> (r: bool)
        ensures
            r == name_on_battlefield(self.battlefield@, name),
    {
        let mut i: usize = 0;
        while i < self.battlefield.len()
            invariant
                i <= self.battlefield@.len(),
                forall|j: int| 0 <= j < i ==> self.battlefield@[j].card_name != name,
            decreases self.battlefield@.len() - i,
        {
            if self.battlefield[i].card_name == name {
                return true;
            }
            i = i + 1;
        }
        false
    }

    /// The card name registered for object `id`, if any.
    pub fn card_name_for_id(&self, id: ObjectId) -> (r: Option<CardName>)
        ensures
            r == registered_name(self.card_registry@, id),
    {
        let mut i: usize = 0;
        while i < self.card_registry.len()
            invariant
                i <= self.card_registry@.len(),
                reg_pos_from(self.card_registry@, id, 0) == reg_pos_from(self.card_registry@, id, i as int),
            decreases self.card_registry@.len() - i,
        {
            if self.card_registry[i].0 == id {
                return Some(self.card_registry[i].1);
            }
            i = i + 1;
        }
        None
    }

    /// Where a card that would go to a graveyard actually goes: exile while Rest in Peace is
    /// on the battlefield, the graveyard otherwise.
    pub fn graveyard_destination(&self, _owner: PlayerId) -> (r: DestinationZone)
        ensures
            r == (if name_on_battlefield(self.battlefield@, CardName::RestInPeace) {
                DestinationZone::Exile
            } else {
                DestinationZone::Graveyard
            }),
    {
        if self.any_named(CardName::RestInPeace) {
            DestinationZone::Exile
        } else {
            DestinationZone::Graveyard
        }
    }

    /// Whether Grafdigger's Cage is on the battlefield.
    pub fn grafdiggers_cage_active(&self) -> (r: bool)
        ensures
            r == name_on_battlefield(self.battlefield@, CardName::GrafdiggersCage),
    {
        self.any_named(CardName::GrafdiggersCage)
    }

    /// Whether Containment Priest is on the battlefield.
    pub fn containment_priest_active(&self) -> (r: bool)
        ensures
            r == name_on_battlefield(self.battlefield@, CardName::ContainmentPriest),
    {
        self.any_named(CardName::ContainmentPriest)
    }

    /// Make a player the monarch.
    pub fn become_monarch(&mut self, player_id: PlayerId)
        ensures
            *final(self) == (GameState { monarch: Some(player_id), ..*old(self) }),
    {
        self.monarch = Some(player_id);
    }

    /// Create an emblem for a player.
    pub fn create_emblem(&mut self, player_id: PlayerId, emblem: Emblem)
        ensures
            final(self).emblems@ == old(self).emblems@.push((player_id, emblem)),
            *final(self) == (GameState { emblems: final(self).emblems, ..*old(self) }),
    {
        self.emblems.push((player_id, emblem));
    }

    /// Whether a player has a specific emblem.
    pub fn has_emblem(&self, player_id: PlayerId, emblem: Emblem) -> (r: bool)
        ensures
            r == self.emblems@.contains((player_id, emblem)),
    {
        let mut i: usize = 0;
        while i < self.emblems.len()
            invariant
                i <= self.emblems@.len(),
                forall|j: int| 0 <= j < i ==> self.emblems@[j] != (player_id, emblem),
            decreases self.emblems@.len() - i,
        {
            let (pid, e) = self.emblems[i];
            if pid == player_id && e == emblem {
                assert(self.emblems@[i as int] == (player_id, emblem));
                return true;
            }
            i = i + 1;
        }
        false
    }

    /// Whether any player has a specific emblem.
    pub fn any_player_has_emblem(&self, emblem: Emblem) -> (r: bool)
        ensures
            r == exists|j: int| 0 <= j < self.emblems@.len() && (#[trigger] self.emblems@[j]).1 == emblem,
    {
        let mut i: usize = 0;
        while i < self.emblems.len()
            invariant
                i <= self.emblems@.len(),
                forall|j: int| 0 <= j < i ==> (#[trigger] self.emblems@[j]).1 != emblem,
            decreases self.emblems@.len() - i,
        {
            if self.emblems[i].1 == emblem {
                return true;
            }
            i = i + 1;
        }
        false
    }

    /// Register a delayed trigger.
    pub fn add_delayed_trigger(&mut self, trigger: DelayedTrigger)
        ensures
            final(self).delayed_triggers@ == old(self).delayed_triggers@.push(trigger),
            *final(self) == (GameState { delayed_triggers: final(self).delayed_triggers, ..*old(self) }),
    {
        self.delayed_triggers.push(trigger);
    }

    /// Change the controller of a permanent (the first with that id). Fires no triggers.
    pub fn gain_control(&mut self, perm_id: ObjectId, new_controller: PlayerId)
        ensures
            perm_pos(old(self).battlefield@, perm_id) == -1 ==> *final(self) == *old(self),
            perm_pos(old(self).battlefield@, perm_id) != -1 ==> final(self).battlefield@ == old(
                self,
            ).battlefield@.update(
                perm_pos(old(self).battlefield@, perm_id),
                Permanent {
                    controller: new_controller,
                    ..old(self).battlefield@[perm_pos(old(self).battlefield@, perm_id)]
                },
            ),
            *final(self) == (GameState { battlefield: final(self).battlefield, ..*old(self) }),
    {
        if let Some(perm) = self.find_permanent_mut(perm_id) {
            perm.controller = new_controller;
        }
    }

    /// Exchange controllers between two permanents (only if both are on the battlefield).
    pub fn exchange_control(&mut self, perm_a: ObjectId, perm_b: ObjectId)
        ensures
            final(self).battlefield@ == control_exchanged(old(self).battlefield@, perm_a, perm_b),
            *final(self) == (GameState { battlefield: final(self).battlefield, ..*old(self) }),
    {
        let controller_a = match self.find_permanent(perm_a) {
            Some(p) => Some(p.controller),
            None => None,
        };
        let controller_b = match self.find_permanent(perm_b) {
            Some(p) => Some(p.controller),
            None => None,
        };
        if let (Some(ca), Some(cb)) = (controller_a, controller_b) {
            proof {
                lemma_perm_pos(old(self).battlefield@, perm_a);
                lemma_perm_pos(old(self).battlefield@, perm_b);
            }
            proof {
                let bf = old(self).battlefield@;
                assert(ca == bf[perm_pos(bf, perm_a)].controller);
                assert(cb == bf[perm_pos(bf, perm_b)].controller);
            }
            self.gain_control(perm_a, cb);
            proof {
                let bf = old(self).battlefield@;
                let ia = perm_pos(bf, perm_a);
                crate::game::lemma_perm_pos_update(bf, ia, Permanent { controller: cb, ..bf[ia] }, perm_b);
            }
            let ghost mid = self.battlefield@;
            proof {
                let bf = old(self).battlefield@;
                let ia = perm_pos(bf, perm_a);
                let ib = perm_pos(bf, perm_b);
                assert(mid == bf.update(ia, Permanent { controller: cb, ..bf[ia] }));
                assert(perm_pos(mid, perm_b) == ib);
            }
            self.gain_control(perm_b, ca);
            proof {
                let bf = old(self).battlefield@;
                let ia = perm_pos(bf, perm_a);
                let ib = perm_pos(bf, perm_b);
                let bf1 = bf.update(ia, Permanent { controller: bf[ib].controller, ..bf[ia] });
                lemma_handed_to(bf[ia], bf[ib].controller);
                lemma_handed_to(bf1[ib], bf[ia].controller);
                assert(mid == bf1);
                assert(self.battlefield@ == bf1.update(ib, Permanent { controller: bf[ia].controller, ..bf1[ib] }));
            }
        } else {
            proof {
                lemma_perm_pos(old(self).battlefield@, perm_a);
                lemma_perm_pos(old(self).battlefield@, perm_b);
            }
        }
    }

    /// Both players have passed priority and the stack is empty.
    pub fn both_passed_on_empty_stack(&self) -> (r: bool)
        ensures
            r == (self.stack.items@.len() == 0 && forall|i: int|
                0 <= i < self.passed_priority@.len() ==> #[trigger] self.passed_priority@[i]),
    {
        if !self.stack.is_empty() {
            return false;
        }
        let mut i: usize = 0;
        while i < self.passed_priority.len()
            invariant
                i <= self.passed_priority@.len(),
                forall|j: int| 0 <= j < i ==> #[trigger] self.passed_priority@[j],
            decreases self.passed_priority@.len() - i,
        {
            if !self.passed_priority[i] {
                return false;
            }
            i = i + 1;
        }
        true
    }

    /// Whether the game is over.
    pub fn is_terminal(&self) -> (r: bool)
        ensures
            r == (self.result != GameResult::InProgress),
    {
        !matches!(self.result, GameResult::InProgress)
    }

    /// The dredge value of a card, or `None` if it has no dredge.
    pub fn dredge_value(card_name: CardName) -> (r: Option<u8>)
        ensures
            r == dredge_of(card_name),
    {
        match card_name {
            CardName::GolgariGraveTroll => Some(6),
            CardName::StinkweedImp => Some(5),
            CardName::LifeFromTheLoam => Some(3),
            _ => None,
        }
    }

    /// The first card in the player's graveyard (bottom first) that has dredge N with at
    /// least N cards in the player's library, with its dredge value.
    pub fn find_dredgeable(&self, player: PlayerId) -> (r: Option<(ObjectId, u8)>)
        requires
            player < self.players@.len(),
        ensures
            ({
                let p = self.players@[player as int];
                match r {
                    Some((id, n)) => exists|k: int|
                        0 <= k < p.graveyard@.len() && p.graveyard@[k] == id && #[trigger] dredgeable(
                            self.card_registry@,
                            id,
                            p.library@.len() as int,
                        ) == Some(n) && forall|j: int|
                            0 <= j < k ==> dredgeable(self.card_registry@, p.graveyard@[j], p.library@.len() as int) is None,
                    None => forall|j: int|
                        0 <= j < p.graveyard@.len() ==> #[trigger] dredgeable(
                            self.card_registry@,
                            p.graveyard@[j],
                            p.library@.len() as int,
                        ) is None,
                }
            }),
            r == first_dredgeable_from(self.card_registry@, self.players@[player as int].graveyard@,
                self.players@[player as int].library@.len() as int, 0),
    {
        let pid = player as usize;
        let lib_size = self.players[pid].library.len();
        let mut i: usize = 0;
        while i < self.players[pid].graveyard.len()
            invariant
                pid < self.players@.len(),
                pid == player,
                i <= self.players@[pid as int].graveyard@.len(),
                lib_size == self.players@[pid as int].library@.len(),
                forall|j: int|
                    0 <= j < i ==> #[trigger] dredgeable(
                        self.card_registry@,
                        self.players@[pid as int].graveyard@[j],
                        lib_size as int,
                    ) is None,
                first_dredgeable_from(self.card_registry@, self.players@[pid as int].graveyard@, lib_size as int, 0)
                    == first_dredgeable_from(self.card_registry@, self.players@[pid as int].graveyard@, lib_size as int, i as int),
            decreases self.players@[pid as int].graveyard@.len() - i,
        {
            let card_id = self.players[pid].graveyard[i];
            if let Some(name) = self.card_name_for_id(card_id) {
                if let Some(n) = Self::dredge_value(name) {
                    if lib_size >= n as usize {
                        assert(dredgeable(self.card_registry@, card_id, lib_size as int) == Some(n));
                        assert(self.players@[pid as int].graveyard@[i as int] == card_id);
                        assert(dredgeable(self.card_registry@, self.players@[pid as int].graveyard@[i as int], lib_size as int) == Some(n));
                        return Some((card_id, n));
                    }
                }
            }
            i = i + 1;
        }
        None
    }
}

/// The first card of `gy` from position `k` on that is dredgeable with a library of
/// `lib_size` cards, with its dredge value.
pub open spec fn first_dredgeable_from(reg: Seq<(ObjectId, CardName)>, gy: Seq<ObjectId>, lib_size: int, k: int) -> Option<(ObjectId, u8)>
    decreases gy.len() - k,
{
    if k < 0 || k >= gy.len() {
        None
    } else {
        match dredgeable(reg, gy[k], lib_size) {
            Some(n) => Some((gy[k], n)),
            None => first_dredgeable_from(reg, gy, lib_size, k + 1),
        }
    }
}

/// The dredge value of a card, if it has dredge.
pub open spec fn dredge_of(card_name: CardName) -> Option<u8> {
    match card_name {
        CardName::GolgariGraveTroll => Some(6u8),
        CardName::StinkweedImp => Some(5u8),
        CardName::LifeFromTheLoam => Some(3u8),
        _ => None,
    }
}

/// The dredge value of card `id` if it has dredge N and the library holds at least N cards.
pub open spec fn dredgeable(reg: Seq<(ObjectId, CardName)>, id: ObjectId, lib_size: int) -> Option<u8> {
    match registered_name(reg, id) {
        Some(name) => match dredge_of(name) {
            Some(n) => if lib_size >= n { Some(n) } else { None },
            None => None,
        },
        None => None,
    }
}

} // verus!

verus! {

/// Power of permanent `id` (0 if absent): Tarmogoyf counts the card types among all
/// graveyards, others use their printed power with modifications and counters.
pub open spec fn effective_power_of(g: GameState, db: Seq<CardDef>, id: ObjectId) -> int {
    match perm_with(g.battlefield@, id) {
        None => 0,
        Some(p) => if p.card_name == CardName::Tarmogoyf {
            graveyard_type_count(g, db) + p.power_mod + p.counters.plus_one - p.counters.minus_one
        } else {
            p.power_value()
        },
    }
}

/// Toughness of permanent `id` (0 if absent): Tarmogoyf has one more than the number of
/// card types among all graveyards.
pub open spec fn effective_toughness_of(g: GameState, db: Seq<CardDef>, id: ObjectId) -> int {
    match perm_with(g.battlefield@, id) {
        None => 0,
        Some(p) => if p.card_name == CardName::Tarmogoyf {
            graveyard_type_count(g, db) + 1 + p.toughness_mod + p.counters.plus_one - p.counters.minus_one
        } else {
            p.toughness_value()
        },
    }
}

/// Whether some card in some player's graveyard has a definition with card type `t`.
pub open spec fn graveyard_has_type(g: GameState, db: Seq<CardDef>, t: CardType) -> bool {
    exists|i: int, j: int|
        0 <= i < g.players@.len() && 0 <= j < g.players@[i].graveyard@.len() && #[trigger] card_has_type(
            g.card_registry@,
            db,
            g.players@[i].graveyard@[j],
            t,
        )
}

/// Whether object `id` is registered as a card whose definition has card type `t`.
pub open spec fn card_has_type(reg: Seq<(ObjectId, CardName)>, db: Seq<CardDef>, id: ObjectId, t: CardType) -> bool {
    match registered_name(reg, id) {
        Some(n) => match lookup(db, n) {
            Some(d) => d.card_types@.contains(t),
            None => false,
        },
        None => false,
    }
}

/// 1 if `b`, else 0.
pub open spec fn b2i(b: bool) -> int {
    if b { 1 } else { 0 }
}

/// Number of distinct card types among the cards in all graveyards.
pub open spec fn graveyard_type_count(g: GameState, db: Seq<CardDef>) -> int {
    b2i(graveyard_has_type(g, db, CardType::Land)) + b2i(graveyard_has_type(g, db, CardType::Creature))
        + b2i(graveyard_has_type(g, db, CardType::Artifact)) + b2i(
        graveyard_has_type(g, db, CardType::Enchantment),
    ) + b2i(graveyard_has_type(g, db, CardType::Instant)) + b2i(
        graveyard_has_type(g, db, CardType::Sorcery),
    ) + b2i(graveyard_has_type(g, db, CardType::Planeswalker))
}

/// Index of a card type (Land 0 .. Planeswalker 6).
pub open spec fn type_index(t: CardType) -> int {
    match t {
        CardType::Land => 0,
        CardType::Creature => 1,
        CardType::Artifact => 2,
        CardType::Enchantment => 3,
        CardType::Instant => 4,
        CardType::Sorcery => 5,
        CardType::Planeswalker => 6,
    }
}

/// The card type with index `k` (0..=6).
pub open spec fn type_at(k: int) -> CardType {
    if k == 0 {
        CardType::Land
    } else if k == 1 {
        CardType::Creature
    } else if k == 2 {
        CardType::Artifact
    } else if k == 3 {
        CardType::Enchantment
    } else if k == 4 {
        CardType::Instant
    } else if k == 5 {
        CardType::Sorcery
    } else {
        CardType::Planeswalker
    }
}

impl GameState {
    /// Count the number of distinct card types among all cards in all players' graveyards
    /// (Tarmogoyf).
    pub fn graveyard_card_type_count(&self, db: &[CardDef]) -> (r: i16)
        requires
            self.players@.len() == 2,
        ensures
            r == graveyard_type_count(*self, db@),
    {
        let mut seen: Vec<bool> = vec![false, false, false, false, false, false, false];
        let mut pi: usize = 0;
        while pi < self.players.len()
            invariant
                self.players@.len() == 2,
                pi <= 2,
                seen@.len() == 7,
                forall|k: int|
                    0 <= k < 7 ==> (#[trigger] seen@[k] <==> exists|i: int, j: int|
                        0 <= i < pi && 0 <= j < self.players@[i].graveyard@.len() && #[trigger] card_has_type(
                            self.card_registry@,
                            db@,
                            self.players@[i].graveyard@[j],
                            type_at(k),
                        )),
            decreases 2 - pi,
        {
            let mut gi: usize = 0;
            while gi < self.players[pi].graveyard.len()
                invariant
                    self.players@.len() == 2,
                    pi < 2,
                    gi <= self.players@[pi as int].graveyard@.len(),
                    seen@.len() == 7,
                    forall|k: int|
                        0 <= k < 7 ==> (#[trigger] seen@[k] <==> (exists|i: int, j: int|
                            0 <= i < pi && 0 <= j < self.players@[i].graveyard@.len() && #[trigger] card_has_type(
                                self.card_registry@,
                                db@,
                                self.players@[i].graveyard@[j],
                                type_at(k),
                            )) || (exists|j: int|
                            0 <= j < gi && #[trigger] card_has_type(
                                self.card_registry@,
                                db@,
                                self.players@[pi as int].graveyard@[j],
                                type_at(k),
                            ))),
                decreases self.players@[pi as int].graveyard@.len() - gi,
            {
                let obj_id = self.players[pi].graveyard[gi];
                let ghost before = seen@;
                if let Some(card_name) = self.card_name_for_id(obj_id) {
                    if let Some(def) = find_card(db, card_name) {
                        let mut ti: usize = 0;
                        while ti < def.card_types.len()
                            invariant
                                ti <= def.card_types@.len(),
                                seen@.len() == 7,
                                forall|k: int|
                                    0 <= k < 7 ==> (#[trigger] seen@[k] <==> (before[k] || exists|q: int|
                                        0 <= q < ti && def.card_types@[q] == type_at(k))),
                            decreases def.card_types@.len() - ti,
                        {
                            let ct = def.card_types[ti];
                            let idx: usize = match ct {
                                CardType::Land => 0,
                                CardType::Creature => 1,
                                CardType::Artifact => 2,
                                CardType::Enchantment => 3,
                                CardType::Instant => 4,
                                CardType::Sorcery => 5,
                                CardType::Planeswalker => 6,
                            };
                            assert(type_at(idx as int) == ct);
                            seen.set(idx, true);
                            proof {
                                assert forall|k: int| 0 <= k < 7 implies (#[trigger] seen@[k] <==> (before[k]
                                    || exists|q: int| 0 <= q < ti + 1 && def.card_types@[q] == type_at(k))) by {
                                    if k != idx as int && exists|q: int| 0 <= q < ti + 1 && def.card_types@[q] == type_at(k) {
                                        let q = choose|q: int| 0 <= q < ti + 1 && def.card_types@[q] == type_at(k);
                                        if q == ti as int {
                                            assert(type_at(k) == type_at(idx as int));
                                        }
                                    }
                                }
                            }
                            ti = ti + 1;
                        }
                        proof {
                            assert forall|k: int| 0 <= k < 7 implies (#[trigger] seen@[k] <==> (before[k]
                                || card_has_type(self.card_registry@, db@, obj_id, type_at(k)))) by {
                                if def.card_types@.contains(type_at(k)) {
                                    let q = choose|q: int| 0 <= q < def.card_types@.len() && def.card_types@[q] == type_at(k);
                                }
                            }
                        }
                    }
                }
                proof {
                    assert forall|k: int| 0 <= k < 7 implies (#[trigger] seen@[k] <==> ((exists|i: int, j: int|
                        0 <= i < pi && 0 <= j < self.players@[i].graveyard@.len() && #[trigger] card_has_type(
                            self.card_registry@,
                            db@,
                            self.players@[i].graveyard@[j],
                            type_at(k),
                        )) || (exists|j: int|
                        0 <= j < gi + 1 && #[trigger] card_has_type(
                            self.card_registry@,
                            db@,
                            self.players@[pi as int].graveyard@[j],
                            type_at(k),
                        )))) by {
                        assert(self.players@[pi as int].graveyard@[gi as int] == obj_id);
                    }
                }
                gi = gi + 1;
            }
            proof {
                assert forall|k: int| 0 <= k < 7 implies (#[trigger] seen@[k] <==> exists|i: int, j: int|
                    0 <= i < pi + 1 && 0 <= j < self.players@[i].graveyard@.len() && #[trigger] card_has_type(
                        self.card_registry@,
                        db@,
                        self.players@[i].graveyard@[j],
                        type_at(k),
                    )) by {
                    if exists|i: int, j: int|
                        0 <= i < pi + 1 && 0 <= j < self.players@[i].graveyard@.len() && #[trigger] card_has_type(
                            self.card_registry@,
                            db@,
                            self.players@[i].graveyard@[j],
                            type_at(k),
                        ) {
                        let (i, j) = choose|i: int, j: int|
                            0 <= i < pi + 1 && 0 <= j < self.players@[i].graveyard@.len() && #[trigger] card_has_type(
                                self.card_registry@,
                                db@,
                                self.players@[i].graveyard@[j],
                                type_at(k),
                            );
                        if i == pi as int {
                            assert(card_has_type(self.card_registry@, db@, self.players@[pi as int].graveyard@[j], type_at(k)));
                        }
                    }
                }
            }
            pi = pi + 1;
        }
        let mut count: i16 = 0;
        let mut k: usize = 0;
        while k < 7
            invariant
                k <= 7,
                seen@.len() == 7,
                0 <= count <= k,
                count == (if k > 0 { b2i(seen@[0]) } else { 0 }) + (if k > 1 { b2i(seen@[1]) } else { 0 })
                    + (if k > 2 { b2i(seen@[2]) } else { 0 }) + (if k > 3 { b2i(seen@[3]) } else { 0 })
                    + (if k > 4 { b2i(seen@[4]) } else { 0 }) + (if k > 5 { b2i(seen@[5]) } else { 0 })
                    + (if k > 6 { b2i(seen@[6]) } else { 0 }),
            decreases 7 - k,
        {
            if seen[k] {
                count = count + 1;
            }
            k = k + 1;
        }
        proof {
            assert forall|k: int| 0 <= k < 7 implies (seen@[k] == graveyard_has_type(*self, db@, type_at(k))) by {
                assert(seen@[k] == exists|i: int, j: int|
                    0 <= i < 2 && 0 <= j < self.players@[i].graveyard@.len() && #[trigger] card_has_type(
                        self.card_registry@,
                        db@,
                        self.players@[i].graveyard@[j],
                        type_at(k),
                    ));
            }
            assert(seen@[0] == graveyard_has_type(*self, db@, CardType::Land));
            assert(seen@[1] == graveyard_has_type(*self, db@, CardType::Creature));
            assert(seen@[2] == graveyard_has_type(*self, db@, CardType::Artifact));
            assert(seen@[3] == graveyard_has_type(*self, db@, CardType::Enchantment));
            assert(seen@[4] == graveyard_has_type(*self, db@, CardType::Instant));
            assert(seen@[5] == graveyard_has_type(*self, db@, CardType::Sorcery));
            assert(seen@[6] == graveyard_has_type(*self, db@, CardType::Planeswalker));
        }
        count
    }
}

} // verus!

verus! {

/// Colored mana symbols of `color` in a mana cost.
pub open spec fn symbols_of(cost: crate::mana::ManaCost, color: Color) -> int {
    match color {
        Color::White => cost.white as int,
        Color::Blue => cost.blue as int,
        Color::Black => cost.black as int,
        Color::Red => cost.red as int,
        Color::Green => cost.green as int,
    }
}

/// Devotion to `color` among the first `n` permanents: symbols of that color in the mana
/// costs of nonland permanents controlled by `player` that have a definition.
pub open spec fn devotion_upto(bf: Seq<Permanent>, n: int, player: PlayerId, color: Color, db: Seq<CardDef>) -> int
    decreases n,
{
    if n <= 0 {
        0
    } else {
        let p = bf[n - 1];
        devotion_upto(bf, n - 1, player, color, db) + if p.controller == player
            && !p.has_card_type(CardType::Land) {
            match lookup(db, p.card_name) {
                Some(d) => symbols_of(d.mana_cost, color),
                None => 0,
            }
        } else {
            0
        }
    }
}

impl GameState {
    /// Devotion to a color: colored mana symbols of that color among the mana costs of
    /// nonland permanents the player controls.
    pub fn devotion_to(&self, player: PlayerId, color: Color, db: &[CardDef]) -> (r: u32)
        requires
            self.battlefield@.len() < 0x100_0000,
        ensures
            r == devotion_upto(self.battlefield@, self.battlefield@.len() as int, player, color, db@),
    {
        let mut count: u32 = 0;
        let mut i: usize = 0;
        while i < self.battlefield.len()
            invariant
                i <= self.battlefield@.len() < 0x100_0000,
                count == devotion_upto(self.battlefield@, i as int, player, color, db@),
                count <= 255 * i,
            decreases self.battlefield@.len() - i,
        {
            let perm = &self.battlefield[i];
            if perm.controller == player && !perm.is_land() {
                if let Some(def) = find_card(db, perm.card_name) {
                    let add: u32 = match color {
                        Color::White => def.mana_cost.white as u32,
                        Color::Blue => def.mana_cost.blue as u32,
                        Color::Black => def.mana_cost.black as u32,
                        Color::Red => def.mana_cost.red as u32,
                        Color::Green => def.mana_cost.green as u32,
                    };
                    count = count + add;
                }
            }
            i = i + 1;
        }
        count
    }

    /// Effective power of a permanent (0 if absent). Tarmogoyf's power is the number of
    /// card types in graveyards plus its modifications and counters.
    pub fn effective_power(&self, perm_id: ObjectId, db: &[CardDef]) -> (r: i16)
        requires
            self.within(0),
            self.players@.len() == 2,
        ensures
            r == effective_power_of(*self, db@, perm_id),
    {
        proof {
            lemma_perm_pos(self.battlefield@, perm_id);
        }
        let perm = match self.find_permanent(perm_id) {
            Some(p) => p,
            None => return 0,
        };
        proof {
            assert(self.battlefield@[perm_pos(self.battlefield@, perm_id)].stats_within(0, self.battlefield@.len() as int));
        }
        if perm.card_name == CardName::Tarmogoyf {
            let count = self.graveyard_card_type_count(db);
            count + perm.power_mod + perm.counters.get(CounterType::PlusOnePlusOne)
                - perm.counters.get(CounterType::MinusOneMinusOne)
        } else {
            perm.power()
        }
    }

    /// Effective toughness of a permanent (0 if absent). Tarmogoyf's toughness is one more
    /// than the number of card types in graveyards, plus modifications and counters.
    pub fn effective_toughness(&self, perm_id: ObjectId, db: &[CardDef]) -> (r: i16)
        requires
            self.within(0),
            self.players@.len() == 2,
        ensures
            r == effective_toughness_of(*self, db@, perm_id),
    {
        proof {
            lemma_perm_pos(self.battlefield@, perm_id);
        }
        let perm = match self.find_permanent(perm_id) {
            Some(p) => p,
            None => return 0,
        };
        proof {
            assert(self.battlefield@[perm_pos(self.battlefield@, perm_id)].stats_within(0, self.battlefield@.len() as int));
        }
        if perm.card_name == CardName::Tarmogoyf {
            let count = self.graveyard_card_type_count(db);
            count + 1 + perm.toughness_mod + perm.counters.get(CounterType::PlusOnePlusOne)
                - perm.counters.get(CounterType::MinusOneMinusOne)
        } else {
            perm.toughness()
        }
    }
}

} // verus!

verus! {

/// Creating an emblem changes the answer of the emblem query for that one player and
/// emblem only: afterwards that player has it, and every other query answers as before.
pub proof fn law_emblem_created_only_changes_its_query(g0: GameState, g1: GameState, player: PlayerId, emblem: Emblem)
    requires
        g1.emblems@ == g0.emblems@.push((player, emblem)),
    ensures
        g1.emblems@.contains((player, emblem)),
        forall|q: PlayerId, e: Emblem| (q, e) != (player, emblem) ==>
            (#[trigger] g1.emblems@.contains((q, e)) == g0.emblems@.contains((q, e))),
{
    assert(g1.emblems@[g0.emblems@.len() as int] == (player, emblem));
    assert forall|q: PlayerId, e: Emblem| (q, e) != (player, emblem) implies
        (#[trigger] g1.emblems@.contains((q, e)) == g0.emblems@.contains((q, e))) by {
        if g0.emblems@.contains((q, e)) {
            let k = choose|k: int| 0 <= k < g0.emblems@.len() && g0.emblems@[k] == (q, e);
            assert(g1.emblems@[k] == (q, e));
        }
        if g1.emblems@.contains((q, e)) {
            let k = choose|k: int| 0 <= k < g1.emblems@.len() && g1.emblems@[k] == (q, e);
            assert(k < g0.emblems@.len());
            assert(g0.emblems@[k] == (q, e));
        }
    }
}

} // verus!
