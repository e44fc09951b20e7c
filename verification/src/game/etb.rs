//! What happens when a permanent enters the battlefield.
use vstd::prelude::*;
use crate::action::{DelayedTrigger, DelayedTriggerCondition};
use crate::card::{CardName, CreatureType};
use crate::game::{ChoiceKind, ChoiceReason, DestinationZone, GameState, PendingChoice, perm_pos, lemma_perm_pos};
use crate::game::effects::{name_or_plains, drew, surveiled, treasure_made, damage_dealt};
use crate::game::queries::name_on_battlefield;
use crate::game::zones::{removed_to_zone, actual_destination};
use crate::stack::{StackItemKind, TriggeredEffect};
use crate::types::Target;
use crate::permanent::Permanent;
use crate::player::Player;
use crate::types::{CardType, CounterType, Keywords, ObjectId, PlayerId};

verus! {

/// Which permanents an enters-the-battlefield effect of `me` (controlled by `c`) picks:
/// 0 a creature of another player, 1 an artifact of another player, 2 an artifact or
/// enchantment of another player, 3 a nonbasic land of another player, 4 a creature of
/// the opponent, 5 a creature other than `me`, 6 any permanent of the opponent other than `me`.
pub open spec fn etb_pick(sel: u8, c: PlayerId, me: ObjectId) -> spec_fn(Permanent) -> bool {
    |p: Permanent| {
        if sel == 0 {
            p.controller != c && p.has_card_type(CardType::Creature)
        } else if sel == 1 {
            p.has_card_type(CardType::Artifact) && p.controller != c
        } else if sel == 2 {
            (p.has_card_type(CardType::Artifact) || p.has_card_type(CardType::Enchantment)) && p.controller != c
        } else if sel == 3 {
            p.controller != c && p.has_card_type(CardType::Land) && !crate::movegen::basic_land(p.card_name)
        } else if sel == 4 {
            p.has_card_type(CardType::Creature) && p.controller == 1 - c
        } else if sel == 5 {
            p.has_card_type(CardType::Creature) && p.id != me
        } else {
            p.controller == 1 - c && p.id != me
        }
    }
}

/// Index of the first permanent of `bf` at or after `k` that `f` accepts, or -1.
pub open spec fn first_where_from(bf: Seq<Permanent>, f: spec_fn(Permanent) -> bool, k: int) -> int
    decreases bf.len() - k,
{
    if k < 0 || k >= bf.len() {
        -1
    } else if f(bf[k]) {
        k
    } else {
        first_where_from(bf, f, k + 1)
    }
}

/// Index of the first permanent of `bf` that `f` accepts, or -1.
pub open spec fn first_where(bf: Seq<Permanent>, f: spec_fn(Permanent) -> bool) -> int {
    first_where_from(bf, f, 0)
}

/// `first_where_from` is -1 or an accepted index at or after `k`.
proof fn lemma_first_where_from(bf: Seq<Permanent>, f: spec_fn(Permanent) -> bool, k: int)
    requires
        0 <= k,
    ensures
        first_where_from(bf, f, k) == -1 || (k <= first_where_from(bf, f, k) < bf.len() && f(bf[first_where_from(bf, f, k)])),
    decreases bf.len() - k,
{
    if k < bf.len() && !f(bf[k]) {
        lemma_first_where_from(bf, f, k + 1);
    }
}

/// `g1` is `g0` with `n` more counters of kind `kind` on permanent `id` (when it is there).
pub open spec fn counters_added(g0: GameState, g1: GameState, id: ObjectId, kind: CounterType, n: int) -> bool {
    let bf = g0.battlefield@;
    let i = perm_pos(bf, id);
    if i < 0 {
        g1 == g0
    } else {
        let c1 = g1.battlefield@[i].counters;
        &&& g1.battlefield@ == bf.update(i, Permanent { counters: c1, ..bf[i] })
        &&& forall|k: CounterType| #[trigger] c1.count(k) == bf[i].counters.count(k) + (if k == kind { n } else { 0 })
        &&& g1 == (GameState { battlefield: g1.battlefield, ..g0 })
    }
}

/// `g1` is `g0` with permanent `id` (when it is there) tapped (`tap`) or kept from
/// untapping (`!tap`).
pub open spec fn flagged(g0: GameState, g1: GameState, id: ObjectId, tap: bool) -> bool {
    let bf = g0.battlefield@;
    let i = perm_pos(bf, id);
    if i < 0 {
        g1 == g0
    } else {
        &&& g1.battlefield@ == bf.update(i, if tap { Permanent { tapped: true, ..bf[i] } } else { Permanent { doesnt_untap: true, ..bf[i] } })
        &&& g1 == (GameState { battlefield: g1.battlefield, ..g0 })
    }
}

/// The top `m` cards of `lib`, topmost first.
pub open spec fn top_down(lib: Seq<ObjectId>, m: int) -> Seq<ObjectId> {
    Seq::new(m as nat, |k: int| lib[lib.len() - 1 - k])
}

/// `g1` is `g0` after player `p` milled `n` cards: the top cards (as many as there are),
/// one at a time, go from the library to the graveyard.
pub open spec fn milled(g0: GameState, g1: GameState, p: int, n: int) -> bool {
    let p0 = g0.players@[p];
    let lib = p0.library@;
    let m = crate::game::min2(n, lib.len() as int);
    &&& g1.players@ == g0.players@.update(p, Player { library: g1.players@[p].library, graveyard: g1.players@[p].graveyard, ..p0 })
    &&& g1.players@[p].library@ == lib.subrange(0, lib.len() - m)
    &&& g1.players@[p].graveyard@ == p0.graveyard@ + top_down(lib, m)
    &&& g1 == (GameState { players: g1.players, ..g0 })
}

/// Exile entries for the cards of `gy`, owned by `p`.
pub open spec fn tagged(gy: Seq<ObjectId>, reg: Seq<(ObjectId, CardName)>, p: PlayerId) -> Seq<(ObjectId, CardName, PlayerId)> {
    gy.map_values(|id: ObjectId| (id, name_or_plains(reg, id), p))
}

/// `g1` is `g0` after both graveyards were exiled.
pub open spec fn graveyards_exiled(g0: GameState, g1: GameState) -> bool {
    let reg = g0.card_registry@;
    &&& g1.players@.len() == 2
    &&& forall|p: int| 0 <= p < 2 ==> #[trigger] g1.players@[p] == (Player { graveyard: g1.players@[p].graveyard, ..g0.players@[p] })
        && g1.players@[p].graveyard@.len() == 0
    &&& g1.exile@ == g0.exile@ + tagged(g0.players@[0].graveyard@, reg, 0) + tagged(g0.players@[1].graveyard@, reg, 1)
    &&& g1 == (GameState { players: g1.players, exile: g1.exile, ..g0 })
}

/// `s` back to front.
pub open spec fn reversed(s: Seq<ObjectId>) -> Seq<ObjectId> {
    Seq::new(s.len(), |k: int| s[s.len() - 1 - k])
}

/// `g1` is `g0` after player `p`'s graveyard went under their library, one card at a
/// time onto the bottom.
pub open spec fn graveyard_under_library(g0: GameState, g1: GameState, p: int) -> bool {
    let p0 = g0.players@[p];
    &&& g1.players@ == g0.players@.update(p, Player { library: g1.players@[p].library, graveyard: g1.players@[p].graveyard, ..p0 })
    &&& g1.players@[p].graveyard@.len() == 0
    &&& g1.players@[p].library@ == reversed(p0.graveyard@) + p0.library@
    &&& g1 == (GameState { players: g1.players, ..g0 })
}

/// `g1` is `g0` after a creature token named `name` with `power`/`toughness` and
/// `types` entered under `c` with the next object id.
pub open spec fn creature_token_made(g0: GameState, g1: GameState, name: CardName, c: PlayerId, power: i16, toughness: i16, types: Seq<CreatureType>) -> bool {
    &&& crate::game::abilities::token_made(g0, g1, name, c, power, toughness, Keywords(0), seq![CardType::Creature])
    &&& g1.battlefield@.last().creature_types@ == types
}

impl GameState {
    /// Index of the first permanent that `etb_pick(sel, c, me)` accepts.
    fn find_pick(&self, sel: u8, c: PlayerId, me: ObjectId) -> (r: Option<usize>)
        requires
            c < 2,
        ensures
            match r {
                Some(i) => i as int == first_where(self.battlefield@, etb_pick(sel, c, me)) && i < self.battlefield@.len(),
                None => first_where(self.battlefield@, etb_pick(sel, c, me)) == -1,
            },
    {
        let ghost f = etb_pick(sel, c, me);
        let opp: PlayerId = 1 - c;
        let mut i: usize = 0;
        while i < self.battlefield.len()
            invariant
                i <= self.battlefield@.len(),
                f == etb_pick(sel, c, me),
                first_where(self.battlefield@, f) == first_where_from(self.battlefield@, f, i as int),
                opp == 1 - c,
            decreases self.battlefield@.len() - i,
        {
            let p = &self.battlefield[i];
            let ok = if sel == 0 {
                p.controller != c && p.is_creature()
            } else if sel == 1 {
                p.is_artifact() && p.controller != c
            } else if sel == 2 {
                (p.is_artifact() || p.is_enchantment()) && p.controller != c
            } else if sel == 3 {
                p.controller != c && p.is_land() && !self.is_basic_land(p)
            } else if sel == 4 {
                p.is_creature() && p.controller == opp
            } else if sel == 5 {
                p.is_creature() && p.id != me
            } else {
                p.controller == opp && p.id != me
            };
            proof { assert(ok == f(*p)); }
            if ok {
                return Some(i);
            }
            i = i + 1;
        }
        None
    }

    /// Put `n` more counters of kind `kind` on permanent `id` (see `counters_added`).
    pub(crate) fn add_counters(&mut self, id: ObjectId, kind: CounterType, n: u8)
        requires
            perm_pos(old(self).battlefield@, id) >= 0 ==> old(self).battlefield@[perm_pos(old(self).battlefield@, id)].counters.count(kind) + n <= i16::MAX,
        ensures
            counters_added(*old(self), *final(self), id, kind, n as int),
    {
        proof { lemma_perm_pos(self.battlefield@, id); }
        match self.find_permanent_mut(id) {
            Some(perm) => perm.counters.add(kind, n as i16),
            None => {},
        }
    }

    /// Tap permanent `id`, or keep it from untapping (see `flagged`).
    pub(crate) fn flag(&mut self, id: ObjectId, tap: bool)
        ensures
            flagged(*old(self), *final(self), id, tap),
    {
        proof { lemma_perm_pos(self.battlefield@, id); }
        match self.find_permanent_mut(id) {
            Some(perm) => {
                if tap {
                    perm.tapped = true;
                } else {
                    perm.doesnt_untap = true;
                }
            },
            None => {},
        }
    }

    /// Player `p` mills `n` cards (see `milled`).
    pub(crate) fn mill(&mut self, p: usize, n: u8)
        requires
            p < old(self).players@.len(),
        ensures
            milled(*old(self), *final(self), p as int, n as int),
    {
        let ghost lib = self.players@[p as int].library@;
        let ghost gy = self.players@[p as int].graveyard@;
        let mut library = crate::player::copy_ids(&self.players[p].library);
        let mut graveyard = crate::player::copy_ids(&self.players[p].graveyard);
        let mut k: u8 = 0;
        while k < n
            invariant
                k <= n,
                ({
                    let m = crate::game::min2(k as int, lib.len() as int);
                    &&& library@ == lib.subrange(0, lib.len() - m)
                    &&& graveyard@ == gy + top_down(lib, m)
                }),
            decreases n - k,
        {
            let ghost m = crate::game::min2(k as int, lib.len() as int);
            match library.pop() {
                Some(id) => {
                    graveyard.push(id);
                    proof {
                        assert(m < lib.len());
                        assert(id == lib[lib.len() - 1 - m]);
                        assert(top_down(lib, m + 1) =~= top_down(lib, m).push(id));
                        assert(lib.subrange(0, lib.len() - m).drop_last() =~= lib.subrange(0, lib.len() - (m + 1)));
                        assert(gy + top_down(lib, m + 1) =~= (gy + top_down(lib, m)).push(id));
                    }
                },
                None => {},
            }
            k = k + 1;
        }
        self.players[p].library = library;
        self.players[p].graveyard = graveyard;
        proof {
            assert(self.players@ =~= old(self).players@.update(p as int, Player {
                library: self.players@[p as int].library,
                graveyard: self.players@[p as int].graveyard,
                ..old(self).players@[p as int]
            }));
        }
    }

    /// Exile the graveyard of player `pid`, each card as an entry owned by `pid`.
    pub(crate) fn exile_graveyard_of(&mut self, pid: usize)
        requires
            pid < old(self).players@.len(),
        ensures
            final(self).players@ == old(self).players@.update(pid as int, Player { graveyard: final(self).players@[pid as int].graveyard, ..old(self).players@[pid as int] }),
            final(self).players@[pid as int].graveyard@.len() == 0,
            final(self).exile@ == old(self).exile@ + tagged(old(self).players@[pid as int].graveyard@, old(self).card_registry@, pid as PlayerId),
            *final(self) == (GameState { players: final(self).players, exile: final(self).exile, ..*old(self) }),
    {
        let ghost reg = self.card_registry@;
        let ghost gy = self.players@[pid as int].graveyard@;
        let mut j: usize = 0;
        while j < self.players[pid].graveyard.len()
            invariant
                pid < self.players@.len(),
                *self == (GameState { exile: self.exile, ..*old(self) }),
                gy == self.players@[pid as int].graveyard@,
                reg == self.card_registry@,
                j <= gy.len(),
                self.exile@ == old(self).exile@ + tagged(gy.subrange(0, j as int), reg, pid as PlayerId),
            decreases gy.len() - j,
        {
            let id = self.players[pid].graveyard[j];
            let name = match self.card_name_for_id(id) {
                Some(n) => n,
                None => CardName::Plains,
            };
            self.exile.push((id, name, pid as PlayerId));
            proof {
                assert(gy.subrange(0, j as int + 1) =~= gy.subrange(0, j as int).push(id));
                assert(tagged(gy.subrange(0, j as int + 1), reg, pid as PlayerId)
                    =~= tagged(gy.subrange(0, j as int), reg, pid as PlayerId).push((id, name_or_plains(reg, id), pid as PlayerId)));
            }
            j = j + 1;
        }
        proof { assert(gy.subrange(0, j as int) =~= gy); }
        self.players[pid].graveyard = Vec::new();
        proof {
            assert(self.players@ =~= old(self).players@.update(pid as int, Player { graveyard: self.players@[pid as int].graveyard, ..old(self).players@[pid as int] }));
        }
    }

    /// Exile both graveyards (see `graveyards_exiled`).
    fn exile_graveyards(&mut self)
        requires
            old(self).players@.len() == 2,
        ensures
            graveyards_exiled(*old(self), *final(self)),
    {
        self.exile_graveyard_of(0);
        let ghost g1 = *self;
        self.exile_graveyard_of(1);
        proof {
            assert(self.players@[0] == g1.players@[0]);
            assert(self.exile@ =~= old(self).exile@ + tagged(old(self).players@[0].graveyard@, old(self).card_registry@, 0)
                + tagged(old(self).players@[1].graveyard@, old(self).card_registry@, 1));
        }
    }

    /// Put player `p`'s graveyard under their library (see `graveyard_under_library`).
    fn graveyard_to_bottom(&mut self, p: usize)
        requires
            p < old(self).players@.len(),
        ensures
            graveyard_under_library(*old(self), *final(self), p as int),
    {
        let ghost gy = self.players@[p as int].graveyard@;
        let ghost lib = self.players@[p as int].library@;
        let moving = crate::player::copy_ids(&self.players[p].graveyard);
        let mut library = crate::player::copy_ids(&self.players[p].library);
        let mut j: usize = 0;
        while j < moving.len()
            invariant
                moving@ == gy,
                j <= gy.len(),
                library@ == reversed(gy.subrange(0, j as int)) + lib,
            decreases gy.len() - j,
        {
            let ghost before = library@;
            library.insert(0, moving[j]);
            proof {
                let s0 = gy.subrange(0, j as int);
                let s1 = gy.subrange(0, j as int + 1);
                assert(reversed(s1) =~= seq![gy[j as int]] + reversed(s0));
                assert(library@ =~= seq![gy[j as int]] + before);
            }
            j = j + 1;
        }
        proof { assert(gy.subrange(0, j as int) =~= gy); }
        self.players[p].library = library;
        self.players[p].graveyard = Vec::new();
        proof {
            assert(self.players@ =~= old(self).players@.update(p as int, Player {
                library: self.players@[p as int].library,
                graveyard: self.players@[p as int].graveyard,
                ..old(self).players@[p as int]
            }));
        }
    }

    /// A creature token for `c` (see `creature_token_made`).
    fn make_creature_token(&mut self, name: CardName, c: PlayerId, power: i16, toughness: i16, types: Vec<CreatureType>)
        requires
            old(self).next_object_id < u32::MAX,
        ensures
            creature_token_made(*old(self), *final(self), name, c, power, toughness, types@),
    {
        let id = self.new_object_id();
        let kinds = [CardType::Creature];
        let mut token = Permanent::new(id, name, c, c, Some(power), Some(toughness), None, Keywords::empty(), &kinds);
        token.is_token = true;
        token.creature_types = types;
        proof {
            assert(token.counters.count(CounterType::PlusOnePlusOne) == 0);
            assert(token.counters.count(CounterType::MinusOneMinusOne) == 0);
            assert(token.counters.count(CounterType::Lore) == 0);
            assert(token.counters.count(CounterType::Burden) == 0);
            assert(token.counters.count(CounterType::Charge) == 0);
            assert(token.counters.count(CounterType::Stun) == 0);
            assert(token.card_types@ =~= seq![CardType::Creature]);
        }
        self.battlefield.push(token);
        proof { assert(self.battlefield@.drop_last() =~= old(self).battlefield@); }
    }
}


/// `q` is `p` with the same numbers, owner and controller (flags may differ).
pub open spec fn same_numbers(q: Permanent, p: Permanent) -> bool {
    &&& q.base_power == p.base_power
    &&& q.base_toughness == p.base_toughness
    &&& q.power_mod == p.power_mod
    &&& q.toughness_mod == p.toughness_mod
    &&& q.damage == p.damage
    &&& q.loyalty == p.loyalty
    &&& q.counters == p.counters
    &&& q.attachments@.len() == p.attachments@.len()
    &&& q.owner == p.owner
    &&& q.controller == p.controller
}

/// Changing only flags of one permanent keeps well-formedness and every bound.
pub(crate) proof fn lemma_flag_kept(g0: GameState, g1: GameState, i: int, k: int)
    requires
        0 <= i < g0.battlefield@.len(),
        g0.within(k),
        g1.battlefield@ == g0.battlefield@.update(i, g1.battlefield@[i]),
        same_numbers(g1.battlefield@[i], g0.battlefield@[i]),
        g1 == (GameState { battlefield: g1.battlefield, ..g0 }),
    ensures
        g0.wf() ==> g1.wf(),
        g1.within(k),
{
    let n = g0.battlefield@.len() as int;
    assert forall|j: int| 0 <= j < n implies #[trigger] g1.battlefield@[j].stats_within(k, n) by {
        assert(g0.battlefield@[j].stats_within(k, n));
    }
    assert forall|j: int| 0 <= j < n implies (#[trigger] g1.battlefield@[j]).owner < 2 && g1.battlefield@[j].controller < 2 by {
        assert(g0.battlefield@[j].owner < 2);
    }
    assert forall|j: int| 0 <= j < g1.players@.len() implies #[trigger] g1.players@[j].stats_within(k) by {
        assert(g0.players@[j].stats_within(k));
    }
}

/// Adding at most 255 counters of one kind to one permanent uses one step of room.
pub(crate) proof fn lemma_counters_step(g0: GameState, g1: GameState, id: ObjectId, kind: CounterType, n: int, k: int)
    requires
        1 <= k,
        0 <= n <= 255,
        g0.within(k),
        counters_added(g0, g1, id, kind, n),
    ensures
        g0.wf() ==> g1.wf(),
        g1.within(k - 1),
{
    crate::game::bounds::lemma_within_mono(g0, k, k - 1);
    let bf = g0.battlefield@;
    let i = perm_pos(bf, id);
    lemma_perm_pos(bf, id);
    if i >= 0 {
        let nb = bf.len() as int;
        assert(bf[i].stats_within(k, nb));
        let c1 = g1.battlefield@[i].counters;
        assert(c1.count(CounterType::PlusOnePlusOne) == bf[i].counters.count(CounterType::PlusOnePlusOne) + (if CounterType::PlusOnePlusOne == kind { n } else { 0 }));
        assert(c1.count(CounterType::MinusOneMinusOne) == bf[i].counters.count(CounterType::MinusOneMinusOne) + (if CounterType::MinusOneMinusOne == kind { n } else { 0 }));
        assert(c1.count(CounterType::Lore) == bf[i].counters.count(CounterType::Lore) + (if CounterType::Lore == kind { n } else { 0 }));
        assert(c1.count(CounterType::Burden) == bf[i].counters.count(CounterType::Burden) + (if CounterType::Burden == kind { n } else { 0 }));
        assert(c1.count(CounterType::Charge) == bf[i].counters.count(CounterType::Charge) + (if CounterType::Charge == kind { n } else { 0 }));
        assert(c1.count(CounterType::Stun) == bf[i].counters.count(CounterType::Stun) + (if CounterType::Stun == kind { n } else { 0 }));
        assert(g1.battlefield@[i].stats_within(k - 1, nb));
        assert forall|j: int| 0 <= j < nb implies #[trigger] g1.battlefield@[j].stats_within(k - 1, nb) by {
            if j != i {
                assert(g0.battlefield@[j].stats_within(k - 1, nb));
            }
        }
        assert forall|j: int| 0 <= j < nb implies (#[trigger] g1.battlefield@[j]).owner < 2 && g1.battlefield@[j].controller < 2 by {
            assert(g0.battlefield@[j].owner < 2);
        }
        assert forall|j: int| 0 <= j < g1.players@.len() implies #[trigger] g1.players@[j].stats_within(k - 1) by {
            assert(g0.players@[j].stats_within(k - 1));
        }
    }
}


/// Torpor Orb is on the battlefield and permanent `id` is a creature: its entering
/// triggers nothing.
pub open spec fn torpor_stops(bf: Seq<Permanent>, id: ObjectId) -> bool {
    &&& name_on_battlefield(bf, CardName::TorporOrb)
    &&& perm_pos(bf, id) >= 0
    &&& bf[perm_pos(bf, id)].has_card_type(CardType::Creature)
}

/// `g1` is `g0` with delayed trigger `t` added.
pub open spec fn delayed_added(g0: GameState, g1: GameState, t: DelayedTrigger) -> bool {
    &&& g1.delayed_triggers@ == g0.delayed_triggers@.push(t)
    &&& g1 == (GameState { delayed_triggers: g1.delayed_triggers, ..g0 })
}

/// `g1` is `g0` with the triggered ability `effect` of `name` (object `id`, controller
/// `c`) put on the stack with `targets`.
pub open spec fn trigger_pushed(g0: GameState, g1: GameState, name: CardName, id: ObjectId, c: PlayerId, effect: TriggeredEffect, targets: Seq<Target>) -> bool {
    &&& crate::apply::item_pushed(g0.stack, g1.stack, StackItemKind::TriggeredAbility { source_id: id, source_name: name, effect }, c, targets)
    &&& g1 == (GameState { stack: g1.stack, ..g0 })
}

/// `g1` is `g0` after the first permanent that `etb_pick(sel, c, me)` accepts (if any)
/// was destroyed.
pub open spec fn destroyed_first(g0: GameState, g1: GameState, sel: u8, c: PlayerId, me: ObjectId) -> bool {
    let bf = g0.battlefield@;
    let j = first_where(bf, etb_pick(sel, c, me));
    if j < 0 {
        g1 == g0
    } else {
        exists|r: Option<Permanent>| #[trigger] removed_to_zone(g0, g1, bf[j].id, actual_destination(DestinationZone::Graveyard, bf), r)
    }
}

/// The creature Talon Gates of Madara (object `me`, controller `c`) phases out: the first
/// creature of the opponent, else the first other creature.
pub open spec fn talon_target(bf: Seq<Permanent>, c: PlayerId, me: ObjectId) -> int {
    let j = first_where(bf, etb_pick(4, c, me));
    if j >= 0 { j } else { first_where(bf, etb_pick(5, c, me)) }
}

/// `g1` is `g0` after the enters-the-battlefield effects of `name` (object `id`,
/// controller `c`, announced X `x`):
/// - with Torpor Orb out and a creature entering, only Walking Ballista and Stonecoil
///   Serpent get their X +1/+1 counters;
/// - Thought Monitor: a draw-two trigger; Agent of Treachery: a trigger to take the first
///   permanent of the opponent; Delver of Secrets and Mana Crypt: their upkeep triggers;
/// - Fury: 4 damage to the first creature of another player; Manglehorn, Loran of the
///   Third Path, Witch Enchanter and White Orchid Phantom destroy the first permanent of
///   their kind another player controls; Talon Gates of Madara exiles a creature until
///   the next end step; Palace Jailer makes `c` the monarch and exiles the first creature
///   of another player until it leaves;
/// - Mai mills two for each player, Emry four for `c`; Rest in Peace exiles both
///   graveyards; Endurance puts the opponent's graveyard under their library; Atraxa
///   draws four and Thundertrap Trainer one;
/// - Mana Vault, Grim Monolith and Time Vault do not untap; Shatterskull and (after
///   turn 3) Starting Town enter tapped; the surveil lands enter tapped and surveil 1;
/// - Ajani and Voice of Victory make their creature tokens; Generous Plunderer gives
///   each player a Treasure;
/// - Walking Ballista and Stonecoil Serpent get X +1/+1 counters, Chalice of the Void and
///   Engineered Explosives X charge counters.
pub open spec fn etb_handled(g0: GameState, g1: GameState, name: CardName, id: ObjectId, c: PlayerId, x: u8) -> bool {
    let bf = g0.battlefield@;
    let tid = |j: int| bf[j].id;
    if torpor_stops(bf, id) {
        match name {
            CardName::WalkingBallista | CardName::StonecoilSerpent =>
                if x > 0 { counters_added(g0, g1, id, CounterType::PlusOnePlusOne, x as int) } else { g1 == g0 },
            _ => g1 == g0,
        }
    } else {
        match name {
            CardName::ThoughtMonitor => trigger_pushed(g0, g1, name, id, c, TriggeredEffect::DrawCards(2), Seq::empty()),
            CardName::AgentOfTreachery => {
                let j = first_where(bf, etb_pick(6, c, id));
                if j < 0 { g1 == g0 } else {
                    trigger_pushed(g0, g1, name, id, c, TriggeredEffect::GainControlOfPermanent, seq![Target::Object(tid(j))])
                }
            },
            CardName::DelverOfSecrets => delayed_added(g0, g1, DelayedTrigger {
                condition: DelayedTriggerCondition::AtBeginningOfUpkeep { player: c },
                effect: TriggeredEffect::DelverUpkeep { delver_id: id },
                controller: c,
                fires_once: false,
            }),
            CardName::ManaCrypt => delayed_added(g0, g1, DelayedTrigger {
                condition: DelayedTriggerCondition::AtBeginningOfUpkeep { player: c },
                effect: TriggeredEffect::ManaCryptUpkeep,
                controller: c,
                fires_once: false,
            }),
            CardName::Fury => {
                let j = first_where(bf, etb_pick(0, c, id));
                if j < 0 { g1 == g0 } else { damage_dealt(g0, g1, Target::Object(tid(j)), 4) }
            },
            CardName::Manglehorn => destroyed_first(g0, g1, 1, c, id),
            CardName::LoranOfTheThirdPath | CardName::WitchEnchanter => destroyed_first(g0, g1, 2, c, id),
            CardName::WhiteOrchidPhantom => destroyed_first(g0, g1, 3, c, id),
            CardName::TalonGatesOfMadara => {
                let j = talon_target(bf, c, id);
                if j < 0 { g1 == g0 } else {
                    exists|gm: GameState, r: Option<Permanent>| #[trigger] removed_to_zone(g0, gm, tid(j), DestinationZone::Exile, r)
                        && match r {
                            Some(p) => delayed_added(gm, g1, DelayedTrigger {
                                condition: DelayedTriggerCondition::AtBeginningOfNextEndStep,
                                effect: TriggeredEffect::ExileLinkedReturn { card_id: tid(j), card_owner: p.owner },
                                controller: c,
                                fires_once: true,
                            }),
                            None => g1 == gm,
                        }
                }
            },
            CardName::PalaceJailer => {
                let j = first_where(bf, etb_pick(0, c, id));
                if j < 0 { g1 == (GameState { monarch: Some(c), ..g0 }) } else {
                    exists|gl: GameState, r: Option<Permanent>|
                        gl.exile_linked@ == g0.exile_linked@.push((id, tid(j)))
                        && gl == (GameState { exile_linked: gl.exile_linked, monarch: Some(c), ..g0 })
                        && #[trigger] removed_to_zone(gl, g1, tid(j), DestinationZone::Exile, r)
                }
            },
            CardName::MaiScornfulStriker => exists|gm: GameState| #[trigger] milled(g0, gm, 0, 2) && milled(gm, g1, 1, 2),
            CardName::EmryLurkerOfTheLoch => milled(g0, g1, c as int, 4),
            CardName::RestInPeace => graveyards_exiled(g0, g1),
            CardName::Endurance => graveyard_under_library(g0, g1, 1 - c),
            CardName::AtraxaGrandUnifier => drew(g0, g1, c, 4),
            CardName::ThundertrapTrainer => drew(g0, g1, c, 1),
            CardName::ManaVault | CardName::GrimMonolith | CardName::TimeVault => flagged(g0, g1, id, false),
            CardName::ShatterskullTheHammerPass => flagged(g0, g1, id, true),
            CardName::StartingTown => if g0.turn_number > 3 { flagged(g0, g1, id, true) } else { g1 == g0 },
            CardName::HallowedFountain | CardName::WateryGrave | CardName::BloodCrypt | CardName::StompingGround
            | CardName::TempleGarden | CardName::GodlessShrine | CardName::SteamVents | CardName::OvergrownTomb
            | CardName::SacredFoundry | CardName::BreedingPool => g1 == (GameState {
                pending_choice: Some(PendingChoice {
                    player: c,
                    kind: ChoiceKind::ChooseNumber { min: 0, max: 1, reason: ChoiceReason::ShockLandETB { card_id: id } },
                }),
                ..g0
            }),
            CardName::MeticulousArchive | CardName::UndercitySewers | CardName::ThunderingFalls | CardName::HedgeMaze =>
                exists|gm: GameState| #[trigger] flagged(g0, gm, id, true) && surveiled(gm, g1, c, 1, false),
            CardName::AjaniNacatlPariah => creature_token_made(g0, g1, name, c, 2, 1, seq![CreatureType::Cat, CreatureType::Warrior]),
            CardName::VoiceOfVictory => creature_token_made(g0, g1, name, c, 1, 1, seq![CreatureType::Human]),
            CardName::GenerousPlunderer => exists|gm: GameState| #[trigger] treasure_made(g0, gm, 0) && treasure_made(gm, g1, 1),
            CardName::WalkingBallista | CardName::StonecoilSerpent =>
                if x > 0 { counters_added(g0, g1, id, CounterType::PlusOnePlusOne, x as int) } else { g1 == g0 },
            CardName::ChaliceOfTheVoid | CardName::EngineeredExplosives => counters_added(g0, g1, id, CounterType::Charge, x as int),
            _ => g1 == g0,
        }
    }
}


impl GameState {
    /// The enters-the-battlefield effects that put a trigger on the stack or set up a
    /// delayed trigger.
    fn etb_triggers(&mut self, name: CardName, id: ObjectId, c: PlayerId)
        requires
            old(self).wf(),
            c < 2,
            !torpor_stops(old(self).battlefield@, id),
            name == CardName::ThoughtMonitor || name == CardName::AgentOfTreachery || name == CardName::DelverOfSecrets
                || name == CardName::ManaCrypt,
        ensures
            etb_handled(*old(self), *final(self), name, id, c, 0),
            crate::game::bounds::stats_frame(*old(self), *final(self)),
    {
        match name {
            CardName::ThoughtMonitor => {
                self.stack.push(StackItemKind::TriggeredAbility { source_id: id, source_name: name, effect: TriggeredEffect::DrawCards(2) }, c, Vec::new());
                proof { assert(self.stack.items@.drop_last() =~= old(self).stack.items@); }
            },
            CardName::AgentOfTreachery => {
                match self.find_pick(6, c, id) {
                    Some(j) => {
                        let mut targets: Vec<Target> = Vec::new();
                        targets.push(Target::Object(self.battlefield[j].id));
                        self.stack.push(StackItemKind::TriggeredAbility { source_id: id, source_name: name, effect: TriggeredEffect::GainControlOfPermanent }, c, targets);
                        proof { assert(self.stack.items@.drop_last() =~= old(self).stack.items@); }
                    },
                    None => {},
                }
            },
            CardName::DelverOfSecrets => {
                self.add_delayed_trigger(DelayedTrigger {
                    condition: DelayedTriggerCondition::AtBeginningOfUpkeep { player: c },
                    effect: TriggeredEffect::DelverUpkeep { delver_id: id },
                    controller: c,
                    fires_once: false,
                });
            },
            _ => {
                self.add_delayed_trigger(DelayedTrigger {
                    condition: DelayedTriggerCondition::AtBeginningOfUpkeep { player: c },
                    effect: TriggeredEffect::ManaCryptUpkeep,
                    controller: c,
                    fires_once: false,
                });
            },
        }
    }

    /// The enters-the-battlefield effects that damage, destroy or exile another permanent.
    fn etb_removals(&mut self, name: CardName, id: ObjectId, c: PlayerId)
        requires
            old(self).wf(),
            old(self).within(2),
            c < 2,
            !torpor_stops(old(self).battlefield@, id),
            name == CardName::Fury || name == CardName::Manglehorn || name == CardName::LoranOfTheThirdPath
                || name == CardName::WitchEnchanter || name == CardName::WhiteOrchidPhantom
                || name == CardName::TalonGatesOfMadara || name == CardName::PalaceJailer,
        ensures
            etb_handled(*old(self), *final(self), name, id, c, 0),
            final(self).wf(),
            final(self).within(0),
    {
        let ghost g0 = *self;
        proof { crate::game::bounds::lemma_within_mono(g0, 2, 0); }
        match name {
            CardName::Fury => {
                match self.find_pick(0, c, id) {
                    Some(j) => {
                        let tid = self.battlefield[j].id;
                        proof {
                            lemma_perm_pos(g0.battlefield@, tid);
                            let k = perm_pos(g0.battlefield@, tid);
                            assert(g0.battlefield@[k].stats_within(2, g0.battlefield@.len() as int));
                        }
                        self.deal_damage_to_target(Target::Object(tid), 4, c);
                        proof {
                            assert(crate::game::effects::damage_fits(g0, Target::Object(tid), 4));
                            crate::game::effects::lemma_damage_step(g0, *self, Target::Object(tid), 4, 2);
                            assert(self.within(1));
                            crate::game::bounds::lemma_within_mono(*self, 1, 0);
                            assert(self.within(0));
                        }
                    },
                    None => {
                        assert(self.within(0));
                    },
                }
            },
            CardName::TalonGatesOfMadara => {
                let pick = match self.find_pick(4, c, id) {
                    Some(j) => Some(j),
                    None => self.find_pick(5, c, id),
                };
                match pick {
                    Some(j) => {
                        let tid = self.battlefield[j].id;
                        let r = self.remove_permanent_to_zone(tid, DestinationZone::Exile);
                        let ghost gm = *self;
                        proof { assert(gm.within(0)); }
                        match r {
                            Some(p) => {
                                self.add_delayed_trigger(DelayedTrigger {
                                    condition: DelayedTriggerCondition::AtBeginningOfNextEndStep,
                                    effect: TriggeredEffect::ExileLinkedReturn { card_id: tid, card_owner: p.owner },
                                    controller: c,
                                    fires_once: true,
                                });
                                proof { crate::game::bounds::lemma_frame_kept(gm, *self); }
                            },
                            None => {},
                        }
                        proof { assert(removed_to_zone(g0, gm, tid, DestinationZone::Exile, r)); }
                    },
                    None => {},
                }
            },
            CardName::PalaceJailer => {
                self.become_monarch(c);
                match self.find_pick(0, c, id) {
                    Some(j) => {
                        let tid = self.battlefield[j].id;
                        self.exile_linked.push((id, tid));
                        let ghost gl = *self;
                        proof {
                            crate::game::bounds::lemma_frame_kept(g0, gl);
                            assert(gl.within(0));
                        }
                        let r = self.remove_permanent_to_zone(tid, DestinationZone::Exile);
                        proof {
                            assert(removed_to_zone(gl, *self, tid, DestinationZone::Exile, r));
                            assert(self.within(0));
                        }
                    },
                    None => {
                        proof { crate::game::bounds::lemma_frame_kept(g0, *self); }
                    },
                }
            },
            _ => {
                let sel: u8 = match name {
                    CardName::Manglehorn => 1,
                    CardName::WhiteOrchidPhantom => 3,
                    _ => 2,
                };
                match self.find_pick(sel, c, id) {
                    Some(j) => {
                        let tid = self.battlefield[j].id;
                        let r = self.destroy_permanent(tid);
                        proof {
                            assert(removed_to_zone(g0, *self, tid, actual_destination(DestinationZone::Graveyard, g0.battlefield@), r));
                            assert(self.within(0));
                        }
                    },
                    None => {},
                }
            },
        }
    }
}


impl GameState {
    /// The enters-the-battlefield effects that move cards between zones or draw.
    fn etb_zones(&mut self, name: CardName, id: ObjectId, c: PlayerId)
        requires
            old(self).wf(),
            old(self).within(2),
            c < 2,
            !torpor_stops(old(self).battlefield@, id),
            name == CardName::MaiScornfulStriker || name == CardName::EmryLurkerOfTheLoch || name == CardName::RestInPeace
                || name == CardName::Endurance || name == CardName::AtraxaGrandUnifier || name == CardName::ThundertrapTrainer,
        ensures
            etb_handled(*old(self), *final(self), name, id, c, 0),
            final(self).wf(),
            final(self).within(0),
    {
        let ghost g0 = *self;
        proof {
            crate::game::bounds::lemma_within_mono(g0, 2, 0);
            assert(g0.players@[c as int].stats_within(2));
        }
        match name {
            CardName::MaiScornfulStriker => {
                self.mill(0, 2);
                let ghost gm = *self;
                self.mill(1, 2);
                proof {
                    assert(milled(g0, gm, 0, 2));
                    crate::game::bounds::lemma_stats_kept(g0, gm, 0);
                    crate::game::bounds::lemma_stats_kept(gm, *self, 0);
                }
            },
            CardName::EmryLurkerOfTheLoch => {
                self.mill(c as usize, 4);
                proof { crate::game::bounds::lemma_stats_kept(g0, *self, 0); }
            },
            CardName::RestInPeace => {
                self.exile_graveyards();
                proof {
                    assert(self.players@ =~= g0.players@.update(0, self.players@[0]).update(1, self.players@[1]));
                    crate::game::bounds::lemma_stats_kept(g0, *self, 0);
                }
            },
            CardName::Endurance => {
                let opp = self.opponent(c);
                self.graveyard_to_bottom(opp as usize);
                proof { crate::game::bounds::lemma_stats_kept(g0, *self, 0); }
            },
            _ => {
                let n: usize = if name == CardName::AtraxaGrandUnifier { 4 } else { 1 };
                self.draw_cards(c, n);
                proof {
                    crate::game::effects::lemma_drew_step(g0, *self, c, n as nat, 2);
                    crate::game::bounds::lemma_within_mono(*self, 1, 0);
                }
            },
        }
    }

    /// The enters-the-battlefield effects on the permanent itself, tokens and Treasures.
    fn etb_permanents(&mut self, name: CardName, id: ObjectId, c: PlayerId, x: u8)
        requires
            old(self).wf(),
            old(self).within(2),
            c < 2,
            !torpor_stops(old(self).battlefield@, id),
            name == CardName::ManaVault || name == CardName::GrimMonolith || name == CardName::TimeVault
                || name == CardName::ShatterskullTheHammerPass || name == CardName::StartingTown
                || name == CardName::MeticulousArchive || name == CardName::UndercitySewers
                || name == CardName::ThunderingFalls || name == CardName::HedgeMaze
                || name == CardName::AjaniNacatlPariah || name == CardName::VoiceOfVictory
                || name == CardName::GenerousPlunderer || name == CardName::WalkingBallista
                || name == CardName::StonecoilSerpent || name == CardName::ChaliceOfTheVoid
                || name == CardName::EngineeredExplosives,
        ensures
            etb_handled(*old(self), *final(self), name, id, c, x),
            final(self).wf(),
            final(self).within(0),
    {
        let ghost g0 = *self;
        proof {
            crate::game::bounds::lemma_within_mono(g0, 2, 0);
            lemma_perm_pos(g0.battlefield@, id);
        }
        match name {
            CardName::ManaVault | CardName::GrimMonolith | CardName::TimeVault | CardName::ShatterskullTheHammerPass
            | CardName::StartingTown => {
                let tap = match name {
                    CardName::ShatterskullTheHammerPass | CardName::StartingTown => true,
                    _ => false,
                };
                if name != CardName::StartingTown || self.turn_number > 3 {
                    self.flag(id, tap);
                    proof {
                        let i = perm_pos(g0.battlefield@, id);
                        if i >= 0 { lemma_flag_kept(g0, *self, i, 0); }
                    }
                }
            },
            CardName::MeticulousArchive | CardName::UndercitySewers | CardName::ThunderingFalls | CardName::HedgeMaze => {
                self.flag(id, true);
                let ghost gm = *self;
                proof {
                    let i = perm_pos(g0.battlefield@, id);
                    if i >= 0 { lemma_flag_kept(g0, gm, i, 0); }
                    assert(flagged(g0, gm, id, true));
                    assert(gm.players@[c as int].stats_within(0));
                }
                self.surveil(c, 1, false);
                proof { crate::game::bounds::lemma_stats_kept(gm, *self, 0); }
            },
            CardName::AjaniNacatlPariah | CardName::VoiceOfVictory => {
                let mut types: Vec<CreatureType> = Vec::new();
                let (power, toughness): (i16, i16) = if name == CardName::AjaniNacatlPariah {
                    types.push(CreatureType::Cat);
                    types.push(CreatureType::Warrior);
                    (2, 1)
                } else {
                    types.push(CreatureType::Human);
                    (1, 1)
                };
                let ghost tv = types@;
                self.make_creature_token(name, c, power, toughness, types);
                proof {
                    if name == CardName::AjaniNacatlPariah {
                        assert(tv =~= seq![CreatureType::Cat, CreatureType::Warrior]);
                    } else {
                        assert(tv =~= seq![CreatureType::Human]);
                    }
                    crate::game::abilities::lemma_new_permanent_step(g0, *self, 2);
                    crate::game::bounds::lemma_within_mono(*self, 1, 0);
                }
            },
            CardName::GenerousPlunderer => {
                let t0 = self.create_treasure_token(0);
                let ghost gm = *self;
                proof { crate::game::effects::lemma_treasure_step(g0, gm, 0, t0, 2); }
                let t1 = self.create_treasure_token(1);
                proof {
                    crate::game::effects::lemma_treasure_step(gm, *self, 1, t1, 1);
                    assert(treasure_made(g0, gm, 0));
                }
            },
            _ => {
                let kind = match name {
                    CardName::ChaliceOfTheVoid | CardName::EngineeredExplosives => CounterType::Charge,
                    _ => CounterType::PlusOnePlusOne,
                };
                if kind == CounterType::Charge || x > 0 {
                    proof {
                        let i = perm_pos(g0.battlefield@, id);
                        if i >= 0 {
                            assert(g0.battlefield@[i].stats_within(2, g0.battlefield@.len() as int));
                        }
                    }
                    self.add_counters(id, kind, x);
                    proof {
                        lemma_counters_step(g0, *self, id, kind, x as int, 2);
                        crate::game::bounds::lemma_within_mono(*self, 1, 0);
                    }
                }
            },
        }
    }

    /// Apply the enters-the-battlefield effects of `card_name` (object `card_id`, controller
    /// `controller`, announced X `x_value`); see `etb_handled`.
    pub fn handle_etb_with_x(&mut self, card_name: CardName, card_id: ObjectId, controller: PlayerId, x_value: u8)
        requires
            old(self).wf(),
            old(self).within(2),
            controller < 2,
        ensures
            etb_handled(*old(self), *final(self), card_name, card_id, controller, x_value),
            final(self).wf(),
            final(self).within(0),
    {
        let ghost g0 = *self;
        proof {
            crate::game::bounds::lemma_within_mono(g0, 2, 0);
            lemma_perm_pos(g0.battlefield@, card_id);
        }
        let torpor = self.any_named(CardName::TorporOrb);
        if torpor {
            let is_creature = match self.find_permanent(card_id) {
                Some(p) => p.is_creature(),
                None => false,
            };
            if is_creature {
                match card_name {
                    CardName::WalkingBallista | CardName::StonecoilSerpent => {
                        if x_value > 0 {
                            proof {
                                let i = perm_pos(g0.battlefield@, card_id);
                                assert(g0.battlefield@[i].stats_within(2, g0.battlefield@.len() as int));
                            }
                            self.add_counters(card_id, CounterType::PlusOnePlusOne, x_value);
                            proof {
                                lemma_counters_step(g0, *self, card_id, CounterType::PlusOnePlusOne, x_value as int, 2);
                                crate::game::bounds::lemma_within_mono(*self, 1, 0);
                            }
                        }
                    },
                    _ => {},
                }
                return;
            }
        }
        match card_name {
            CardName::ThoughtMonitor | CardName::AgentOfTreachery | CardName::DelverOfSecrets | CardName::ManaCrypt => {
                self.etb_triggers(card_name, card_id, controller);
                proof { crate::game::bounds::lemma_frame_kept(g0, *self); }
            },
            CardName::Fury | CardName::Manglehorn | CardName::LoranOfTheThirdPath | CardName::WitchEnchanter
            | CardName::WhiteOrchidPhantom | CardName::TalonGatesOfMadara | CardName::PalaceJailer => {
                self.etb_removals(card_name, card_id, controller);
            },
            CardName::MaiScornfulStriker | CardName::EmryLurkerOfTheLoch | CardName::RestInPeace | CardName::Endurance
            | CardName::AtraxaGrandUnifier | CardName::ThundertrapTrainer => {
                self.etb_zones(card_name, card_id, controller);
            },
            CardName::ManaVault | CardName::GrimMonolith | CardName::TimeVault | CardName::ShatterskullTheHammerPass
            | CardName::StartingTown | CardName::MeticulousArchive | CardName::UndercitySewers
            | CardName::ThunderingFalls | CardName::HedgeMaze | CardName::AjaniNacatlPariah | CardName::VoiceOfVictory
            | CardName::GenerousPlunderer | CardName::WalkingBallista | CardName::StonecoilSerpent
            | CardName::ChaliceOfTheVoid | CardName::EngineeredExplosives => {
                self.etb_permanents(card_name, card_id, controller, x_value);
            },
            CardName::HallowedFountain | CardName::WateryGrave | CardName::BloodCrypt | CardName::StompingGround
            | CardName::TempleGarden | CardName::GodlessShrine | CardName::SteamVents | CardName::OvergrownTomb
            | CardName::SacredFoundry | CardName::BreedingPool => {
                self.pending_choice = Some(PendingChoice {
                    player: controller,
                    kind: ChoiceKind::ChooseNumber { min: 0, max: 1, reason: ChoiceReason::ShockLandETB { card_id } },
                });
                proof { crate::game::bounds::lemma_frame_kept(g0, *self); }
            },
            _ => {},
        }
    }

    /// Apply the enters-the-battlefield effects of a permanent put onto the battlefield
    /// without being cast (X is 0).
    pub fn handle_etb(&mut self, card_name: CardName, card_id: ObjectId, controller: PlayerId)
        requires
            old(self).wf(),
            old(self).within(2),
            controller < 2,
        ensures
            etb_handled(*old(self), *final(self), card_name, card_id, controller, 0),
            final(self).wf(),
            final(self).within(0),
    {
        self.handle_etb_with_x(card_name, card_id, controller, 0);
    }
}


/// `g1` is `g0` after the entering of `name` (object `id`) used the targets it was cast
/// with: Snapcaster Mage gives its first target flashback this turn (unless Torpor Orb
/// stops it).
pub open spec fn cast_targets_handled(g0: GameState, g1: GameState, name: CardName, id: ObjectId, targets: Seq<Target>) -> bool {
    if !torpor_stops(g0.battlefield@, id) && name == CardName::SnapcasterMage && targets.len() > 0 && targets[0] is Object {
        &&& g1.snapcaster_flashback_cards@ == g0.snapcaster_flashback_cards@.push(targets[0]->Object_0)
        &&& g1 == (GameState { snapcaster_flashback_cards: g1.snapcaster_flashback_cards, ..g0 })
    } else {
        g1 == g0
    }
}

impl GameState {
    /// The enters-the-battlefield effects that need the targets the permanent was cast
    /// with (see `cast_targets_handled`).
    pub fn handle_etb_with_cast_targets(&mut self, card_name: CardName, card_id: ObjectId, controller: PlayerId, targets: &[Target])
        ensures
            cast_targets_handled(*old(self), *final(self), card_name, card_id, targets@),
    {
        let _ = controller;
        proof { lemma_perm_pos(self.battlefield@, card_id); }
        if self.any_named(CardName::TorporOrb) {
            let is_creature = match self.find_permanent(card_id) {
                Some(p) => p.is_creature(),
                None => false,
            };
            if is_creature {
                return;
            }
        }
        if card_name == CardName::SnapcasterMage && targets.len() > 0 {
            match targets[0] {
                Target::Object(t) => self.snapcaster_flashback_cards.push(t),
                _ => {},
            }
        }
    }
}

} // verus!

