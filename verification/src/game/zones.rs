//! Moving permanents and cards between zones.
use vstd::prelude::*;
use crate::card::{CardName, CardDef, bonus_of, equipment_bonus};
use crate::game::{perm_pos_from, same_player_stats, lemma_within_after_removal, DestinationZone, GameState, perm_pos, perm_with, lemma_perm_pos, lemma_perm_pos_update, on_battlefield, registered_name};
use crate::game::queries::name_on_battlefield;
use crate::permanent::Permanent;
use crate::player::{Player, position_of, first_index};
use crate::stack::{StackItemKind, TriggeredEffect};
use crate::types::{Keywords, ObjectId, PlayerId};

verus! {

/// Every permanent's P/T modifications are far from the `i16` limits.
pub open spec fn pt_room(bf: Seq<Permanent>) -> bool {
    forall|i: int|
        0 <= i < bf.len() ==> -32000 <= #[trigger] bf[i].power_mod <= 32000 && -32000
            <= bf[i].toughness_mod <= 32000
}

/// The battlefield after removing equipment `equip_id`'s bonus from `creature_id`.
pub open spec fn unequipped(bf: Seq<Permanent>, equip_id: ObjectId, creature_id: ObjectId) -> Seq<Permanent> {
    let e = perm_pos(bf, equip_id);
    let c = perm_pos(bf, creature_id);
    if e < 0 || c < 0 {
        bf
    } else {
        match bonus_of(bf[e].card_name) {
            None => bf,
            Some(b) => bf.update(
                c,
                Permanent {
                    power_mod: (bf[c].power_mod - b.power_mod) as i16,
                    toughness_mod: (bf[c].toughness_mod - b.toughness_mod) as i16,
                    keywords: Keywords(bf[c].keywords.0 & !b.keywords.0),
                    ..bf[c]
                },
            ),
        }
    }
}

impl GameState {
    /// Remove equipment stat bonuses and keywords from the host creature.
    pub fn remove_equipment_bonuses(&mut self, equip_id: ObjectId, creature_id: ObjectId)
        requires
            pt_room(old(self).battlefield@),
        ensures
            final(self).battlefield@ == unequipped(old(self).battlefield@, equip_id, creature_id),
            *final(self) == (GameState { battlefield: final(self).battlefield, ..*old(self) }),
    {
        proof {
            lemma_perm_pos(self.battlefield@, equip_id);
            lemma_perm_pos(self.battlefield@, creature_id);
        }
        let equip_name = match self.find_permanent(equip_id) {
            Some(p) => p.card_name,
            None => return,
        };
        if let Some(bonus) = equipment_bonus(equip_name) {
            if let Some(i) = self.perm_index(creature_id) {
                let pm = self.battlefield[i].power_mod - bonus.power_mod;
                let tm = self.battlefield[i].toughness_mod - bonus.toughness_mod;
                let kw = self.battlefield[i].keywords.0 & !bonus.keywords.0;
                self.battlefield[i].power_mod = pm;
                self.battlefield[i].toughness_mod = tm;
                self.battlefield[i].keywords = Keywords(kw);
                proof {
                    assert(self.battlefield@ =~= unequipped(old(self).battlefield@, equip_id, creature_id));
                }
            }
        }
    }

    /// Low-level removal: take the permanent (the first with that id) off the battlefield
    /// without firing triggers. The last permanent moves into its place.
    pub fn remove_permanent(&mut self, id: ObjectId) -> (r: Option<Permanent>)
        ensures
            perm_pos(old(self).battlefield@, id) == -1 ==> r is None && *final(self) == *old(self),
            perm_pos(old(self).battlefield@, id) != -1 ==> ({
                let bf = old(self).battlefield@;
                let i = perm_pos(bf, id);
                &&& r == Some(bf[i])
                &&& final(self).battlefield@ == bf.update(i, bf.last()).drop_last()
            }),
            *final(self) == (GameState { battlefield: final(self).battlefield, ..*old(self) }),
    {
        match self.perm_index(id) {
            Some(pos) => Some(self.battlefield.swap_remove(pos)),
            None => None,
        }
    }
}

} // verus!

verus! {

/// Where a card headed for `destination` ends up when Rest in Peace's presence on `bf`
/// is taken into account.
pub open spec fn actual_destination(destination: DestinationZone, bf: Seq<Permanent>) -> DestinationZone {
    if destination == DestinationZone::Graveyard && name_on_battlefield(bf, CardName::RestInPeace) {
        DestinationZone::Exile
    } else {
        destination
    }
}

/// Where a permanent leaving `bf` for `destination` ends up: a graveyard move becomes exile
/// while another Rest in Peace stays on the battlefield.
pub open spec fn removal_destination(destination: DestinationZone, bf: Seq<Permanent>, id: ObjectId) -> DestinationZone {
    if destination == DestinationZone::Graveyard && exists|i: int|
        0 <= i < bf.len() && i != perm_pos(bf, id) && #[trigger] bf[i].card_name == CardName::RestInPeace {
        DestinationZone::Exile
    } else {
        destination
    }
}

/// Where the permanent now at index `i` stood before the one at `pos` was taken out of a
/// battlefield of `n`: the last permanent moves into the gap, the others stay put.
pub open spec fn swap_source(i: int, pos: int, n: int) -> int {
    if i == pos { n - 1 } else { i }
}

/// `g1` is `g0` after permanent `id` left the battlefield for `destination` (returned as
/// `r`): the last permanent takes its place and the others keep theirs (only their P/T
/// modifications and keywords may change, as equipment bonuses are undone); equipment
/// attached to it is attached to nothing and its host no longer lists it (`links_undone`);
/// the card in its zone, dies and leaves triggers added on
/// top of the stack, nothing else of note changed.
pub open spec fn removed_to_zone(g0: GameState, g1: GameState, id: ObjectId, destination: DestinationZone, r: Option<Permanent>) -> bool {
    &&& g1.wf()
    &&& perm_pos(g0.battlefield@, id) == -1 ==> r is None && g1 == g0
    &&& perm_pos(g0.battlefield@, id) != -1 ==> ({
                let p = g0.battlefield@[perm_pos(g0.battlefield@, id)];
                &&& r matches Some(q) && q.id == id && q.card_name == p.card_name && q.owner == p.owner
                    && q.controller == p.controller && q.is_token == p.is_token
                &&& g1.battlefield@.len() == g0.battlefield@.len() - 1
                &&& forall|i: int| 0 <= i < g1.battlefield@.len() ==> same_but_links(#[trigger] g1.battlefield@[i],
                    g0.battlefield@[swap_source(i, perm_pos(g0.battlefield@, id), g0.battlefield@.len() as int)])
                &&& forall|i: int| 0 <= i < g1.battlefield@.len() ==> links_undone(#[trigger] g1.battlefield@[i],
                    g0.battlefield@, swap_source(i, perm_pos(g0.battlefield@, id), g0.battlefield@.len() as int),
                    p, p.attachments@.len() as int)
                &&& g1.stack.items@.len() >= g0.stack.items@.len()
                &&& g1.stack.items@.subrange(0, g0.stack.items@.len() as int) == g0.stack.items@
                &&& forall|k: int| #![trigger g1.within(k)] g0.within(k) ==> g1.within(k)
                &&& g1.result == g0.result
                &&& g1.card_registry == g0.card_registry
                &&& g1.temporary_effects == g0.temporary_effects
                &&& g1.pending_choice == g0.pending_choice
                &&& g1.delayed_triggers == g0.delayed_triggers
                &&& g1.phase == g0.phase && g1.step == g0.step
                &&& g1.active_player == g0.active_player
                &&& g1.priority_player == g0.priority_player
                &&& g1.passed_priority == g0.passed_priority
                &&& g1.storm_count == g0.storm_count
                &&& g1.turn_number == g0.turn_number
                &&& g1.emblems == g0.emblems
                &&& !p.is_token ==> card_added(g0, g1, id, p.card_name, p.owner,
                    removal_destination(destination, g0.battlefield@, id))
                &&& p.is_token ==> g1.players@ == g0.players@ && g1.exile@ == g0.exile@
                &&& same_player_stats(g1.players@, g0.players@)
                &&& forall|i: int| 0 <= i < g0.players@.len() ==> #[trigger] g1.players@[i].has_lost == g0.players@[i].has_lost
    })
}

/// `g1` is `g0` with card `id` (named `name`, owned by `owner`) added to zone `dest`:
/// the top of the owner's graveyard, hand or library, or the end of the exile list.
pub open spec fn card_added(g0: GameState, g1: GameState, id: ObjectId, name: CardName, owner: PlayerId, dest: DestinationZone) -> bool {
    let o = owner as int;
    match dest {
        DestinationZone::Graveyard => g1.players@[o].graveyard@ == g0.players@[o].graveyard@.push(id)
            && g1.players@ == g0.players@.update(o, Player { graveyard: g1.players@[o].graveyard, ..g0.players@[o] })
            && g1.exile@ == g0.exile@,
        DestinationZone::Hand => g1.players@[o].hand@ == g0.players@[o].hand@.push(id)
            && g1.players@ == g0.players@.update(o, Player { hand: g1.players@[o].hand, ..g0.players@[o] })
            && g1.exile@ == g0.exile@,
        DestinationZone::Library => g1.players@[o].library@ == g0.players@[o].library@.push(id)
            && g1.players@ == g0.players@.update(o, Player { library: g1.players@[o].library, ..g0.players@[o] })
            && g1.exile@ == g0.exile@,
        DestinationZone::Exile => g1.exile@ == g0.exile@.push((id, name, owner)) && g1.players@ == g0.players@,
    }
}

/// `a` equals `b` except possibly in P/T modifications, keywords and attachment links.
pub open spec fn same_but_links(a: Permanent, b: Permanent) -> bool {
    a == Permanent {
        power_mod: a.power_mod,
        toughness_mod: a.toughness_mod,
        keywords: a.keywords,
        attachments: a.attachments,
        attached_to: a.attached_to,
        ..b
    }
}

/// While removing permanent `pos` of `bf0`: the battlefield `bf` has the same permanents
/// in the same places, the others moved at most one step in P/T modifications and have
/// no more attachments than before, and the one at `pos` moved at most `d` steps.
pub open spec fn removal_progress(bf: Seq<Permanent>, bf0: Seq<Permanent>, pos: int, d: int) -> bool {
    &&& bf.len() == bf0.len()
    &&& forall|i: int| 0 <= i < bf.len() ==> same_but_links(#[trigger] bf[i], bf0[i])
    &&& forall|i: int| 0 <= i < bf.len() && i != pos ==> (#[trigger] bf[i]).close_to(bf0[i])
    &&& -d <= bf[pos].power_mod - bf0[pos].power_mod <= d
    &&& -d <= bf[pos].toughness_mod - bf0[pos].toughness_mod <= d
}

/// Whether one of the first `k` attachments of the permanent `gone` is (by its first
/// occurrence) the permanent at index `i` of `bf0`.
pub open spec fn detached_by(bf0: Seq<Permanent>, gone: Permanent, k: int, i: int) -> bool {
    exists|j: int| 0 <= j < k && j < gone.attachments@.len() && #[trigger] perm_pos(bf0, gone.attachments@[j]) == i
}

/// The attachment links of `q` (now at index `i`) after `gone` was taken off `bf0` with its
/// first `k` attachments unequipped: an unequipped equipment is attached to nothing, the
/// host `gone` was attached to no longer lists it, every other link is as it was.
pub open spec fn links_undone(q: Permanent, bf0: Seq<Permanent>, i: int, gone: Permanent, k: int) -> bool {
    &&& q.attached_to == (if detached_by(bf0, gone, k, i) { None } else { bf0[i].attached_to })
    &&& q.attachments@ == (if gone.attached_to matches Some(h) && perm_pos(bf0, h) == i {
        bf0[i].attachments@.filter(other_than(gone.id))
    } else {
        bf0[i].attachments@
    })
}

/// Positions are determined by ids, so they survive changes that keep every id.
pub proof fn lemma_perm_pos_same_ids(a: Seq<Permanent>, b: Seq<Permanent>, id: ObjectId, k: int)
    requires
        a.len() == b.len(),
        forall|i: int| 0 <= i < a.len() ==> (#[trigger] a[i]).id == b[i].id,
        0 <= k,
    ensures
        perm_pos_from(a, id, k) == perm_pos_from(b, id, k),
    decreases a.len() - k,
{
    if k < a.len() {
        lemma_perm_pos_same_ids(a, b, id, k + 1);
    }
}

/// Accepts every id but `x`.
pub open spec fn other_than(x: ObjectId) -> spec_fn(ObjectId) -> bool {
    |a: ObjectId| a != x
}

/// Remove every copy of `x` from `v`.
pub fn remove_all_ids(v: &mut Vec<ObjectId>, x: ObjectId)
    ensures
        final(v)@ == old(v)@.filter(other_than(x)),
        final(v)@.len() <= old(v)@.len(),
{
    let ghost keep = other_than(x);
    let ghost v0 = v@;
    let mut out: Vec<ObjectId> = Vec::new();
    let mut i: usize = 0;
    while i < v.len()
        invariant
            i <= v0.len(),
            v0 == v@,
            keep == other_than(x),
            out@ == v0.subrange(0, i as int).filter(keep),
        decreases v0.len() - i,
    {
        let a = v[i];
        proof {
            assert(v0.subrange(0, i as int + 1) =~= v0.subrange(0, i as int).push(a));
            v0.subrange(0, i as int).lemma_filter_push(a, keep);
        }
        if a != x {
            out.push(a);
        }
        i = i + 1;
    }
    proof {
        assert(v0.subrange(0, i as int) =~= v0);
        v0.lemma_filter_len(keep);
    }
    *v = out;
}

impl GameState {
    /// The first Skullclamp on the battlefield among `attachments`, with its controller.
    fn skullclamp_among(&self, attachments: &Vec<ObjectId>) -> (r: Option<(ObjectId, PlayerId)>)
        requires
            self.within(0),
        ensures
            r matches Some(t) ==> t.1 < 2 && attachments@.contains(t.0) && on_battlefield(self.battlefield@, t.0)
                && self.battlefield@[perm_pos(self.battlefield@, t.0)].card_name == CardName::SkullClamp
                && self.battlefield@[perm_pos(self.battlefield@, t.0)].controller == t.1,
            r is None ==> forall|j: int| 0 <= j < attachments@.len() ==> !(on_battlefield(self.battlefield@, #[trigger] attachments@[j])
                && self.battlefield@[perm_pos(self.battlefield@, attachments@[j])].card_name == CardName::SkullClamp),
    {
        let mut a: usize = 0;
        while a < attachments.len()
            invariant
                a <= attachments@.len(),
                self.within(0),
                forall|j: int| 0 <= j < a ==> !(on_battlefield(self.battlefield@, #[trigger] attachments@[j])
                    && self.battlefield@[perm_pos(self.battlefield@, attachments@[j])].card_name == CardName::SkullClamp),
            decreases attachments@.len() - a,
        {
            let att_id = attachments[a];
            proof { lemma_perm_pos(self.battlefield@, att_id); }
            if let Some(att) = self.find_permanent(att_id) {
                if att.card_name == CardName::SkullClamp {
                    proof { assert(self.battlefield@[perm_pos(self.battlefield@, att_id)].controller < 2); }
                    return Some((att_id, att.controller));
                }
            }
            a = a + 1;
        }
        None
    }

    /// One step of a removal: take equipment `equip_id` off permanent `id` (at `pos` of the
    /// starting battlefield `bf0`), removing its bonus.
    fn unequip_for_removal(&mut self, id: ObjectId, pos: usize, equip_id: ObjectId, Ghost(bf0): Ghost<Seq<Permanent>>, Ghost(d): Ghost<int>)
        requires
            0 <= d <= 8001,
            pos < bf0.len(),
            perm_pos(bf0, id) == pos,
            forall|i: int| 0 <= i < bf0.len() ==> (#[trigger] bf0[i]).stats_within(0, bf0.len() as int),
            removal_progress(old(self).battlefield@, bf0, pos as int, d),
        ensures
            removal_progress(final(self).battlefield@, bf0, pos as int, d + 1),
            forall|i: int| 0 <= i < bf0.len() ==> (#[trigger] final(self).battlefield@[i]).attached_to
                == (if i == perm_pos(bf0, equip_id) { None } else { old(self).battlefield@[i].attached_to }),
            forall|i: int| 0 <= i < bf0.len() ==> (#[trigger] final(self).battlefield@[i]).attachments
                == old(self).battlefield@[i].attachments,
            *final(self) == (GameState { battlefield: final(self).battlefield, ..*old(self) }),
    {
        let ghost n0 = bf0.len() as int;
        let ghost bfa = self.battlefield@;
        proof {
            assert(pt_room(bfa)) by {
                assert forall|i: int| 0 <= i < n0 implies -32000 <= #[trigger] bfa[i].power_mod <= 32000
                    && -32000 <= bfa[i].toughness_mod <= 32000 by {
                    assert(bf0[i].stats_within(0, n0));
                    assert(same_but_links(bfa[i], bf0[i]));
                }
            }
            lemma_perm_pos_same_ids(bfa, bf0, id, 0);
            lemma_perm_pos(bfa, equip_id);
        }
        self.remove_equipment_bonuses(equip_id, id);
        let ghost bfb = self.battlefield@;
        proof {
            assert(removal_progress(bfb, bf0, pos as int, d + 1));
            lemma_perm_pos_same_ids(bfb, bfa, equip_id, 0);
            assert forall|i: int| 0 <= i < n0 implies (#[trigger] bfa[i]).id == bf0[i].id by {
                assert(same_but_links(bfa[i], bf0[i]));
            }
            lemma_perm_pos_same_ids(bfa, bf0, equip_id, 0);
            assert forall|i: int| 0 <= i < n0 implies (#[trigger] bfb[i]).attached_to == bfa[i].attached_to
                && bfb[i].attachments == bfa[i].attachments by {}
        }
        if let Some(ei) = self.perm_index(equip_id) {
            self.battlefield[ei].attached_to = None;
            proof {
                assert forall|i: int| 0 <= i < n0 implies same_but_links(#[trigger] self.battlefield@[i], bf0[i]) by {
                    if i != ei as int {
                        assert(self.battlefield@[i] == bfb[i]);
                    }
                }
                assert forall|i: int| 0 <= i < n0 && i != pos as int implies (#[trigger] self.battlefield@[i]).close_to(bf0[i]) by {
                    if i != ei as int {
                        assert(self.battlefield@[i] == bfb[i]);
                    }
                }
            }
        }
    }

    /// First half of a removal: take permanent `id` (at `pos`) off its host and take every
    /// equipment attached to it off it, removing the stat bonuses both ways.
    #[verifier::rlimit(100)]
    #[verifier::spinoff_prover]
    fn detach_for_removal(&mut self, id: ObjectId, pos: usize, attachments_to_unequip: &Vec<ObjectId>, attached_to_host: Option<ObjectId>)
        requires
            old(self).within(0),
            pos < old(self).battlefield@.len(),
            perm_pos(old(self).battlefield@, id) == pos,
            attachments_to_unequip@.len() <= 8000,
            attachments_to_unequip@ == old(self).battlefield@[pos as int].attachments@,
            attached_to_host == old(self).battlefield@[pos as int].attached_to,
        ensures
            removal_progress(final(self).battlefield@, old(self).battlefield@, pos as int, attachments_to_unequip@.len() + 1int),
            forall|i: int| 0 <= i < old(self).battlefield@.len() ==> links_undone(#[trigger] final(self).battlefield@[i],
                old(self).battlefield@, i, old(self).battlefield@[pos as int], attachments_to_unequip@.len() as int),
            *final(self) == (GameState { battlefield: final(self).battlefield, ..*old(self) }),
    {
        let ghost g0 = *self;
        let ghost n0 = g0.battlefield@.len() as int;
        proof { lemma_perm_pos(g0.battlefield@, id); }
        if let Some(host_id) = attached_to_host {
            proof {
                assert(pt_room(self.battlefield@)) by {
                    assert forall|i: int| 0 <= i < n0 implies -32000 <= #[trigger] self.battlefield@[i].power_mod <= 32000
                        && -32000 <= self.battlefield@[i].toughness_mod <= 32000 by {
                        assert(g0.battlefield@[i].stats_within(0, n0));
                    }
                }
                lemma_perm_pos(self.battlefield@, host_id);
            }
            self.remove_equipment_bonuses(id, host_id);
            proof {
                let bf1 = self.battlefield@;
                let e = perm_pos(g0.battlefield@, id);
                let c = perm_pos(g0.battlefield@, host_id);
                assert forall|i: int| 0 <= i < n0 implies same_but_links(#[trigger] bf1[i], g0.battlefield@[i]) by {}
                assert(removal_progress(bf1, g0.battlefield@, pos as int, 1));
                assert forall|i: int| 0 <= i < n0 implies (#[trigger] bf1[i]).attached_to == g0.battlefield@[i].attached_to
                    && bf1[i].attachments == g0.battlefield@[i].attachments by {}
                lemma_perm_pos_same_ids(bf1, g0.battlefield@, host_id, 0);
            }
            let ghost bf1 = self.battlefield@;
            if let Some(hi) = self.perm_index(host_id) {
                let ghost bfa = self.battlefield@;
                remove_all_ids(&mut self.battlefield[hi].attachments, id);
                proof {
                    assert forall|i: int| 0 <= i < n0 implies links_undone(#[trigger] self.battlefield@[i], g0.battlefield@, i,
                        g0.battlefield@[pos as int], 0) by {
                        if i != hi as int {
                            assert(self.battlefield@[i] == bfa[i]);
                        }
                    }
                    assert(removal_progress(self.battlefield@, g0.battlefield@, pos as int, 1)) by {
                        assert forall|i: int| 0 <= i < n0 implies same_but_links(#[trigger] self.battlefield@[i], g0.battlefield@[i]) by {
                            if i != hi as int {
                                assert(self.battlefield@[i] == bfa[i]);
                            }
                        }
                        assert forall|i: int| 0 <= i < n0 && i != pos as int implies (#[trigger] self.battlefield@[i]).close_to(g0.battlefield@[i]) by {
                            if i != hi as int {
                                assert(self.battlefield@[i] == bfa[i]);
                            }
                        }
                    }
                }
            } else {
                proof {
                    assert forall|i: int| 0 <= i < n0 implies links_undone(#[trigger] self.battlefield@[i], g0.battlefield@, i,
                        g0.battlefield@[pos as int], 0) by {
                        assert(bf1[i].attached_to == g0.battlefield@[i].attached_to);
                    }
                }
            }
        } else {
            proof {
                assert(removal_progress(self.battlefield@, g0.battlefield@, pos as int, 1));
                assert forall|i: int| 0 <= i < n0 implies links_undone(#[trigger] self.battlefield@[i], g0.battlefield@, i,
                    g0.battlefield@[pos as int], 0) by {}
            }
        }
        let mut a: usize = 0;
        while a < attachments_to_unequip.len()
            invariant
                g0.within(0),
                n0 == g0.battlefield@.len(),
                0 <= pos < n0,
                perm_pos(g0.battlefield@, id) == pos,
                a <= attachments_to_unequip@.len(),
                attachments_to_unequip@.len() <= 8000,
                removal_progress(self.battlefield@, g0.battlefield@, pos as int, 1 + a),
                *self == (GameState { battlefield: self.battlefield, ..g0 }),
                attachments_to_unequip@ == g0.battlefield@[pos as int].attachments@,
                forall|i: int| 0 <= i < n0 ==> links_undone(#[trigger] self.battlefield@[i], g0.battlefield@, i,
                    g0.battlefield@[pos as int], a as int),
            decreases attachments_to_unequip@.len() - a,
        {
            let equip_id = attachments_to_unequip[a];
            let ghost before = self.battlefield@;
            self.unequip_for_removal(id, pos, equip_id, Ghost(g0.battlefield@), Ghost(1 + a as int));
            proof {
                let bf0 = g0.battlefield@;
                let gone = bf0[pos as int];
                assert forall|i: int| 0 <= i < n0 implies links_undone(#[trigger] self.battlefield@[i], bf0, i, gone, a as int + 1) by {
                    assert(links_undone(before[i], bf0, i, gone, a as int));
                    if perm_pos(bf0, equip_id) == i {
                        assert(gone.attachments@[a as int] == equip_id);
                        assert(detached_by(bf0, gone, a as int + 1, i));
                    } else {
                        if detached_by(bf0, gone, a as int + 1, i) {
                            let j = choose|j: int| 0 <= j < a as int + 1 && j < gone.attachments@.len() && #[trigger] perm_pos(bf0, gone.attachments@[j]) == i;
                            assert(j != a as int);
                            assert(detached_by(bf0, gone, a as int, i));
                        }
                        if detached_by(bf0, gone, a as int, i) {
                            let j = choose|j: int| 0 <= j < a as int && j < gone.attachments@.len() && #[trigger] perm_pos(bf0, gone.attachments@[j]) == i;
                            assert(detached_by(bf0, gone, a as int + 1, i));
                        }
                    }
                }
            }
            a = a + 1;
        }
    }
}

impl GameState {
    /// Centralized permanent removal: take the permanent off the battlefield (detaching
    /// equipment both ways and removing equipment bonuses), put the card in its owner's
    /// destination zone (a graveyard move becomes exile under Rest in Peace; tokens go
    /// nowhere), and fire dies triggers (graveyard only, with Skullclamp's draw when it
    /// equipped the creature) and leaves-the-battlefield triggers.
    pub fn remove_permanent_to_zone(&mut self, id: ObjectId, destination: DestinationZone) -> (r: Option<Permanent>)
        requires
            old(self).wf(),
            old(self).within(0),
        ensures
            removed_to_zone(*old(self), *final(self), id, destination, r),
    {
        let ghost g0 = *self;
        let pos = match self.perm_index(id) {
            Some(p) => p,
            None => return None,
        };
        proof {
            lemma_perm_pos(g0.battlefield@, id);
            assert(g0.battlefield@[pos as int].stats_within(0, g0.battlefield@.len() as int));
        }
        let attachments_to_unequip = crate::player::copy_ids(&self.battlefield[pos].attachments);
        let attached_to_host = self.battlefield[pos].attached_to;
        let skullclamp_trigger = if destination == DestinationZone::Graveyard && self.battlefield[pos].is_creature() {
            self.skullclamp_among(&attachments_to_unequip)
        } else {
            None
        };
        proof {
            assert(attachments_to_unequip@.len() <= 8000);
        }
        self.detach_for_removal(id, pos, &attachments_to_unequip, attached_to_host);
        let ghost n0 = g0.battlefield@.len() as int;
        let ghost bfm = self.battlefield@;
        proof {
            lemma_perm_pos_same_ids(bfm, g0.battlefield@, id, 0);
        }
        let perm = match self.remove_permanent(id) {
            Some(p) => p,
            None => return None,
        };
        let ghost g1 = *self;
        proof {
            let n1 = g1.battlefield@.len() as int;
            assert forall|i: int| 0 <= i < n1 implies {
                let j = if i == pos as int { n0 - 1 } else { i };
                &&& (#[trigger] g1.battlefield@[i]).close_to(g0.battlefield@[j])
                &&& same_but_links(g1.battlefield@[i], g0.battlefield@[j])
                &&& links_undone(g1.battlefield@[i], g0.battlefield@, j, g0.battlefield@[pos as int],
                    g0.battlefield@[pos as int].attachments@.len() as int)
                &&& g1.battlefield@[i].owner == g0.battlefield@[j].owner
                &&& g1.battlefield@[i].controller == g0.battlefield@[j].controller
            } by {
                let j = if i == pos as int { n0 - 1 } else { i };
                assert(g1.battlefield@[i] == bfm[j]);
                assert(same_but_links(bfm[j], g0.battlefield@[j]));
            }
            assert(same_player_stats(g1.players@, g0.players@));
            lemma_within_after_removal(g0, g1, 0, pos as int);
            assert forall|k: int| #![trigger g1.within(k)] g0.within(k) implies g1.within(k) by {
                lemma_within_after_removal(g0, g1, k, pos as int);
            }
        }
        let perm_id = perm.id;
        let perm_name = perm.card_name;
        let controller = perm.controller;
        let owner = perm.owner;
        let is_artifact = perm.is_artifact();
        let is_token = perm.is_token;
        let actual_destination = if destination == DestinationZone::Graveyard {
            self.graveyard_destination(owner)
        } else {
            destination
        };
        proof {
            let bf0 = g0.battlefield@;
            let bf1 = g1.battlefield@;
            let n0 = bf0.len() as int;
            if name_on_battlefield(bf1, CardName::RestInPeace) {
                let i = choose|i: int| 0 <= i < bf1.len() && #[trigger] bf1[i].card_name == CardName::RestInPeace;
                let j = if i == pos as int { n0 - 1 } else { i };
                assert(bf1[i] == bfm[j]);
                assert(same_but_links(bfm[j], bf0[j]));
                assert(bf0[j].card_name == CardName::RestInPeace);
            }
            if exists|i: int| 0 <= i < bf0.len() && i != perm_pos(bf0, id) && #[trigger] bf0[i].card_name == CardName::RestInPeace {
                let j = choose|i: int| 0 <= i < bf0.len() && i != perm_pos(bf0, id) && #[trigger] bf0[i].card_name == CardName::RestInPeace;
                let i = if j == n0 - 1 { pos as int } else { j };
                assert(bf1[i] == bfm[j]);
                assert(same_but_links(bfm[j], bf0[j]));
                assert(bf1[i].card_name == CardName::RestInPeace);
            }
            assert(actual_destination == removal_destination(destination, bf0, id));
        }
        if !is_token {
            match actual_destination {
                DestinationZone::Graveyard => {
                    self.players[owner as usize].graveyard.push(perm_id);
                    proof {
                        let o = owner as int;
                        assert(self.players@ =~= g1.players@.update(o, Player { graveyard: self.players@[o].graveyard, ..g1.players@[o] }));
                    }
                },
                DestinationZone::Exile => {
                    self.exile.push((perm_id, perm_name, owner));
                },
                DestinationZone::Hand => {
                    self.players[owner as usize].hand.push(perm_id);
                    proof {
                        let o = owner as int;
                        assert(self.players@ =~= g1.players@.update(o, Player { hand: self.players@[o].hand, ..g1.players@[o] }));
                    }
                },
                DestinationZone::Library => {
                    self.players[owner as usize].library.push(perm_id);
                    proof {
                        let o = owner as int;
                        assert(self.players@ =~= g1.players@.update(o, Player { library: self.players@[o].library, ..g1.players@[o] }));
                    }
                },
            }
        }
        let ghost g2 = *self;
        proof {
            assert(same_player_stats(g2.players@, g0.players@));
            assert forall|k: int| #![trigger g2.within(k)] g0.within(k) implies g2.within(k) by {
                assert(g1.within(k));
                assert forall|i: int| 0 <= i < g2.players@.len() implies #[trigger] g2.players@[i].stats_within(k) by {
                    assert(g1.players@[i].stats_within(k));
                }
            }
        }
        if actual_destination == DestinationZone::Graveyard {
            self.check_dies_triggers(perm_id, perm_name, controller, is_artifact);
            if let Some((skullclamp_id, skullclamp_controller)) = skullclamp_trigger {
                self.stack.push(
                    StackItemKind::TriggeredAbility {
                        source_id: skullclamp_id,
                        source_name: CardName::SkullClamp,
                        effect: TriggeredEffect::SkullclampDeath,
                    },
                    skullclamp_controller,
                    Vec::new(),
                );
            }
        }
        let ghost g3 = *self;
        self.check_leaves_triggers(perm_id, perm_name, controller);
        proof {
            let g4 = *self;
            assert(g3.stack.items@.subrange(0, g0.stack.items@.len() as int) =~= g0.stack.items@);
            crate::game::triggers::lemma_prefix_trans(g0.stack.items@, g3.stack.items@, g4.stack.items@);
            assert forall|k: int| #![trigger g4.within(k)] g0.within(k) implies g4.within(k) by {
                assert(g2.within(k));
                assert forall|i: int| 0 <= i < g4.players@.len() implies #[trigger] g4.players@[i].stats_within(k) by {
                    assert(g2.players@[i].stats_within(k));
                }
            }
        }
        Some(perm)
    }
}

impl GameState {
    /// Destroy a permanent: it goes to its owner's graveyard (exile while Rest in Peace is on
    /// the battlefield) with its dies and leaves-the-battlefield triggers.
    pub fn destroy_permanent(&mut self, id: ObjectId) -> (r: Option<Permanent>)
        requires
            old(self).wf(),
            old(self).within(0),
        ensures
            removed_to_zone(*old(self), *final(self), id, actual_destination(DestinationZone::Graveyard, old(self).battlefield@), r),
            final(self).wf(),
            perm_pos(old(self).battlefield@, id) == -1 ==> r is None && *final(self) == *old(self),
            perm_pos(old(self).battlefield@, id) != -1 ==> ({
                let p = old(self).battlefield@[perm_pos(old(self).battlefield@, id)];
                &&& r matches Some(q) && q.id == id && q.card_name == p.card_name && q.owner == p.owner
                    && q.controller == p.controller && q.is_token == p.is_token
                &&& final(self).battlefield@.len() == old(self).battlefield@.len() - 1
                &&& final(self).stack.items@.len() >= old(self).stack.items@.len()
                &&& final(self).stack.items@.subrange(0, old(self).stack.items@.len() as int) == old(self).stack.items@
                &&& forall|k: int| #![trigger final(self).within(k)] old(self).within(k) ==> final(self).within(k)
                &&& final(self).result == old(self).result
                &&& final(self).card_registry == old(self).card_registry
                &&& final(self).pending_choice == old(self).pending_choice
                &&& final(self).active_player == old(self).active_player
                &&& final(self).priority_player == old(self).priority_player
                &&& final(self).turn_number == old(self).turn_number
                &&& !p.is_token ==> card_added(*old(self), *final(self), id, p.card_name, p.owner,
                    actual_destination(DestinationZone::Graveyard, old(self).battlefield@))
                &&& p.is_token ==> final(self).players@ == old(self).players@ && final(self).exile@ == old(self).exile@
                &&& same_player_stats(final(self).players@, old(self).players@)
                &&& forall|i: int| 0 <= i < old(self).players@.len() ==> #[trigger] final(self).players@[i].has_lost == old(self).players@[i].has_lost
            }),
    {
        proof { lemma_perm_pos(self.battlefield@, id); }
        let dest = match self.find_permanent(id) {
            Some(p) => self.graveyard_destination(p.owner),
            None => DestinationZone::Graveyard,
        };
        proof {
            let bf = self.battlefield@;
            if perm_pos(bf, id) >= 0 {
                assert(removal_destination(dest, bf, id) == actual_destination(DestinationZone::Graveyard, bf)) by {
                    if dest == DestinationZone::Graveyard {
                        assert(!name_on_battlefield(bf, CardName::RestInPeace));
                    }
                }
            }
        }
        self.remove_permanent_to_zone(id, dest)
    }
}

} // verus!

verus! {

/// No two permanents of `bf` share an id.
pub open spec fn ids_distinct(bf: Seq<Permanent>) -> bool {
    forall|a: int, b: int| 0 <= a < bf.len() && 0 <= b < bf.len() && a != b ==> #[trigger] bf[a].id != #[trigger] bf[b].id
}

/// Attachment links of `bf` agree both ways: a permanent is attached to a host exactly
/// when the host lists it among its attachments.
pub open spec fn links_agree(bf: Seq<Permanent>) -> bool {
    forall|a: int, b: int| 0 <= a < bf.len() && 0 <= b < bf.len() ==>
        ((#[trigger] bf[a]).attached_to == Some(#[trigger] bf[b].id) <==> bf[b].attachments@.contains(bf[a].id))
}

/// With distinct ids, the position of a permanent's id is its own index.
proof fn lemma_pos_of_own_id(bf: Seq<Permanent>, s: int)
    requires
        ids_distinct(bf),
        0 <= s < bf.len(),
    ensures
        perm_pos(bf, bf[s].id) == s,
{
    lemma_perm_pos(bf, bf[s].id);
    assert(on_battlefield(bf, bf[s].id));
}

/// A permanent that left the battlefield is linked to nothing that stayed: no remaining
/// permanent is attached to it and none lists it among its attachments (for a battlefield
/// whose ids are distinct and whose attachment links agree both ways).
pub proof fn law_removed_permanent_is_unlinked(g0: GameState, g1: GameState, id: ObjectId, destination: DestinationZone, r: Option<Permanent>)
    requires
        removed_to_zone(g0, g1, id, destination, r),
        on_battlefield(g0.battlefield@, id),
        ids_distinct(g0.battlefield@),
        links_agree(g0.battlefield@),
    ensures
        forall|i: int| 0 <= i < g1.battlefield@.len() ==> (#[trigger] g1.battlefield@[i]).attached_to != Some(id)
            && !g1.battlefield@[i].attachments@.contains(id),
{
    let bf0 = g0.battlefield@;
    let n0 = bf0.len() as int;
    let pos = perm_pos(bf0, id);
    lemma_perm_pos(bf0, id);
    if pos != -1 {
        let p = bf0[pos];
        let k = p.attachments@.len() as int;
        assert forall|i: int| 0 <= i < g1.battlefield@.len() implies (#[trigger] g1.battlefield@[i]).attached_to != Some(id)
            && !g1.battlefield@[i].attachments@.contains(id) by {
            let s = swap_source(i, pos, n0);
            let q = g1.battlefield@[i];
            assert(links_undone(q, bf0, s, p, k));
            assert(0 <= s < n0 && s != pos);
            lemma_pos_of_own_id(bf0, s);
            if !detached_by(bf0, p, k, s) && bf0[s].attached_to == Some(id) {
                assert(bf0[s].attached_to == Some(bf0[pos].id));
                assert(p.attachments@.contains(bf0[s].id));
                let j = choose|j: int| 0 <= j < k && p.attachments@[j] == bf0[s].id;
                assert(perm_pos(bf0, p.attachments@[j]) == s);
                assert(detached_by(bf0, p, k, s));
            }
            if bf0[s].attachments@.contains(id) {
                assert(bf0[pos].attached_to == Some(bf0[s].id));
                assert(perm_pos(bf0, bf0[s].id) == s);
            }
            if p.attached_to matches Some(h) && perm_pos(bf0, h) == s {
                let f = bf0[s].attachments@.filter(other_than(id));
                if f.contains(id) {
                    let t = choose|t: int| 0 <= t < f.len() && f[t] == id;
                    bf0[s].attachments@.lemma_filter_pred(other_than(id), t);
                }
            }
        }
    }
}

} // verus!
