//! Attaching equipment to creatures and taking it off.
use vstd::prelude::*;
use crate::card::{bonus_of, equipment_bonus};
use crate::game::{DestinationZone, GameState, perm_pos, lemma_perm_pos, lemma_perm_pos_update};
use crate::game::zones::{unequipped, removed_to_zone, remove_all_ids, other_than};
use crate::permanent::Permanent;
use crate::types::{Keywords, ObjectId};

verus! {

/// Every permanent's P/T modifications lie within `m` of zero.
pub open spec fn mods_within(bf: Seq<Permanent>, m: int) -> bool {
    forall|i: int| 0 <= i < bf.len() ==> -m <= #[trigger] bf[i].power_mod <= m && -m <= bf[i].toughness_mod <= m
}

/// The battlefield after equipment `equip_id`'s bonus was added to `creature_id`.
pub open spec fn equipped(bf: Seq<Permanent>, equip_id: ObjectId, creature_id: ObjectId) -> Seq<Permanent> {
    let e = perm_pos(bf, equip_id);
    let c = perm_pos(bf, creature_id);
    if e < 0 || c < 0 {
        bf
    } else {
        match bonus_of(bf[e].card_name) {
            None => bf,
            Some(b) => bf.update(c, Permanent {
                power_mod: (bf[c].power_mod + b.power_mod) as i16,
                toughness_mod: (bf[c].toughness_mod + b.toughness_mod) as i16,
                keywords: Keywords(bf[c].keywords.0 | b.keywords.0),
                ..bf[c]
            }),
        }
    }
}

/// `bf1` is `bf0` with `e` taken off the attachment list of permanent `host`.
pub open spec fn link_dropped(bf0: Seq<Permanent>, bf1: Seq<Permanent>, host: ObjectId, e: ObjectId) -> bool {
    let i = perm_pos(bf0, host);
    if i < 0 {
        bf1 == bf0
    } else {
        &&& bf1 == bf0.update(i, Permanent { attachments: bf1[i].attachments, ..bf0[i] })
        &&& bf1[i].attachments@ == bf0[i].attachments@.filter(other_than(e))
    }
}

/// `bf1` is `bf0` with `e` added to the attachment list of permanent `host` (unless it is
/// there already).
pub open spec fn link_added(bf0: Seq<Permanent>, bf1: Seq<Permanent>, host: ObjectId, e: ObjectId) -> bool {
    let i = perm_pos(bf0, host);
    if i < 0 || bf0[i].attachments@.contains(e) {
        bf1 == bf0
    } else {
        &&& bf1 == bf0.update(i, Permanent { attachments: bf1[i].attachments, ..bf0[i] })
        &&& bf1[i].attachments@ == bf0[i].attachments@.push(e)
    }
}

/// `bf0` with the equipment `e` marked as attached to `t`.
pub open spec fn attached_set(bf0: Seq<Permanent>, e: ObjectId, t: Option<ObjectId>) -> Seq<Permanent> {
    let i = perm_pos(bf0, e);
    if i < 0 { bf0 } else { bf0.update(i, Permanent { attached_to: t, ..bf0[i] }) }
}

/// The host equipment `e` is attached to on `bf`, if any.
pub open spec fn host_of(bf: Seq<Permanent>, e: ObjectId) -> Option<ObjectId> {
    let i = perm_pos(bf, e);
    if i < 0 { None } else { bf[i].attached_to }
}

/// `bf1` is `bf0` after equipment `e` left its host (when it has one): the host loses the
/// bonus and forgets `e`.
pub open spec fn left_host(bf0: Seq<Permanent>, bf1: Seq<Permanent>, e: ObjectId) -> bool {
    match host_of(bf0, e) {
        Some(h) => link_dropped(unequipped(bf0, e, h), bf1, h, e),
        None => bf1 == bf0,
    }
}

/// `bf1` is `bf0` after equipment `e` came off its host (when it has one): the bonus goes,
/// the host forgets it, and it is attached to nothing.
pub open spec fn detached(bf0: Seq<Permanent>, bf1: Seq<Permanent>, e: ObjectId) -> bool {
    match host_of(bf0, e) {
        Some(h) => exists|b2: Seq<Permanent>| #[trigger] left_host(bf0, b2, e) && bf1 == attached_set(b2, e, None),
        None => bf1 == bf0,
    }
}

/// `g1` is `g0` after equipment `e` was attached to creature `c`: it leaves its former
/// host (bonus removed, link dropped), is marked as attached to `c`, `c` lists it, and
/// `c` gets its bonus.
pub open spec fn equipment_attached(g0: GameState, g1: GameState, e: ObjectId, c: ObjectId) -> bool {
    let bf0 = g0.battlefield@;
    exists|b2: Seq<Permanent>, b4: Seq<Permanent>|
        #[trigger] left_host(bf0, b2, e)
        && #[trigger] link_added(attached_set(b2, e, Some(c)), b4, c, e)
        && g1.battlefield@ == equipped(b4, e, c)
        && g1 == (GameState { battlefield: g1.battlefield, ..g0 })
}

/// `a` differs from `b` by at most `d` in each P/T modification and at most `d` more
/// attachments; its other numbers, owner and controller are those of `b`.
pub open spec fn close(a: Permanent, b: Permanent, d: int) -> bool {
    &&& -d <= a.power_mod - b.power_mod <= d
    &&& -d <= a.toughness_mod - b.toughness_mod <= d
    &&& a.attachments@.len() <= b.attachments@.len() + d
    &&& a.base_power == b.base_power
    &&& a.base_toughness == b.base_toughness
    &&& a.damage == b.damage
    &&& a.loyalty == b.loyalty
    &&& a.counters == b.counters
    &&& a.owner == b.owner
    &&& a.controller == b.controller
}

/// Battlefields of the same length whose permanents are pairwise `close` within `d`.
pub open spec fn all_close(bf1: Seq<Permanent>, bf0: Seq<Permanent>, d: int) -> bool {
    &&& bf1.len() == bf0.len()
    &&& forall|i: int| 0 <= i < bf0.len() ==> close(#[trigger] bf1[i], bf0[i], d)
}

/// Closeness adds up.
proof fn lemma_close_trans(bf2: Seq<Permanent>, bf1: Seq<Permanent>, bf0: Seq<Permanent>, d1: int, d2: int)
    requires
        all_close(bf1, bf0, d1),
        all_close(bf2, bf1, d2),
    ensures
        all_close(bf2, bf0, d1 + d2),
{
    assert forall|i: int| 0 <= i < bf0.len() implies close(#[trigger] bf2[i], bf0[i], d1 + d2) by {
        assert(close(bf1[i], bf0[i], d1));
        assert(close(bf2[i], bf1[i], d2));
    }
}

/// Everything `within` and `wf` look at, but the battlefield, is the same in `g0` and `g1`.
pub open spec fn same_but_battlefield(g0: GameState, g1: GameState) -> bool {
    &&& g1.players == g0.players
    &&& g1.next_object_id == g0.next_object_id
    &&& g1.turn_number == g0.turn_number
    &&& g1.storm_count == g0.storm_count
    &&& g1.num_players == g0.num_players
    &&& g1.passed_priority == g0.passed_priority
    &&& g1.active_player == g0.active_player
    &&& g1.priority_player == g0.priority_player
}

/// A change that keeps every permanent close (within 100) uses one step of room.
pub proof fn lemma_close_step(g0: GameState, g1: GameState, d: int, k: int)
    requires
        1 <= k,
        0 <= d <= 100,
        g0.within(k),
        all_close(g1.battlefield@, g0.battlefield@, d),
        same_but_battlefield(g0, g1),
    ensures
        g0.wf() ==> g1.wf(),
        g1.within(k - 1),
{
    let n = g0.battlefield@.len() as int;
    assert forall|i: int| 0 <= i < n implies #[trigger] g1.battlefield@[i].stats_within(k - 1, n) by {
        assert(g0.battlefield@[i].stats_within(k, n));
        assert(close(g1.battlefield@[i], g0.battlefield@[i], d));
    }
    assert forall|i: int| 0 <= i < n implies (#[trigger] g1.battlefield@[i]).owner < 2 && g1.battlefield@[i].controller < 2 by {
        assert(g0.battlefield@[i].owner < 2);
        assert(close(g1.battlefield@[i], g0.battlefield@[i], d));
    }
    assert forall|i: int| 0 <= i < g1.players@.len() implies #[trigger] g1.players@[i].stats_within(k - 1) by {
        assert(g0.players@[i].stats_within(k));
    }
}

/// Adding or removing an equipment bonus keeps every permanent close within 1.
proof fn lemma_bonus_close(bf: Seq<Permanent>, e: ObjectId, c: ObjectId)
    requires
        mods_within(bf, 32000),
    ensures
        all_close(unequipped(bf, e, c), bf, 1),
        all_close(equipped(bf, e, c), bf, 1),
{
    lemma_perm_pos(bf, e);
    lemma_perm_pos(bf, c);
    let ie = perm_pos(bf, e);
    let ic = perm_pos(bf, c);
    if ie >= 0 && ic >= 0 {
        match bonus_of(bf[ie].card_name) {
            Some(b) => {
                assert(-1 <= b.power_mod <= 1 && -1 <= b.toughness_mod <= 1);
                assert(-32000 <= bf[ic].power_mod <= 32000);
                assert(close(unequipped(bf, e, c)[ic], bf[ic], 1));
                assert(close(equipped(bf, e, c)[ic], bf[ic], 1));
            },
            None => {},
        }
    }
    assert forall|i: int| 0 <= i < bf.len() implies close(#[trigger] unequipped(bf, e, c)[i], bf[i], 1) by {
        if !(ie >= 0 && ic >= 0 && i == ic) {}
    }
    assert forall|i: int| 0 <= i < bf.len() implies close(#[trigger] equipped(bf, e, c)[i], bf[i], 1) by {
        if !(ie >= 0 && ic >= 0 && i == ic) {}
    }
}

impl GameState {
    /// Add equipment `equip_id`'s stat bonus and keywords to creature `creature_id` (see
    /// `equipped`).
    pub fn apply_equipment_bonuses(&mut self, equip_id: ObjectId, creature_id: ObjectId)
        requires
            mods_within(old(self).battlefield@, 32700),
        ensures
            final(self).battlefield@ == equipped(old(self).battlefield@, equip_id, creature_id),
            *final(self) == (GameState { battlefield: final(self).battlefield, ..*old(self) }),
    {
        proof {
            lemma_perm_pos(self.battlefield@, equip_id);
            lemma_perm_pos(self.battlefield@, creature_id);
        }
        let equip_name = match self.find_permanent(equip_id) {
            Some(p) => p.card_name,
            None => return,
        };
        match equipment_bonus(equip_name) {
            Some(bonus) => {
                match self.perm_index(creature_id) {
                    Some(i) => {
                        let pm = self.battlefield[i].power_mod + bonus.power_mod;
                        let tm = self.battlefield[i].toughness_mod + bonus.toughness_mod;
                        let kw = self.battlefield[i].keywords.0 | bonus.keywords.0;
                        self.battlefield[i].power_mod = pm;
                        self.battlefield[i].toughness_mod = tm;
                        self.battlefield[i].keywords = Keywords(kw);
                        proof {
                            assert(self.battlefield@ =~= equipped(old(self).battlefield@, equip_id, creature_id));
                        }
                    },
                    None => {},
                }
            },
            None => {},
        }
    }

    /// Take `e` off the attachment list of permanent `host` (see `link_dropped`).
    fn drop_link(&mut self, host: ObjectId, e: ObjectId)
        ensures
            link_dropped(old(self).battlefield@, final(self).battlefield@, host, e),
            *final(self) == (GameState { battlefield: final(self).battlefield, ..*old(self) }),
    {
        proof { lemma_perm_pos(self.battlefield@, host); }
        match self.perm_index(host) {
            Some(i) => {
                let mut att = crate::player::copy_ids(&self.battlefield[i].attachments);
                remove_all_ids(&mut att, e);
                self.battlefield[i].attachments = att;
                proof {
                    let bf0 = old(self).battlefield@;
                    assert(self.battlefield@ =~= bf0.update(i as int, Permanent { attachments: self.battlefield@[i as int].attachments, ..bf0[i as int] }));
                }
            },
            None => {},
        }
    }

    /// Add `e` to the attachment list of permanent `host` (see `link_added`).
    fn add_link(&mut self, host: ObjectId, e: ObjectId)
        ensures
            link_added(old(self).battlefield@, final(self).battlefield@, host, e),
            *final(self) == (GameState { battlefield: final(self).battlefield, ..*old(self) }),
    {
        proof { lemma_perm_pos(self.battlefield@, host); }
        match self.perm_index(host) {
            Some(i) => {
                if !crate::player::contains_id(&self.battlefield[i].attachments, e) {
                    let mut att = crate::player::copy_ids(&self.battlefield[i].attachments);
                    att.push(e);
                    self.battlefield[i].attachments = att;
                    proof {
                        let bf0 = old(self).battlefield@;
                        assert(self.battlefield@ =~= bf0.update(i as int, Permanent { attachments: self.battlefield@[i as int].attachments, ..bf0[i as int] }));
                    }
                }
            },
            None => {},
        }
    }

    /// Mark equipment `e` as attached to `t` (see `attached_set`).
    fn set_attached(&mut self, e: ObjectId, t: Option<ObjectId>)
        ensures
            final(self).battlefield@ == attached_set(old(self).battlefield@, e, t),
            *final(self) == (GameState { battlefield: final(self).battlefield, ..*old(self) }),
    {
        proof { lemma_perm_pos(self.battlefield@, e); }
        match self.perm_index(e) {
            Some(i) => {
                self.battlefield[i].attached_to = t;
                proof { assert(self.battlefield@ =~= attached_set(old(self).battlefield@, e, t)); }
            },
            None => {},
        }
    }

    /// The host equipment `e` is attached to, if any.
    fn host_of_equipment(&self, e: ObjectId) -> (r: Option<ObjectId>)
        ensures
            r == host_of(self.battlefield@, e),
    {
        proof { lemma_perm_pos(self.battlefield@, e); }
        match self.find_permanent(e) {
            Some(p) => p.attached_to,
            None => None,
        }
    }

    /// Attach equipment `equip_id` to creature `creature_id` (see `equipment_attached`).
    pub fn do_attach_equipment(&mut self, equip_id: ObjectId, creature_id: ObjectId)
        requires
            mods_within(old(self).battlefield@, 32000),
        ensures
            equipment_attached(*old(self), *final(self), equip_id, creature_id),
    {
        let ghost bf0 = self.battlefield@;
        let old_host = self.host_of_equipment(equip_id);
        match old_host {
            Some(h) => {
                proof {
                    assert forall|i: int| 0 <= i < bf0.len() implies -32000 <= #[trigger] bf0[i].power_mod <= 32000
                        && -32000 <= bf0[i].toughness_mod <= 32000 by {}
                }
                self.remove_equipment_bonuses(equip_id, h);
                self.drop_link(h, equip_id);
            },
            None => {},
        }
        let ghost b2 = self.battlefield@;
        proof {
            match old_host {
                Some(h) => {
                    lemma_bonus_close(bf0, equip_id, h);
                    let b1 = unequipped(bf0, equip_id, h);
                    lemma_perm_pos(b1, h);
                    assert(all_close(b2, b1, 1));
                    lemma_close_trans(b2, b1, bf0, 1, 1);
                },
                None => {},
            }
        }
        self.set_attached(equip_id, Some(creature_id));
        let ghost b3 = self.battlefield@;
        self.add_link(creature_id, equip_id);
        let ghost b4 = self.battlefield@;
        proof {
            lemma_perm_pos(b2, equip_id);
            lemma_perm_pos(b3, creature_id);
            assert(all_close(b3, b2, 0));
            assert(all_close(b4, b3, 1));
            match old_host {
                Some(h) => {
                    lemma_close_trans(b3, b2, bf0, 2, 0);
                },
                None => {
                    assert(all_close(b2, bf0, 2));
                    lemma_close_trans(b3, b2, bf0, 2, 0);
                },
            }
            lemma_close_trans(b4, b3, bf0, 2, 1);
            assert forall|i: int| 0 <= i < b4.len() implies -32700 <= #[trigger] b4[i].power_mod <= 32700
                && -32700 <= b4[i].toughness_mod <= 32700 by {
                assert(close(b4[i], bf0[i], 3));
            }
        }
        self.apply_equipment_bonuses(equip_id, creature_id);
        proof {
            assert(left_host(bf0, b2, equip_id));
            assert(link_added(attached_set(b2, equip_id, Some(creature_id)), b4, creature_id, equip_id));
        }
    }

    /// Take equipment `equip_id` off its host (bonus and links) and move it to `zone`.
    pub fn detach_and_remove(&mut self, equip_id: ObjectId, zone: DestinationZone)
        requires
            old(self).wf(),
            old(self).within(1),
        ensures
            exists|gd: GameState, r: Option<Permanent>|
                #[trigger] detached(old(self).battlefield@, gd.battlefield@, equip_id)
                && gd == (GameState { battlefield: gd.battlefield, ..*old(self) })
                && #[trigger] removed_to_zone(gd, *final(self), equip_id, zone, r),
    {
        let ghost g0 = *self;
        let ghost bf0 = self.battlefield@;
        let old_host = self.host_of_equipment(equip_id);
        match old_host {
            Some(h) => {
                proof {
                    assert forall|i: int| 0 <= i < bf0.len() implies -32000 <= #[trigger] bf0[i].power_mod <= 32000
                        && -32000 <= bf0[i].toughness_mod <= 32000 by {
                        assert(bf0[i].stats_within(1, bf0.len() as int));
                    }
                }
                self.remove_equipment_bonuses(equip_id, h);
                self.drop_link(h, equip_id);
                let ghost b2 = self.battlefield@;
                self.set_attached(equip_id, None);
                proof {
                    lemma_bonus_close(bf0, equip_id, h);
                    let b1 = unequipped(bf0, equip_id, h);
                    lemma_perm_pos(b1, h);
                    lemma_perm_pos(b2, equip_id);
                    assert(all_close(b2, b1, 0));
                    lemma_close_trans(b2, b1, bf0, 1, 0);
                    assert(all_close(self.battlefield@, b2, 0));
                    lemma_close_trans(self.battlefield@, b2, bf0, 1, 0);
                    lemma_close_step(g0, *self, 1, 1);
                    assert(link_dropped(b1, b2, h, equip_id));
                    assert(left_host(bf0, b2, equip_id));
                }
            },
            None => {
                proof { crate::game::bounds::lemma_within_mono(g0, 1, 0); }
            },
        }
        let ghost gd = *self;
        let r = self.remove_permanent_to_zone(equip_id, zone);
        proof {
            assert(detached(bf0, gd.battlefield@, equip_id));
            assert(removed_to_zone(gd, *self, equip_id, zone, r));
        }
    }
}

} // verus!
