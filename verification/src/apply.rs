//! Applying a player's action to the game state.
use vstd::prelude::*;
use crate::action::{Action, ActionContext};
use crate::card::{CardDef, CardName, find_card, lookup};
use crate::game::{ChoiceKind, ChoiceReason, GameState, PendingChoice, perm_pos, lemma_perm_pos, registered_name};
use crate::game::abilities::entering_card;
use crate::mana::ManaPool;
use crate::movegen::{cost_with_taxes, fetchable, mana_tapped, mana_fits};
use crate::permanent::Permanent;
use crate::player::{Player, first_index, position_of, copy_ids};
use crate::stack::{StackItem, StackItemKind, ActivatedEffect, copy_targets};
use crate::types::{Color, Keyword, ObjectId, PlayerId, Target};

verus! {

/// `s` without the first occurrence of `x` (unchanged when `x` does not occur).
pub open spec fn without_first(s: Seq<ObjectId>, x: ObjectId) -> Seq<ObjectId> {
    if s.contains(x) { s.remove(first_index(s, x)) } else { s }
}

/// `p1` is `p0` with `id` moved from the front-most place in `from` to the top of `to`;
/// `from` and `to` name zones: 0 hand, 1 library, 2 graveyard.
pub open spec fn zone(p: Player, z: int) -> Seq<ObjectId> {
    if z == 0 { p.hand@ } else if z == 1 { p.library@ } else { p.graveyard@ }
}

/// `p1` is `p0` after the first `id` in zone `from` moved to the end of zone `to`
/// (nothing changes when `id` is not in `from`).
pub open spec fn card_moved(p0: Player, p1: Player, id: ObjectId, from: int, to: int) -> bool {
    if !zone(p0, from).contains(id) {
        p1 == p0
    } else {
        &&& p1 == (Player { hand: p1.hand, library: p1.library, graveyard: p1.graveyard, ..p0 })
        &&& forall|z: int| 0 <= z < 3 ==> #[trigger] zone(p1, z) == {
            let s = if z == from { without_first(zone(p0, z), id) } else { zone(p0, z) };
            if z == to { s.push(id) } else { s }
        }
    }
}

/// `g1` is `g0` after the card chosen for a list choice `(player, reason)` was handled: a
/// tutor moves it from the library to hand (Demonic Tutor), to the top of the library
/// (Vampiric, Mystical) or to the graveyard (Entomb); Thoughtseize moves it from the
/// opponent's hand to their graveyard; a land search puts it onto the battlefield.
pub open spec fn choice_resolved(g0: GameState, g1: GameState, player: PlayerId, reason: ChoiceReason, id: ObjectId, db: Seq<CardDef>) -> bool {
    let p = player as int;
    let o = 1 - p;
    match reason {
        ChoiceReason::DemonicTutorSearch => g1 == (GameState { players: g1.players, ..g0 })
            && g1.players@ == g0.players@.update(p, g1.players@[p]) && card_moved(g0.players@[p], g1.players@[p], id, 1, 0),
        ChoiceReason::VampiricTutorSearch | ChoiceReason::MysticalTutorSearch => g1 == (GameState { players: g1.players, ..g0 })
            && g1.players@ == g0.players@.update(p, g1.players@[p]) && card_moved(g0.players@[p], g1.players@[p], id, 1, 1),
        ChoiceReason::EntombSearch => g1 == (GameState { players: g1.players, ..g0 })
            && g1.players@ == g0.players@.update(p, g1.players@[p]) && card_moved(g0.players@[p], g1.players@[p], id, 1, 2),
        ChoiceReason::ThoughtseizeDiscard => g1 == (GameState { players: g1.players, ..g0 })
            && g1.players@ == g0.players@.update(o, g1.players@[o]) && card_moved(g0.players@[o], g1.players@[o], id, 0, 2),
        ChoiceReason::GenericSearch => {
            let p0 = g0.players@[p];
            if !p0.library@.contains(id) {
                g1 == g0
            } else {
                &&& g1.players@ == g0.players@.update(p, Player { library: g1.players@[p].library, ..p0 })
                &&& g1.players@[p].library@ == without_first(p0.library@, id)
                &&& match registered_name(g0.card_registry@, id) {
                    Some(cn) => match lookup(db, cn) {
                        Some(d) => {
                            let bf = g1.battlefield@;
                            &&& bf.len() == g0.battlefield@.len() + 1
                            &&& bf.drop_last() == g0.battlefield@
                            &&& entering_card(bf.last(), id, cn, player, d)
                            &&& !bf.last().tapped
                            &&& bf.last().colors@.len() == 0
                        },
                        None => g1.battlefield == g0.battlefield,
                    },
                    None => g1.battlefield == g0.battlefield,
                }
                &&& g1 == (GameState { players: g1.players, battlefield: g1.battlefield, ..g0 })
            }
        },
        _ => g1 == g0,
    }
}

/// `g1` is `g0` after `player` chose `color` for a mana choice: Black Lotus (and Lion's Eye
/// Diamond) add three mana of that color, Lotus Petal one.
pub open spec fn color_resolved(g0: GameState, g1: GameState, player: PlayerId, reason: ChoiceReason, color: Color) -> bool {
    let p = player as int;
    let p0 = g0.players@[p];
    let n: int = match reason {
        ChoiceReason::BlackLotusColor => 3,
        ChoiceReason::LotusPetalColor => 1,
        _ => 0,
    };
    if n == 0 {
        g1 == g0
    } else {
        &&& g1.players@ == g0.players@.update(p, Player {
            mana_pool: p0.mana_pool.with_amount(Some(color), (p0.mana_pool.amount(Some(color)) + n) as u8),
            ..p0
        })
        &&& g1 == (GameState { players: g1.players, ..g0 })
    }
}

impl GameState {
    /// Move the first `id` from one zone of player `pid` to the end of another (see `card_moved`).
    fn move_card(&mut self, pid: usize, id: ObjectId, from: u8, to: u8)
        requires
            pid < old(self).players@.len(),
            from < 3,
            to < 3,
        ensures
            final(self).players@ == old(self).players@.update(pid as int, final(self).players@[pid as int]),
            card_moved(old(self).players@[pid as int], final(self).players@[pid as int], id, from as int, to as int),
            *final(self) == (GameState { players: final(self).players, ..*old(self) }),
    {
        let pos = if from == 0 {
            position_of(&self.players[pid].hand, id)
        } else if from == 1 {
            position_of(&self.players[pid].library, id)
        } else {
            position_of(&self.players[pid].graveyard, id)
        };
        let pos = match pos {
            Some(i) => i,
            None => {
                proof { assert(self.players@ =~= old(self).players@.update(pid as int, self.players@[pid as int])); }
                return;
            },
        };
        if from == 0 {
            self.players[pid].hand.remove(pos);
        } else if from == 1 {
            self.players[pid].library.remove(pos);
        } else {
            self.players[pid].graveyard.remove(pos);
        }
        if to == 0 {
            self.players[pid].hand.push(id);
        } else if to == 1 {
            self.players[pid].library.push(id);
        } else {
            self.players[pid].graveyard.push(id);
        }
        proof {
            let p0 = old(self).players@[pid as int];
            let p1 = self.players@[pid as int];
            assert(self.players@ =~= old(self).players@.update(pid as int, p1));
            assert(p1 == (Player { hand: p1.hand, library: p1.library, graveyard: p1.graveyard, ..p0 }));
            assert forall|z: int| 0 <= z < 3 implies #[trigger] zone(p1, z) == {
                let s = if z == from { without_first(zone(p0, z), id) } else { zone(p0, z) };
                if z == to { s.push(id) } else { s }
            } by {
                assert(zone(p0, from as int).contains(id));
                let s = if z == from { without_first(zone(p0, z), id) } else { zone(p0, z) };
                assert(zone(p1, z) =~= if z == to { s.push(id) } else { s });
            }
        }
    }

    /// Handle the card chosen for a pending list choice (see `choice_resolved`).
    pub fn resolve_choice(&mut self, choice: PendingChoice, card_id: ObjectId, db: &[CardDef])
        requires
            choice.player < 2,
            old(self).wf(),
        ensures
            match choice.kind {
                ChoiceKind::ChooseFromList { reason, .. } => choice_resolved(*old(self), *final(self), choice.player, reason, card_id, db@),
                _ => *final(self) == *old(self),
            },
    {
        let pid = choice.player as usize;
        match choice.kind {
            ChoiceKind::ChooseFromList { reason, .. } => {
                match reason {
                    ChoiceReason::DemonicTutorSearch => self.move_card(pid, card_id, 1, 0),
                    ChoiceReason::VampiricTutorSearch | ChoiceReason::MysticalTutorSearch => self.move_card(pid, card_id, 1, 1),
                    ChoiceReason::EntombSearch => self.move_card(pid, card_id, 1, 2),
                    ChoiceReason::ThoughtseizeDiscard => {
                        let target_player = self.opponent(choice.player) as usize;
                        self.move_card(target_player, card_id, 0, 2);
                    },
                    ChoiceReason::GenericSearch => {
                        let pos = match position_of(&self.players[pid].library, card_id) {
                            Some(i) => i,
                            None => return,
                        };
                        self.players[pid].library.remove(pos);
                        let ghost g1 = *self;
                        proof {
                            assert(self.players@ =~= old(self).players@.update(pid as int, Player {
                                library: self.players@[pid as int].library, ..old(self).players@[pid as int] }));
                        }
                        match self.card_name_for_id(card_id) {
                            Some(cn) => match find_card(db, cn) {
                                Some(def) => self.enter_card(card_id, cn, choice.player, def, false),
                                None => {},
                            },
                            None => {},
                        }
                    },
                    _ => {},
                }
            },
            _ => {},
        }
    }

    /// Add the mana a color choice asks for (see `color_resolved`).
    pub fn resolve_color_choice(&mut self, choice: PendingChoice, color: Color)
        requires
            choice.player < old(self).players@.len(),
            old(self).players@[choice.player as int].mana_pool.amount(Some(color)) + 3 <= u8::MAX,
        ensures
            match choice.kind {
                ChoiceKind::ChooseColor { reason } => color_resolved(*old(self), *final(self), choice.player, reason, color),
                _ => *final(self) == *old(self),
            },
    {
        let pid = choice.player as usize;
        match choice.kind {
            ChoiceKind::ChooseColor { reason } => {
                match reason {
                    ChoiceReason::BlackLotusColor => {
                        self.players[pid].mana_pool.add(Some(color), 3);
                        proof { assert(self.players@ =~= old(self).players@.update(pid as int, self.players@[pid as int])); }
                    },
                    ChoiceReason::LotusPetalColor => {
                        self.players[pid].mana_pool.add(Some(color), 1);
                        proof { assert(self.players@ =~= old(self).players@.update(pid as int, self.players@[pid as int])); }
                    },
                    _ => {},
                }
            },
            _ => {},
        }
    }
}


/// `bf1` is `bf0` with card `id` entered for `owner` when it is registered and defined in
/// `db`; otherwise `bf1` is `bf0`.
pub open spec fn card_entered(bf0: Seq<Permanent>, bf1: Seq<Permanent>, reg: Seq<(ObjectId, CardName)>, id: ObjectId, owner: PlayerId, db: Seq<CardDef>) -> bool {
    match registered_name(reg, id) {
        Some(cn) => match lookup(db, cn) {
            Some(d) => {
                &&& bf1.len() == bf0.len() + 1
                &&& bf1.drop_last() == bf0
                &&& entering_card(bf1.last(), id, cn, owner, d)
                &&& !bf1.last().tapped
                &&& bf1.last().colors@.len() == 0
            },
            None => bf1 == bf0,
        },
        None => bf1 == bf0,
    }
}

/// `g1` is `g0` after the priority player played land card `id` from hand: one land play
/// is used and the land enters; nothing happens when the card is not in hand.
pub open spec fn land_played(g0: GameState, g1: GameState, id: ObjectId, db: Seq<CardDef>) -> bool {
    let pid = g0.priority_player as int;
    let p0 = g0.players@[pid];
    if !p0.hand@.contains(id) {
        g1 == g0
    } else {
        &&& g1.players@ == g0.players@.update(pid, Player {
            hand: g1.players@[pid].hand,
            land_plays_remaining: (p0.land_plays_remaining - 1) as u8,
            ..p0
        })
        &&& g1.players@[pid].hand@ == without_first(p0.hand@, id)
        &&& card_entered(g0.battlefield@, g1.battlefield@, g0.card_registry@, id, g0.priority_player, db)
        &&& g1 == (GameState { players: g1.players, battlefield: g1.battlefield, ..g0 })
    }
}

/// `s1` is `s0` with one new item on top: the next id, `kind`, `controller` and
/// `targets`, and no flags.
pub open spec fn item_pushed(s0: crate::stack::GameStack, s1: crate::stack::GameStack, kind: StackItemKind, controller: PlayerId, targets: Seq<Target>) -> bool {
    let it = s1.items@.last();
    &&& s1.items@.len() == s0.items@.len() + 1
    &&& s1.items@.drop_last() == s0.items@
    &&& s1.next_id == s0.next_id.wrapping_add(1)
    &&& it.id == s0.next_id
    &&& it.kind == kind
    &&& it.controller == controller
    &&& it.targets@ == targets
    &&& !it.cant_be_countered
    &&& it.x_value == 0
    &&& !it.cast_from_graveyard
    &&& !it.cast_as_adventure
    &&& it.modes@.len() == 0
    &&& !it.is_copy
}

/// `g1` is `g0` after the priority player cast card `id` with `targets`: when the card is
/// known and the pool covers its cost after taxes, the cost is paid, the card leaves the
/// hand, the spell goes on the stack, the spell and storm counts rise and priority passes
/// are reset; otherwise nothing happens.
pub open spec fn spell_cast(g0: GameState, g1: GameState, id: ObjectId, targets: Seq<Target>, db: Seq<CardDef>) -> bool {
    let pid = g0.priority_player as int;
    let p0 = g0.players@[pid];
    match registered_name(g0.card_registry@, id) {
        Some(cn) => match lookup(db, cn) {
            Some(d) => {
                let cost = cost_with_taxes(g0.battlefield@, d, g0.priority_player);
                if !p0.mana_pool.covers(cost) {
                    g1 == g0
                } else {
                    &&& g1.players@ == g0.players@.update(pid, Player {
                        hand: g1.players@[pid].hand,
                        mana_pool: p0.mana_pool.paid(cost),
                        spells_cast_this_turn: (p0.spells_cast_this_turn + 1) as u32,
                        ..p0
                    })
                    &&& g1.players@[pid].hand@ == without_first(p0.hand@, id)
                    &&& item_pushed(g0.stack, g1.stack, StackItemKind::Spell { card_name: cn, card_id: id, cast_via_evoke: false },
                        g0.priority_player, targets)
                    &&& g1.storm_count == g0.storm_count + 1
                    &&& g1.passed_priority@ == seq![false, false]
                    &&& g1 == (GameState {
                        players: g1.players,
                        stack: g1.stack,
                        storm_count: g1.storm_count,
                        passed_priority: g1.passed_priority,
                        ..g0
                    })
                }
            },
            None => g1 == g0,
        },
        None => g1 == g0,
    }
}

/// `g1` is `g0` after creature `id` was declared as an attacker against the defending
/// player: it is recorded, and tapped unless it has vigilance.
pub open spec fn attacker_declared(g0: GameState, g1: GameState, id: ObjectId) -> bool {
    let bf = g0.battlefield@;
    let i = perm_pos(bf, id);
    &&& g1.attackers@ == g0.attackers@.push((id, (1 - g0.active_player) as PlayerId))
    &&& g1.battlefield@ == if i >= 0 {
        bf.update(i, Permanent {
            tapped: bf[i].tapped || !bf[i].keywords.holds(Keyword::Vigilance),
            attacked_this_turn: true,
            ..bf[i]
        })
    } else {
        bf
    }
    &&& g1 == (GameState { attackers: g1.attackers, battlefield: g1.battlefield, ..g0 })
}

impl GameState {
    /// The priority player plays land card `card_id` (see `land_played`).
    pub fn play_land(&mut self, card_id: ObjectId, db: &[CardDef])
        requires
            old(self).wf(),
            old(self).players@[old(self).priority_player as int].hand@.contains(card_id)
                ==> old(self).players@[old(self).priority_player as int].land_plays_remaining > 0,
        ensures
            land_played(*old(self), *final(self), card_id, db@),
    {
        let pid = self.priority_player as usize;
        if !crate::player::contains_id(&self.players[pid].hand, card_id) {
            return;
        }
        let card_name = self.card_name_for_id(card_id);
        self.players[pid].remove_from_hand(card_id);
        let n = self.players[pid].land_plays_remaining - 1;
        self.players[pid].land_plays_remaining = n;
        proof {
            assert(self.players@ =~= old(self).players@.update(pid as int, Player {
                hand: self.players@[pid as int].hand,
                land_plays_remaining: n,
                ..old(self).players@[pid as int]
            }));
        }
        match card_name {
            Some(cn) => match find_card(db, cn) {
                Some(def) => self.enter_card(card_id, cn, self.priority_player, def, false),
                None => {},
            },
            None => {},
        }
    }

    /// The priority player casts card `card_id` with `targets` (see `spell_cast`).
    pub fn cast_spell(&mut self, card_id: ObjectId, targets: &Vec<Target>, db: &[CardDef])
        requires
            old(self).wf(),
            crate::game::db_ok(db@),
            old(self).storm_count < u16::MAX,
            old(self).players@[old(self).priority_player as int].spells_cast_this_turn < u32::MAX,
        ensures
            spell_cast(*old(self), *final(self), card_id, targets@, db@),
    {
        let player_id = self.priority_player;
        let pid = player_id as usize;
        let cn = match self.card_name_for_id(card_id) {
            Some(cn) => cn,
            None => return,
        };
        let def = match find_card(db, cn) {
            Some(d) => d,
            None => return,
        };
        proof { crate::game::abilities::lemma_lookup_ok(db@, cn); }
        let cost = self.effective_cost(def, player_id);
        if !self.players[pid].mana_pool.can_pay(&cost) {
            return;
        }
        self.players[pid].mana_pool.pay(&cost);
        self.players[pid].remove_from_hand(card_id);
        let copied = copy_targets(targets);
        self.stack.push(StackItemKind::Spell { card_name: cn, card_id, cast_via_evoke: false }, player_id, copied);
        proof { assert(self.stack.items@.drop_last() =~= old(self).stack.items@); }
        let c = self.players[pid].spells_cast_this_turn + 1;
        self.players[pid].spells_cast_this_turn = c;
        self.storm_count = self.storm_count + 1;
        let ghost g1 = *self;
        self.reset_priority_passes();
        proof {
            let p0 = old(self).players@[pid as int];
            assert(self.players@ =~= old(self).players@.update(pid as int, Player {
                hand: self.players@[pid as int].hand,
                mana_pool: p0.mana_pool.paid(cost),
                spells_cast_this_turn: c,
                ..p0
            }));
            if p0.hand@.contains(card_id) {
                assert(self.players@[pid as int].hand@ == without_first(p0.hand@, card_id));
            } else {
                assert(self.players@[pid as int].hand@ == without_first(p0.hand@, card_id));
            }
            assert(self.passed_priority@ =~= seq![false, false]);
        }
    }

    /// Declare creature `creature_id` as an attacker (see `attacker_declared`).
    pub fn declare_attacker(&mut self, creature_id: ObjectId)
        requires
            old(self).active_player < 2,
        ensures
            attacker_declared(*old(self), *final(self), creature_id),
    {
        let defending_player = self.opponent(self.active_player);
        self.attackers.push((creature_id, defending_player));
        proof { lemma_perm_pos(self.battlefield@, creature_id); }
        match self.find_permanent_mut(creature_id) {
            Some(perm) => {
                if !perm.keywords.has(Keyword::Vigilance) {
                    perm.tapped = true;
                }
                perm.attacked_this_turn = true;
            },
            None => {},
        }
    }
}


/// `g1` is `g0` after permanent `id` (when on the battlefield) was taken off it and put
/// into its owner's graveyard.
pub open spec fn sacrificed(g0: GameState, g1: GameState, id: ObjectId) -> bool {
    let bf = g0.battlefield@;
    let i = perm_pos(bf, id);
    if i < 0 {
        g1 == g0
    } else {
        let o = bf[i].owner as int;
        let p0 = g0.players@[o];
        &&& g1.battlefield@ == bf.update(i, bf.last()).drop_last()
        &&& g1.players@ == g0.players@.update(o, Player { graveyard: g1.players@[o].graveyard, ..p0 })
        &&& g1.players@[o].graveyard@ == p0.graveyard@.push(id)
        &&& g1 == (GameState { battlefield: g1.battlefield, players: g1.players, ..g0 })
    }
}

/// `g1` is `g0` after player `c` put their whole hand into their graveyard.
pub open spec fn hand_dumped(g0: GameState, g1: GameState, c: int) -> bool {
    let p0 = g0.players@[c];
    &&& g1.players@ == g0.players@.update(c, Player { hand: g1.players@[c].hand, graveyard: g1.players@[c].graveyard, ..p0 })
    &&& g1.players@[c].hand@.len() == 0
    &&& g1.players@[c].graveyard@ == p0.graveyard@ + p0.hand@
    &&& g1 == (GameState { players: g1.players, ..g0 })
}

/// `g1` is `g0` after a mana artifact `id` was sacrificed and its controller `c` was asked
/// for the color (`reason` says how much mana).
pub open spec fn mana_sacrificed(g0: GameState, g1: GameState, id: ObjectId, c: PlayerId, reason: ChoiceReason) -> bool {
    exists|gm: GameState| #[trigger] sacrificed(g0, gm, id)
        && g1 == (GameState { pending_choice: Some(PendingChoice { player: c, kind: ChoiceKind::ChooseColor { reason } }), ..gm })
}

/// `g1` is `g0` after player `c` paid `n` life.
pub open spec fn life_paid(g0: GameState, g1: GameState, c: int, n: int) -> bool {
    let p0 = g0.players@[c];
    &&& g1.players@ == g0.players@.update(c, Player { life: (p0.life - n) as i32, ..p0 })
    &&& g1 == (GameState { players: g1.players, ..g0 })
}

/// The library cards the fetch land `fetch` can find.
pub open spec fn fetch_filter(reg: Seq<(ObjectId, CardName)>, fetch: CardName) -> spec_fn(ObjectId) -> bool {
    |id: ObjectId| registered_name(reg, id) matches Some(cn) && fetchable(fetch, cn)
}

/// Whether `pc` asks player `c` to choose among `opts` for `reason`.
pub open spec fn list_choice(pc: Option<PendingChoice>, c: PlayerId, opts: Seq<ObjectId>, reason: ChoiceReason) -> bool {
    match pc {
        Some(PendingChoice { player, kind: ChoiceKind::ChooseFromList { options, reason: r } }) => player == c && options@ == opts && r == reason,
        _ => false,
    }
}

/// `g1` is `g0` after fetch land `id` (named `fetch`) of player `c` was cracked: one life
/// is paid, the land is sacrificed, and when the library holds lands it can find, `c` is
/// asked to choose one of them.
pub open spec fn fetch_cracked(g0: GameState, g1: GameState, id: ObjectId, c: PlayerId, fetch: CardName) -> bool {
    exists|gl: GameState, gs: GameState| #[trigger] life_paid(g0, gl, c as int, 1) && #[trigger] sacrificed(gl, gs, id) && {
        let opts = gs.players@[c as int].library@.filter(fetch_filter(gs.card_registry@, fetch));
        if opts.len() > 0 {
            &&& list_choice(g1.pending_choice, c, opts, ChoiceReason::GenericSearch)
            &&& g1 == (GameState { pending_choice: g1.pending_choice, ..gs })
        } else {
            g1 == gs
        }
    }
}

/// `g1` is `g0` after the land `id` was sacrificed to destroy the first target, when that
/// target is a permanent.
pub open spec fn land_destroyed(g0: GameState, g1: GameState, id: ObjectId, targets: Seq<Target>) -> bool {
    exists|gs: GameState| #[trigger] sacrificed(g0, gs, id) && if targets.len() > 0 && targets[0] is Object {
        sacrificed(gs, g1, targets[0]->Object_0)
    } else {
        g1 == gs
    }
}

/// `g1` is `g0` after planeswalker ability `idx` of the permanent at `i` was used: the
/// permanent is marked as having used loyalty this turn, its loyalty moves by `delta`, and
/// `effect` (when there is one) goes on the stack with `targets`.
pub open spec fn loyalty_used(g0: GameState, g1: GameState, i: int, delta: int, effect: Option<ActivatedEffect>, targets: Seq<Target>) -> bool {
    let p = g0.battlefield@[i];
    &&& g1.battlefield@ == g0.battlefield@.update(i, Permanent {
        loyalty_activated_this_turn: true,
        loyalty: (p.loyalty + delta) as i16,
        ..p
    })
    &&& match effect {
        Some(e) => item_pushed(g0.stack, g1.stack, StackItemKind::ActivatedAbility { source_id: p.id, source_name: p.card_name, effect: e },
            p.controller, targets),
        None => g1.stack == g0.stack,
    }
    &&& g1 == (GameState { battlefield: g1.battlefield, stack: g1.stack, ..g0 })
}

/// `g1` is `g0` after ability `idx` of permanent `id` was activated with `targets`:
/// Black Lotus and Lotus Petal are sacrificed for mana of a color to be chosen; Lion's Eye
/// Diamond also discards its controller's hand; a fetch land costs one life and offers the
/// lands it finds; Strip Mine and Wasteland (ability 1) are sacrificed to destroy the
/// target land; Jace (+2, 0: Brainstorm, -1: bounce) and Teferi (+1, -3: bounce) change
/// loyalty and put their effect on the stack. Anything else does nothing.
pub open spec fn ability_applied(g0: GameState, g1: GameState, id: ObjectId, idx: u8, targets: Seq<Target>) -> bool {
    let bf = g0.battlefield@;
    let i = perm_pos(bf, id);
    if i < 0 {
        g1 == g0
    } else {
        let p = bf[i];
        let c = p.controller;
        match p.card_name {
            CardName::BlackLotus => mana_sacrificed(g0, g1, id, c, ChoiceReason::BlackLotusColor),
            CardName::LotusPetal => mana_sacrificed(g0, g1, id, c, ChoiceReason::LotusPetalColor),
            CardName::LionEyeDiamond => exists|gh: GameState| #[trigger] hand_dumped(g0, gh, c as int)
                && mana_sacrificed(gh, g1, id, c, ChoiceReason::BlackLotusColor),
            CardName::StripMine | CardName::Wasteland => if idx == 1 { land_destroyed(g0, g1, id, targets) } else { g1 == g0 },
            CardName::JaceTheMindSculptor => match idx {
                0 => loyalty_used(g0, g1, i, 2, None, targets),
                1 => loyalty_used(g0, g1, i, 0, Some(ActivatedEffect::JaceBrainstorm), targets),
                2 => loyalty_used(g0, g1, i, -1, Some(ActivatedEffect::JaceBounce), targets),
                _ => loyalty_used(g0, g1, i, 0, None, targets),
            },
            CardName::TeferiTimeRaveler => match idx {
                0 => loyalty_used(g0, g1, i, 1, None, targets),
                1 => loyalty_used(g0, g1, i, -3, Some(ActivatedEffect::TeferiBounce), targets),
                _ => loyalty_used(g0, g1, i, 0, None, targets),
            },
            _ => if crate::movegen::fetch_land(p.card_name) { fetch_cracked(g0, g1, id, c, p.card_name) } else { g1 == g0 },
        }
    }
}

/// The numbers an ability of `id` touches have room: owners and controllers index
/// players, the loyalty can move by three, and the controller can pay a life.
pub open spec fn ability_fits(g: GameState, id: ObjectId) -> bool {
    let bf = g.battlefield@;
    let i = perm_pos(bf, id);
    &&& forall|j: int| 0 <= j < bf.len() ==> (#[trigger] bf[j]).owner < 2 && bf[j].controller < 2
    &&& i >= 0 ==> i16::MIN + 3 <= bf[i].loyalty <= i16::MAX - 3 && g.players@[bf[i].controller as int].life > i32::MIN
}

impl GameState {
    /// Take permanent `id` off the battlefield into its owner's graveyard (see `sacrificed`).
    fn sacrifice(&mut self, id: ObjectId)
        requires
            old(self).wf(),
            forall|j: int| 0 <= j < old(self).battlefield@.len() ==> (#[trigger] old(self).battlefield@[j]).owner < 2,
        ensures
            sacrificed(*old(self), *final(self), id),
            final(self).wf(),
            forall|j: int| 0 <= j < final(self).battlefield@.len() ==> (#[trigger] final(self).battlefield@[j]).owner < 2,
    {
        proof { lemma_perm_pos(self.battlefield@, id); }
        match self.remove_permanent(id) {
            Some(perm) => {
                let o = perm.owner as usize;
                self.players[o].graveyard.push(perm.id);
                proof {
                    assert(self.players@ =~= old(self).players@.update(o as int, Player { graveyard: self.players@[o as int].graveyard, ..old(self).players@[o as int] }));
                    let bf = old(self).battlefield@;
                    let i = perm_pos(bf, id);
                    assert forall|j: int| 0 <= j < self.battlefield@.len() implies (#[trigger] self.battlefield@[j]).owner < 2 by {
                        if j == i { assert(self.battlefield@[j] == bf[bf.len() - 1]); } else { assert(self.battlefield@[j] == bf[j]); }
                    }
                }
            },
            None => {},
        }
    }

    /// Player `c` puts their hand into their graveyard (see `hand_dumped`).
    pub(crate) fn dump_hand(&mut self, c: usize)
        requires
            c < old(self).players@.len(),
        ensures
            hand_dumped(*old(self), *final(self), c as int),
    {
        let mut gy = copy_ids(&self.players[c].graveyard);
        let ghost g0 = self.players@[c as int].graveyard@;
        let ghost h = self.players@[c as int].hand@;
        let mut k: usize = 0;
        while k < self.players[c].hand.len()
            invariant
                c < self.players@.len(),
                *self == *old(self),
                g0 == self.players@[c as int].graveyard@,
                h == self.players@[c as int].hand@,
                k <= h.len(),
                gy@ == g0 + h.subrange(0, k as int),
            decreases h.len() - k,
        {
            gy.push(self.players[c].hand[k]);
            proof { assert(g0 + h.subrange(0, k as int + 1) =~= (g0 + h.subrange(0, k as int)).push(h[k as int])); }
            k = k + 1;
        }
        proof { assert(h.subrange(0, k as int) =~= h); }
        self.players[c].graveyard = gy;
        self.players[c].hand = Vec::new();
        proof {
            assert(self.players@ =~= old(self).players@.update(c as int, Player {
                hand: self.players@[c as int].hand,
                graveyard: self.players@[c as int].graveyard,
                ..old(self).players@[c as int]
            }));
        }
    }

    /// Sacrifice mana artifact `id` and ask `c` for the color (see `mana_sacrificed`).
    fn sacrifice_for_mana(&mut self, id: ObjectId, c: PlayerId, reason: ChoiceReason)
        requires
            old(self).wf(),
            perm_pos(old(self).battlefield@, id) >= 0,
            forall|j: int| 0 <= j < old(self).battlefield@.len() ==> (#[trigger] old(self).battlefield@[j]).owner < 2,
        ensures
            mana_sacrificed(*old(self), *final(self), id, c, reason),
    {
        self.sacrifice(id);
        let ghost gm = *self;
        self.pending_choice = Some(PendingChoice { player: c, kind: ChoiceKind::ChooseColor { reason } });
        proof { assert(sacrificed(*old(self), gm, id)); }
    }

    /// The library cards of player `c` that fetch land `fetch` can find.
    fn fetchable_cards(&self, c: usize, fetch: CardName) -> (r: Vec<ObjectId>)
        requires
            c < self.players@.len(),
        ensures
            r@ == self.players@[c as int].library@.filter(fetch_filter(self.card_registry@, fetch)),
    {
        let ghost f = fetch_filter(self.card_registry@, fetch);
        let ghost lib = self.players@[c as int].library@;
        let mut r: Vec<ObjectId> = Vec::new();
        let mut k: usize = 0;
        while k < self.players[c].library.len()
            invariant
                c < self.players@.len(),
                lib == self.players@[c as int].library@,
                f == fetch_filter(self.card_registry@, fetch),
                k <= lib.len(),
                r@ == lib.subrange(0, k as int).filter(f),
            decreases lib.len() - k,
        {
            let id = self.players[c].library[k];
            proof {
                assert(lib.subrange(0, k as int + 1) =~= lib.subrange(0, k as int).push(id));
                lib.subrange(0, k as int).lemma_filter_push(id, f);
            }
            let ok = match self.card_name_for_id(id) {
                Some(cn) => self.is_fetchable(fetch, cn),
                None => false,
            };
            if ok {
                r.push(id);
            }
            k = k + 1;
        }
        proof { assert(lib.subrange(0, k as int) =~= lib); }
        r
    }

    /// Crack fetch land `id` of player `c` (see `fetch_cracked`).
    fn crack_fetch(&mut self, id: ObjectId, c: PlayerId, fetch: CardName)
        requires
            old(self).wf(),
            c < 2,
            old(self).players@[c as int].life > i32::MIN,
            forall|j: int| 0 <= j < old(self).battlefield@.len() ==> (#[trigger] old(self).battlefield@[j]).owner < 2,
        ensures
            fetch_cracked(*old(self), *final(self), id, c, fetch),
    {
        let ci = c as usize;
        let l = self.players[ci].life - 1;
        self.players[ci].life = l;
        let ghost gl = *self;
        proof {
            assert(self.players@ =~= old(self).players@.update(c as int, Player { life: l, ..old(self).players@[c as int] }));
            assert(life_paid(*old(self), gl, c as int, 1));
        }
        self.sacrifice(id);
        let ghost gs = *self;
        let searchable = self.fetchable_cards(ci, fetch);
        if searchable.len() > 0 {
            self.pending_choice = Some(PendingChoice {
                player: c,
                kind: ChoiceKind::ChooseFromList { options: searchable, reason: ChoiceReason::GenericSearch },
            });
        }
        proof { assert(sacrificed(gl, gs, id)); }
    }

    /// Sacrifice land `id` and destroy the first target (see `land_destroyed`).
    fn destroy_with_land(&mut self, id: ObjectId, targets: &Vec<Target>)
        requires
            old(self).wf(),
            forall|j: int| 0 <= j < old(self).battlefield@.len() ==> (#[trigger] old(self).battlefield@[j]).owner < 2,
        ensures
            land_destroyed(*old(self), *final(self), id, targets@),
    {
        self.sacrifice(id);
        let ghost gs = *self;
        if targets.len() > 0 {
            match targets[0] {
                Target::Object(t) => self.sacrifice(t),
                _ => {},
            }
        }
        proof { assert(sacrificed(*old(self), gs, id)); }
    }

    /// Use planeswalker ability of the permanent at `i` (see `loyalty_used`).
    fn use_loyalty(&mut self, i: usize, delta: i16, effect: Option<ActivatedEffect>, targets: &Vec<Target>)
        requires
            i < old(self).battlefield@.len(),
            -3 <= delta <= 3,
            i16::MIN + 3 <= old(self).battlefield@[i as int].loyalty <= i16::MAX - 3,
        ensures
            loyalty_used(*old(self), *final(self), i as int, delta as int, effect, targets@),
    {
        self.battlefield[i].loyalty_activated_this_turn = true;
        let l = self.battlefield[i].loyalty + delta;
        self.battlefield[i].loyalty = l;
        match effect {
            Some(e) => {
                let source_id = self.battlefield[i].id;
                let source_name = self.battlefield[i].card_name;
                let controller = self.battlefield[i].controller;
                self.stack.push(StackItemKind::ActivatedAbility { source_id, source_name, effect: e }, controller, copy_targets(targets));
                proof { assert(self.stack.items@.drop_last() =~= old(self).stack.items@); }
            },
            None => {},
        }
        proof {
            let p = old(self).battlefield@[i as int];
            assert(self.battlefield@ =~= old(self).battlefield@.update(i as int, Permanent {
                loyalty_activated_this_turn: true,
                loyalty: (p.loyalty + delta) as i16,
                ..p
            }));
        }
    }

    /// Activate ability `ability_index` of permanent `permanent_id` (see `ability_applied`).
    pub fn apply_activated_ability(&mut self, permanent_id: ObjectId, ability_index: u8, targets: &Vec<Target>, db: &[CardDef])
        requires
            old(self).wf(),
            ability_fits(*old(self), permanent_id),
        ensures
            ability_applied(*old(self), *final(self), permanent_id, ability_index, targets@),
    {
        let _ = db;
        proof { lemma_perm_pos(self.battlefield@, permanent_id); }
        let i = match self.perm_index(permanent_id) {
            Some(i) => i,
            None => return,
        };
        let card_name = self.battlefield[i].card_name;
        let controller = self.battlefield[i].controller;
        match card_name {
            CardName::BlackLotus => self.sacrifice_for_mana(permanent_id, controller, ChoiceReason::BlackLotusColor),
            CardName::LotusPetal => self.sacrifice_for_mana(permanent_id, controller, ChoiceReason::LotusPetalColor),
            CardName::LionEyeDiamond => {
                self.dump_hand(controller as usize);
                let ghost gh = *self;
                proof { lemma_perm_pos(self.battlefield@, permanent_id); }
                self.sacrifice_for_mana(permanent_id, controller, ChoiceReason::BlackLotusColor);
                proof { assert(hand_dumped(*old(self), gh, controller as int)); }
            },
            CardName::FloodedStrand | CardName::PollutedDelta | CardName::BloodstainedMire | CardName::WoodedFoothills
            | CardName::WindsweptHeath | CardName::MistyRainforest | CardName::ScaldingTarn | CardName::VerdantCatacombs
            | CardName::AridMesa | CardName::MarshFlats => self.crack_fetch(permanent_id, controller, card_name),
            CardName::StripMine | CardName::Wasteland => {
                if ability_index == 1 {
                    self.destroy_with_land(permanent_id, targets);
                }
            },
            CardName::JaceTheMindSculptor => {
                if ability_index == 0 {
                    self.use_loyalty(i, 2, None, targets);
                } else if ability_index == 1 {
                    self.use_loyalty(i, 0, Some(ActivatedEffect::JaceBrainstorm), targets);
                } else if ability_index == 2 {
                    self.use_loyalty(i, -1, Some(ActivatedEffect::JaceBounce), targets);
                } else {
                    self.use_loyalty(i, 0, None, targets);
                }
            },
            CardName::TeferiTimeRaveler => {
                if ability_index == 0 {
                    self.use_loyalty(i, 1, None, targets);
                } else if ability_index == 1 {
                    self.use_loyalty(i, -3, Some(ActivatedEffect::TeferiBounce), targets);
                } else {
                    self.use_loyalty(i, 0, None, targets);
                }
            },
            _ => {},
        }
    }
}


/// Whether the cleanup that follows an end step can undo every until-end-of-turn effect.
pub open spec fn cleanup_safe(g: GameState) -> bool {
    crate::game::in_end_step(g) ==> crate::game::undo_all_safe(
        g.battlefield@.map_values(|p: Permanent| crate::game::cleaned(p)),
        g.temporary_effects@,
        g.temporary_effects@.len() as int,
    )
}


/// `g1` is `g0` after its priority holder passed (see `GameState::pass_priority`).
pub open spec fn priority_passed(g0: GameState, g1: GameState, db: Seq<CardDef>) -> bool {
    let passed = g0.passed_priority@.update(g0.priority_player as int, true);
    let all = passed[0] && passed[1];
    &&& g1.wf()
    &&& !all ==> g1.passed_priority@ == passed && g1.priority_player == 1 - g0.priority_player
        && g1 == (GameState { passed_priority: g1.passed_priority, priority_player: g1.priority_player, ..g0 })
    &&& all && g0.stack.items@.len() == 0 ==> exists|ga: GameState|
        #[trigger] crate::game::resolution::passed_set(g0, ga) && crate::game::phase_advanced(ga, g1)
    &&& all && g0.stack.items@.len() > 0 ==> exists|ga: GameState, gm: GameState, gr: GameState, g2: GameState|
        #[trigger] crate::game::resolution::passed_set(g0, ga) && #[trigger] crate::game::resolution::popped(ga, gm)
        && #[trigger] crate::game::resolution::item_resolved(gm, gr, g0.stack.items@.last(), db)
        && #[trigger] crate::game::sba::sba_done(gr, g2, db) && crate::game::resolution::priority_reset(g2, g1)
}

/// `g1` is `g0` after its priority holder conceded: they have lost, and state-based
/// actions were checked.
pub open spec fn conceded(g0: GameState, g1: GameState, db: Seq<CardDef>) -> bool {
    let pp = g0.priority_player as int;
    exists|gm: GameState| #[trigger] crate::game::sba::sba_done(gm, g1, db)
        && gm.players@ == g0.players@.update(pp, Player { has_lost: true, ..g0.players@[pp] })
        && gm == (GameState { players: gm.players, ..g0 })
}

/// What applying action `a` does to state `g0` (giving `g1`).
pub open spec fn action_applied(g0: GameState, g1: GameState, a: Action, db: Seq<CardDef>) -> bool {
    match a {
        Action::PassPriority => priority_passed(g0, g1, db),
        Action::Concede => conceded(g0, g1, db),
        Action::PlayLand(id) => land_played(g0, g1, id, db),
        Action::CastSpell { card_id, targets } => spell_cast(g0, g1, card_id, targets@, db),
        Action::ActivateManaAbility { permanent_id, color_choice } => exists|r: bool| #[trigger] mana_tapped(g0, g1, permanent_id, color_choice, r),
        Action::ActivateAbility { permanent_id, ability_index, targets } => ability_applied(g0, g1, permanent_id, ability_index, targets@),
        Action::DeclareAttacker { creature_id } => attacker_declared(g0, g1, creature_id),
        Action::ConfirmAttackers | Action::ConfirmBlockers => crate::game::phase_advanced(GameState { action_context: ActionContext::Priority, ..g0 }, g1),
        Action::DeclareBlocker { blocker_id, attacker_id } => g1.blockers@ == g0.blockers@.push((blocker_id, attacker_id))
            && g1 == (GameState { blockers: g1.blockers, ..g0 }),
        Action::ChooseCard(id) => match g0.pending_choice {
            Some(c) => match c.kind {
                ChoiceKind::ChooseFromList { reason, .. } => choice_resolved(GameState { pending_choice: None, ..g0 }, g1, c.player, reason, id, db),
                _ => g1 == (GameState { pending_choice: None, ..g0 }),
            },
            None => g1 == g0,
        },
        Action::ChooseColor(color) => match g0.pending_choice {
            Some(c) => match c.kind {
                ChoiceKind::ChooseColor { reason } => color_resolved(GameState { pending_choice: None, ..g0 }, g1, c.player, reason, color),
                _ => g1 == (GameState { pending_choice: None, ..g0 }),
            },
            None => g1 == g0,
        },
        Action::ChooseNumber(n) => match g0.pending_choice {
            Some(c) => match c.kind {
                ChoiceKind::ChooseNumber { reason: ChoiceReason::ShockLandETB { card_id }, .. } =>
                    shock_chosen(GameState { pending_choice: None, ..g0 }, g1, c.player, card_id, n),
                _ => g1 == (GameState { pending_choice: None, ..g0 }),
            },
            None => g1 == g0,
        },
    }
}

/// A shock land's choice by player `p`: 0 has land `id` enter tapped; any other number
/// pays 2 life and leaves it untapped.
pub open spec fn shock_chosen(g0: GameState, g1: GameState, p: PlayerId, id: ObjectId, n: u32) -> bool {
    if n == 0 {
        crate::game::etb::flagged(g0, g1, id, true)
    } else {
        crate::game::spells::life_changed(g0, g1, p, -2)
    }
}

/// The conditions under which action `a` can be applied to `g` without any number
/// leaving its range.
pub open spec fn action_ok(g: GameState, a: Action, db: Seq<CardDef>) -> bool {
    let pp = g.priority_player as int;
    &&& g.wf()
    &&& match a {
        Action::PassPriority => crate::game::resolution::top_ready(g, db) && g.turn_number < u32::MAX && cleanup_safe(g),
        Action::Concede => g.within(0),
        Action::PlayLand(id) => g.players@[pp].hand@.contains(id) ==> g.players@[pp].land_plays_remaining > 0,
        Action::CastSpell { .. } => crate::game::db_ok(db) && g.storm_count < u16::MAX
            && g.players@[pp].spells_cast_this_turn < u32::MAX,
        Action::ActivateManaAbility { permanent_id, color_choice } => mana_fits(g, permanent_id, color_choice),
        Action::ActivateAbility { permanent_id, .. } => ability_fits(g, permanent_id),
        Action::ConfirmAttackers | Action::ConfirmBlockers => g.turn_number < u32::MAX && cleanup_safe(g),
        Action::ChooseCard(_) => g.pending_choice matches Some(c) ==> c.player < 2,
        Action::ChooseNumber(_) => g.pending_choice matches Some(c) ==> (c.player < 2
            && g.players@[c.player as int].life >= i32::MIN + 2),
        Action::ChooseColor(color) => g.pending_choice matches Some(c) ==> (c.player < 2
            && g.players@[c.player as int].mana_pool.amount(Some(color)) + 3 <= u8::MAX),
        _ => true,
    }
}

impl GameState {
    /// Apply `action` to the game (see `action_applied`).
    pub fn apply_action(&mut self, action: &Action, db: &[CardDef])
        requires
            action_ok(*old(self), *action, db@),
        ensures
            action_applied(*old(self), *final(self), *action, db@),
    {
        match action {
            Action::PassPriority => self.pass_priority(db),
            Action::Concede => {
                let pp = self.priority_player as usize;
                self.players[pp].has_lost = true;
                proof {
                    assert(self.players@ =~= old(self).players@.update(pp as int, Player { has_lost: true, ..old(self).players@[pp as int] }));
                    assert forall|i: int| 0 <= i < self.players@.len() implies #[trigger] self.players@[i].stats_within(0) by {
                        assert(old(self).players@[i].stats_within(0));
                    }
                }
                let ghost gm = *self;
                self.check_state_based_actions(db);
                proof { assert(crate::game::sba::sba_done(gm, *self, db@)); }
            },
            Action::PlayLand(card_id) => self.play_land(*card_id, db),
            Action::CastSpell { card_id, targets } => self.cast_spell(*card_id, targets, db),
            Action::ActivateManaAbility { permanent_id, color_choice } => {
                let r = self.activate_mana_ability(*permanent_id, *color_choice);
                proof { assert(mana_tapped(*old(self), *self, *permanent_id, *color_choice, r)); }
            },
            Action::ActivateAbility { permanent_id, ability_index, targets } => {
                self.apply_activated_ability(*permanent_id, *ability_index, targets, db);
            },
            Action::DeclareAttacker { creature_id } => self.declare_attacker(*creature_id),
            Action::ConfirmAttackers => {
                self.action_context = ActionContext::Priority;
                self.advance_phase();
            },
            Action::DeclareBlocker { blocker_id, attacker_id } => {
                self.blockers.push((*blocker_id, *attacker_id));
            },
            Action::ConfirmBlockers => {
                self.action_context = ActionContext::Priority;
                self.advance_phase();
            },
            Action::ChooseCard(card_id) => {
                match self.pending_choice.take() {
                    Some(choice) => self.resolve_choice(choice, *card_id, db),
                    None => {},
                }
            },
            Action::ChooseColor(color) => {
                match self.pending_choice.take() {
                    Some(choice) => self.resolve_color_choice(choice, *color),
                    None => {},
                }
            },
            Action::ChooseNumber(n) => {
                match self.pending_choice.take() {
                    Some(choice) => {
                        match choice.kind {
                            ChoiceKind::ChooseNumber { reason: ChoiceReason::ShockLandETB { card_id }, .. } => {
                                if *n == 0 {
                                    self.flag(card_id, true);
                                } else {
                                    let p = choice.player as usize;
                                    let l = self.players[p].life - 2;
                                    self.players[p].life = l;
                                    proof {
                                        let g = GameState { pending_choice: None, ..*old(self) };
                                        assert(self.players@ =~= g.players@.update(p as int,
                                            Player { life: (g.players@[p as int].life - 2) as i32, ..g.players@[p as int] }));
                                    }
                                }
                            },
                            _ => {},
                        }
                    },
                    None => {},
                }
            },
        }
    }
}

} // verus!

verus! {

/// Once a permanent is tapped for mana, using its mana ability again does nothing.
pub proof fn law_tapped_source_gives_no_more_mana(g0: GameState, g1: GameState, g2: GameState, id: ObjectId,
    c1: Option<Color>, c2: Option<Color>, r2: bool)
    requires
        mana_tapped(g0, g1, id, c1, true),
        mana_tapped(g1, g2, id, c2, r2),
    ensures
        !r2,
        g2 == g1,
{
    let bf = g0.battlefield@;
    let i = perm_pos(bf, id);
    lemma_perm_pos(bf, id);
    crate::game::lemma_perm_pos_update(bf, i, Permanent { tapped: true, ..bf[i] }, id);
    assert(g1.battlefield@[i].tapped);
}

/// Casting either changes nothing (the card is unknown or its cost cannot be paid) or
/// puts exactly that card on top of the stack with the chosen targets, counting one more
/// spell for the caster and for storm.
pub proof fn law_cast_is_all_or_nothing(g0: GameState, g1: GameState, id: ObjectId, targets: Seq<Target>, db: Seq<CardDef>)
    requires
        g0.wf(),
        g0.players@[g0.priority_player as int].spells_cast_this_turn < u32::MAX,
        spell_cast(g0, g1, id, targets, db),
    ensures
        g1 == g0 || ({
            let pp = g0.priority_player as int;
            &&& g1.storm_count == g0.storm_count + 1
            &&& g1.players@[pp].spells_cast_this_turn == g0.players@[pp].spells_cast_this_turn + 1
            &&& g1.stack.items@.len() == g0.stack.items@.len() + 1
            &&& g1.stack.items@.last().kind matches StackItemKind::Spell { card_id, .. } && card_id == id
            &&& g1.stack.items@.last().targets@ == targets
            &&& g1.stack.items@.last().controller == g0.priority_player
        }),
{
    match registered_name(g0.card_registry@, id) {
        Some(cn) => match lookup(db, cn) {
            Some(d) => {
                let cost = cost_with_taxes(g0.battlefield@, d, g0.priority_player);
                if g0.players@[g0.priority_player as int].mana_pool.covers(cost) {
                    let pp = g0.priority_player as int;
                    assert(g1.players@[pp].spells_cast_this_turn == g0.players@[pp].spells_cast_this_turn + 1);
                }
            },
            None => {},
        },
        None => {},
    }
}

/// A fetch land only ever offers cards of its controller's library that it can find.
pub proof fn law_fetch_offers_only_findable_lands(lib: Seq<ObjectId>, reg: Seq<(ObjectId, CardName)>, fetch: CardName)
    ensures
        forall|k: int| 0 <= k < lib.filter(fetch_filter(reg, fetch)).len() ==> {
            let x = #[trigger] lib.filter(fetch_filter(reg, fetch))[k];
            &&& lib.contains(x)
            &&& registered_name(reg, x) matches Some(cn) && fetchable(fetch, cn)
        },
{
    let f = fetch_filter(reg, fetch);
    assert forall|k: int| 0 <= k < lib.filter(f).len() implies lib.contains(#[trigger] lib.filter(f)[k]) && f(lib.filter(f)[k]) by {
        let x = lib.filter(f)[k];
        assert(lib.filter(f).contains(x));
        lib.lemma_filter_pred(f, k);
        lib.lemma_filter_contains_rev(f, x);
    }
}

/// A sacrificed permanent ends up on top of its owner's graveyard and the battlefield
/// shrinks by one.
pub proof fn law_sacrifice_feeds_the_graveyard(g0: GameState, g1: GameState, id: ObjectId)
    requires
        g0.wf(),
        perm_pos(g0.battlefield@, id) >= 0,
        g0.battlefield@[perm_pos(g0.battlefield@, id)].owner < 2,
        sacrificed(g0, g1, id),
    ensures
        g1.battlefield@.len() == g0.battlefield@.len() - 1,
        g1.players@[g0.battlefield@[perm_pos(g0.battlefield@, id)].owner as int].graveyard@.last() == id,
{
    lemma_perm_pos(g0.battlefield@, id);
}

} // verus!


verus! {

/// The cast `v` names a known card whose cost after taxes `pid`'s pool covers.
pub open spec fn cast_payable(g: GameState, db: Seq<CardDef>, pid: PlayerId, v: (u8, int, int, Option<Color>, Seq<Target>)) -> bool {
    match registered_name(g.card_registry@, v.1 as ObjectId) {
        Some(cn) => match lookup(db, cn) {
            Some(d) => g.players@[pid as int].mana_pool.covers(cost_with_taxes(g.battlefield@, d, pid)),
            None => false,
        },
        None => false,
    }
}

/// Each cast offered for card `id` names it and is payable.
proof fn lemma_cast_option(g: GameState, db: Seq<CardDef>, pid: PlayerId, id: ObjectId, sorcery: bool, j: int)
    requires
        0 <= j < crate::movegen::cast_options(g, db, pid, id, sorcery).len(),
    ensures
        cast_payable(g, db, pid, crate::movegen::cast_options(g, db, pid, id, sorcery)[j]),
        crate::movegen::cast_options(g, db, pid, id, sorcery)[j].0 == 3,
        crate::movegen::cast_options(g, db, pid, id, sorcery)[j].1 == id as int,
{
    let opts = crate::movegen::cast_options(g, db, pid, id, sorcery);
    let cn = registered_name(g.card_registry@, id)->0;
    let d = lookup(db, cn)->0;
    assert(g.players@[pid as int].mana_pool.covers(cost_with_taxes(g.battlefield@, d, pid)));
    assert(opts[j].1 == id as int);
}

/// Every cast among the first `n` cards of `hand` is payable.
#[verifier::spinoff_prover]
#[verifier::rlimit(40)]
proof fn lemma_casts_payable(g: GameState, db: Seq<CardDef>, pid: PlayerId, hand: Seq<ObjectId>, sorcery: bool, n: int)
    requires
        0 <= n <= hand.len(),
    ensures
        forall|k: int| 0 <= k < crate::movegen::casts_upto(g, db, pid, hand, sorcery, n).len()
            ==> #[trigger] cast_payable(g, db, pid, crate::movegen::casts_upto(g, db, pid, hand, sorcery, n)[k])
                && crate::movegen::casts_upto(g, db, pid, hand, sorcery, n)[k].0 == 3,
    decreases n,
{
    if n > 0 {
        lemma_casts_payable(g, db, pid, hand, sorcery, n - 1);
        let prev = crate::movegen::casts_upto(g, db, pid, hand, sorcery, n - 1);
        let opts = crate::movegen::cast_options(g, db, pid, hand[n - 1], sorcery);
        let all = crate::movegen::casts_upto(g, db, pid, hand, sorcery, n);
        assert(all == prev + opts);
        assert forall|k: int| 0 <= k < all.len() implies #[trigger] cast_payable(g, db, pid, all[k]) && all[k].0 == 3 by {
            if k >= prev.len() {
                lemma_cast_option(g, db, pid, hand[n - 1], sorcery, k - prev.len());
                assert(all[k] == opts[k - prev.len()]);
            } else {
                assert(all[k] == prev[k]);
            }
        }
    }
}

/// A spell the move generator offers to cast from hand (by its mana cost) goes on the
/// stack when that action is applied: the storm count and the stack each grow by one.
pub proof fn law_offered_casts_reach_the_stack(g0: GameState, g1: GameState, db: Seq<CardDef>, k: int)
    requires
        g0.wf(),
        g0.players@[g0.priority_player as int].spells_cast_this_turn < u32::MAX,
        0 <= k < crate::movegen::casts_upto(g0, db, g0.priority_player, g0.players@[g0.priority_player as int].hand@,
            crate::movegen::at_sorcery_speed(g0), g0.players@[g0.priority_player as int].hand@.len() as int).len(),
        ({
            let v = crate::movegen::casts_upto(g0, db, g0.priority_player, g0.players@[g0.priority_player as int].hand@,
                crate::movegen::at_sorcery_speed(g0), g0.players@[g0.priority_player as int].hand@.len() as int)[k];
            spell_cast(g0, g1, v.1 as ObjectId, v.4, db)
        }),
    ensures
        g1.storm_count == g0.storm_count + 1,
        g1.stack.items@.len() == g0.stack.items@.len() + 1,
{
    let pid = g0.priority_player;
    let hand = g0.players@[pid as int].hand@;
    let sorcery = crate::movegen::at_sorcery_speed(g0);
    lemma_casts_payable(g0, db, pid, hand, sorcery, hand.len() as int);
    let v = crate::movegen::casts_upto(g0, db, pid, hand, sorcery, hand.len() as int)[k];
    assert(cast_payable(g0, db, pid, v));
}

/// Two passes in a row, starting with nobody having passed and an empty stack, move the
/// game to its next step.
pub proof fn law_two_passes_advance_the_step(g0: GameState, g1: GameState, g2: GameState, db: Seq<CardDef>)
    requires
        g0.wf(),
        g0.passed_priority@ == seq![false, false],
        g0.stack.items@.len() == 0,
        priority_passed(g0, g1, db),
        priority_passed(g1, g2, db),
    ensures
        (g2.phase, g2.step) == crate::game::phase_after(g0),
        g2.result == g0.result,
{
    let p = g0.priority_player as int;
    let passed = g0.passed_priority@.update(p, true);
    assert(!(passed[0] && passed[1]));
    assert(g1.priority_player == 1 - p);
    assert(g1.stack == g0.stack);
    let passed2 = g1.passed_priority@.update(g1.priority_player as int, true);
    assert(passed2[0] && passed2[1]);
    assert(crate::game::phase_after(g1) == crate::game::phase_after(g0));
}

} // verus!
