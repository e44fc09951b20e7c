//! Mass removal by mana value, edicts, Crop Rotation and a few more spells about permanents.
use vstd::prelude::*;
use crate::card::{CardDef, CardName, find_card, has_type, lookup, types_contain};
use crate::game::{ChoiceKind, ChoiceReason, DestinationZone, GameState, PendingChoice, registered_name};
use crate::game::activated::moved_first;
use crate::game::effects::drew;
use crate::game::resolution::destroyed_first;
use crate::game::spells::{choice_set, destroyed, destroyed_each, first_target, life_changed, searched};
use crate::game::zones::removed_to_zone;
use crate::permanent::Permanent;
use crate::types::{CardType, ObjectId, PlayerId, Target};

verus! {

/// The mana value of card `name` in `db` (0 for an unknown card).
pub open spec fn mana_value_of(db: Seq<CardDef>, name: CardName) -> int {
    match lookup(db, name) {
        Some(d) => d.mana_cost.value(),
        None => 0,
    }
}

/// The permanents a mass-removal spell picks: noncreature artifacts with mana value at most
/// `x` (`sel` 0); artifacts, creatures and enchantments with mana value at most `x` (1);
/// artifacts `c` controls (2); creatures `c` controls (3).
pub open spec fn wipe_pick(sel: u8, x: int, c: PlayerId, db: Seq<CardDef>) -> spec_fn(Permanent) -> bool {
    |p: Permanent| {
        if sel == 0 {
            p.has_card_type(CardType::Artifact) && !p.has_card_type(CardType::Creature) && mana_value_of(db, p.card_name) <= x
        } else if sel == 1 {
            (p.has_card_type(CardType::Creature) || p.has_card_type(CardType::Enchantment) || p.has_card_type(CardType::Artifact))
                && mana_value_of(db, p.card_name) <= x
        } else if sel == 2 {
            p.controller == c && p.has_card_type(CardType::Artifact)
        } else {
            p.controller == c && p.has_card_type(CardType::Creature)
        }
    }
}

/// The ids of the permanents of `bf` that `f` accepts, in battlefield order.
pub open spec fn picked_ids(bf: Seq<Permanent>, f: spec_fn(Permanent) -> bool) -> Seq<ObjectId> {
    bf.filter(f).map_values(|p: Permanent| p.id)
}

/// `g1` is `g0` after the permanent named by target `n` (when it names one) was destroyed.
pub open spec fn destroyed_nth(g0: GameState, g1: GameState, targets: Seq<Target>, n: int) -> bool {
    if 0 <= n < targets.len() && targets[n] is Object {
        destroyed(g0, g1, targets[n]->Object_0)
    } else {
        g1 == g0
    }
}

/// An edict on `tp`: they choose one of the creatures they control (nothing happens when
/// they control none).
pub open spec fn edict_choice(g0: GameState, g1: GameState, tp: PlayerId, db: Seq<CardDef>) -> bool {
    let options = picked_ids(g0.battlefield@, wipe_pick(3, 0, tp, db));
    if options.len() == 0 {
        g1 == g0
    } else {
        choice_set(g0, g1, tp, options, ChoiceReason::EdictSacrifice)
    }
}

/// Whether card `id` is a known land card.
pub open spec fn land_card(reg: Seq<(ObjectId, CardName)>, db: Seq<CardDef>) -> spec_fn(ObjectId) -> bool {
    |id: ObjectId| match registered_name(reg, id) {
        Some(cn) => match lookup(db, cn) {
            Some(d) => has_type(d.card_types@, CardType::Land),
            None => false,
        },
        None => false,
    }
}

/// What the spells of this module do.
pub open spec fn board_more_effect(g0: GameState, g1: GameState, card_name: CardName, controller: PlayerId, targets: Seq<Target>, x_value: u8, db: Seq<CardDef>) -> bool {
    let bf = g0.battlefield@;
    match card_name {
        CardName::Meltdown => destroyed_each(g0, g1, picked_ids(bf, wipe_pick(0, x_value as int, controller, db))),
        CardName::WrathOfTheSkies => destroyed_each(g0, g1, picked_ids(bf, wipe_pick(1, x_value as int, controller, db))),
        CardName::Vandalblast => if targets.len() == 0 {
            destroyed_each(g0, g1, picked_ids(bf, wipe_pick(2, 0, (1 - controller) as PlayerId, db)))
        } else {
            destroyed_first(g0, g1, targets)
        },
        CardName::ForceOfVigor => exists|gm: GameState| #[trigger] destroyed_nth(g0, gm, targets, 0) && destroyed_nth(gm, g1, targets, 1),
        CardName::SunderingEruption => exists|gm: GameState| #[trigger] destroyed_first(g0, gm, targets)
            && life_changed(gm, g1, (1 - controller) as PlayerId, -3),
        CardName::PrismaticEnding | CardName::MarchOfOtherworldlyLight => moved_first(g0, g1, targets, DestinationZone::Exile),
        CardName::SheoldredsEdict => match first_target(targets) {
            Some(Target::Player(tp)) => edict_choice(g0, g1, tp, db),
            _ => g1 == g0,
        },
        CardName::CropRotation => exists|gm: GameState| #[trigger] destroyed_first(g0, gm, targets)
            && searched(gm, g1, controller, gm.players@[controller as int].library@.filter(land_card(gm.card_registry@, db)),
                ChoiceReason::GenericSearch),
        _ => drew(g0, g1, controller, 1),
    }
}

/// Whether `card_name` is a spell of this module.
pub open spec fn is_board_more(card_name: CardName) -> bool {
    match card_name {
        CardName::Meltdown | CardName::WrathOfTheSkies | CardName::Vandalblast | CardName::ForceOfVigor
        | CardName::SunderingEruption | CardName::PrismaticEnding | CardName::MarchOfOtherworldlyLight
        | CardName::SheoldredsEdict | CardName::CropRotation | CardName::OnceUponATime => true,
        _ => false,
    }
}

/// Executable form of `is_board_more`.
pub fn board_more(card_name: CardName) -> (r: bool)
    ensures
        r == is_board_more(card_name),
{
    match card_name {
        CardName::Meltdown | CardName::WrathOfTheSkies | CardName::Vandalblast | CardName::ForceOfVigor
        | CardName::SunderingEruption | CardName::PrismaticEnding | CardName::MarchOfOtherworldlyLight
        | CardName::SheoldredsEdict | CardName::CropRotation | CardName::OnceUponATime => true,
        _ => false,
    }
}

impl GameState {
    /// The mana value of `name` in `db` (0 for an unknown card).
    fn mana_value(name: CardName, db: &[CardDef]) -> (r: u8)
        requires
            crate::game::db_ok(db@),
        ensures
            r == mana_value_of(db@, name),
    {
        match find_card(db, name) {
            Some(def) => {
                proof { crate::card::lemma_def_pos_from(db@, name, 0); }
                def.mana_cost.cmc()
            },
            None => 0,
        }
    }

    /// The ids of the permanents that `wipe_pick(sel, x, c, db)` accepts, in order.
    fn pick_ids(&self, sel: u8, x: u8, c: PlayerId, db: &[CardDef]) -> (r: Vec<ObjectId>)
        requires
            crate::game::db_ok(db@),
        ensures
            r@ == picked_ids(self.battlefield@, wipe_pick(sel, x as int, c, db@)),
    {
        let ghost f = wipe_pick(sel, x as int, c, db@);
        let ghost m = |p: Permanent| p.id;
        let mut ids: Vec<ObjectId> = Vec::new();
        let mut i: usize = 0;
        while i < self.battlefield.len()
            invariant
                i <= self.battlefield@.len(),
                crate::game::db_ok(db@),
                f == wipe_pick(sel, x as int, c, db@),
                m == (|p: Permanent| p.id),
                ids@ == self.battlefield@.subrange(0, i as int).filter(f).map_values(m),
            decreases self.battlefield@.len() - i,
        {
            let p = &self.battlefield[i];
            proof {
                assert(self.battlefield@.subrange(0, i as int + 1) =~= self.battlefield@.subrange(0, i as int).push(*p));
                self.battlefield@.subrange(0, i as int).lemma_filter_push(*p, f);
            }
            let ok = if sel == 0 {
                p.is_artifact() && !p.is_creature() && Self::mana_value(p.card_name, db) <= x
            } else if sel == 1 {
                (p.is_creature() || p.is_enchantment() || p.is_artifact()) && Self::mana_value(p.card_name, db) <= x
            } else if sel == 2 {
                p.controller == c && p.is_artifact()
            } else {
                p.controller == c && p.is_creature()
            };
            proof { assert(ok == f(*p)); }
            if ok {
                ids.push(p.id);
                proof {
                    let s0 = self.battlefield@.subrange(0, i as int).filter(f);
                    assert(s0.push(*p).map_values(m) =~= s0.map_values(m).push(p.id));
                }
            }
            i = i + 1;
        }
        proof {
            assert(self.battlefield@.subrange(0, i as int) =~= self.battlefield@);
        }
        ids
    }

    /// Destroy the permanent named by target `n`, when it names one (see `destroyed_nth`).
    fn destroy_nth(&mut self, targets: &[Target], n: usize)
        requires
            old(self).wf(),
            old(self).within(0),
        ensures
            destroyed_nth(*old(self), *final(self), targets@, n as int),
            final(self).wf(),
            forall|k: int| #![trigger final(self).within(k)] old(self).within(k) ==> final(self).within(k),
    {
        if n < targets.len() {
            match targets[n] {
                Target::Object(id) => { self.destroy_target(id); },
                _ => {},
            }
        }
    }

    /// Search `player`'s library for a land card (see `searched`).
    fn land_search(&mut self, player: PlayerId, db: &[CardDef])
        requires
            player < old(self).players@.len(),
            crate::game::db_ok(db@),
        ensures
            searched(*old(self), *final(self), player,
                old(self).players@[player as int].library@.filter(land_card(old(self).card_registry@, db@)),
                ChoiceReason::GenericSearch),
            crate::game::bounds::stats_frame(*old(self), *final(self)),
    {
        if self.library_search_restricted(player) {
            return;
        }
        let ghost f = land_card(self.card_registry@, db@);
        let pid = player as usize;
        let mut searchable: Vec<ObjectId> = Vec::new();
        let mut i: usize = 0;
        while i < self.players[pid].library.len()
            invariant
                pid < self.players@.len(),
                i <= self.players@[pid as int].library@.len(),
                crate::game::db_ok(db@),
                f == land_card(self.card_registry@, db@),
                searchable@ == self.players@[pid as int].library@.subrange(0, i as int).filter(f),
            decreases self.players@[pid as int].library@.len() - i,
        {
            let id = self.players[pid].library[i];
            proof {
                let lib = self.players@[pid as int].library@;
                assert(lib.subrange(0, i as int + 1) =~= lib.subrange(0, i as int).push(id));
                lib.subrange(0, i as int).lemma_filter_push(id, f);
            }
            let ok = match self.card_name_for_id(id) {
                Some(cn) => match find_card(db, cn) {
                    Some(def) => {
                        proof { crate::card::lemma_def_pos_from(db@, cn, 0); }
                        types_contain(&def.card_types, CardType::Land)
                    },
                    None => false,
                },
                None => false,
            };
            if ok {
                searchable.push(id);
            }
            i = i + 1;
        }
        proof {
            assert(self.players@[pid as int].library@.subrange(0, i as int) =~= self.players@[pid as int].library@);
        }
        if searchable.len() > 0 {
            self.pending_choice = Some(PendingChoice {
                player,
                kind: ChoiceKind::ChooseFromList { options: searchable, reason: ChoiceReason::GenericSearch },
            });
        }
    }

    /// An edict on `tp` (see `edict_choice`).
    fn edict(&mut self, tp: PlayerId, db: &[CardDef])
        requires
            crate::game::db_ok(db@),
        ensures
            edict_choice(*old(self), *final(self), tp, db@),
            crate::game::bounds::stats_frame(*old(self), *final(self)),
    {
        let options = self.pick_ids(3, 0, tp, db);
        if options.len() > 0 {
            self.pending_choice = Some(PendingChoice {
                player: tp,
                kind: ChoiceKind::ChooseFromList { options, reason: ChoiceReason::EdictSacrifice },
            });
        }
    }

    /// Mass removal by mana value, edicts, Crop Rotation and more (see `board_more_effect`).
    pub(crate) fn resolve_board_more(&mut self, card_name: CardName, controller: PlayerId, targets: &[Target], x_value: u8, db: &[CardDef])
        requires
            old(self).wf(),
            old(self).within(3),
            controller < 2,
            crate::game::db_ok(db@),
            forall|i: int| 0 <= i < targets@.len() ==> (#[trigger] targets@[i] matches Target::Player(p) ==> p < 2),
            is_board_more(card_name),
        ensures
            board_more_effect(*old(self), *final(self), card_name, controller, targets@, x_value, db@),
            final(self).wf(),
            final(self).within(1),
    {
        let ghost g0 = *self;
        proof {
            crate::game::bounds::lemma_within_mono(g0, 3, 1);
            crate::game::bounds::lemma_within_mono(g0, 3, 0);
        }
        let first: Option<Target> = if targets.len() > 0 { Some(targets[0]) } else { None };
        match card_name {
            CardName::Meltdown | CardName::WrathOfTheSkies => {
                let sel: u8 = if card_name == CardName::Meltdown { 0 } else { 1 };
                let ids = self.pick_ids(sel, x_value, controller, db);
                self.destroy_each(&ids);
                proof { assert(self.within(3)); crate::game::bounds::lemma_within_mono(*self, 3, 1); }
            },
            CardName::Vandalblast => {
                if targets.len() == 0 {
                    let opp = self.opponent(controller);
                    let ids = self.pick_ids(2, 0, opp, db);
                    self.destroy_each(&ids);
                } else {
                    match first {
                        Some(Target::Object(id)) => { self.destroy_target(id); },
                        _ => {},
                    }
                }
                proof { assert(self.within(3)); crate::game::bounds::lemma_within_mono(*self, 3, 1); }
            },
            CardName::ForceOfVigor => {
                self.destroy_nth(targets, 0);
                let ghost gm = *self;
                proof { assert(gm.within(3)); }
                self.destroy_nth(targets, 1);
                proof {
                    assert(self.within(3));
                    crate::game::bounds::lemma_within_mono(*self, 3, 1);
                    assert(destroyed_nth(g0, gm, targets@, 0));
                }
            },
            CardName::SunderingEruption => {
                match first {
                    Some(Target::Object(id)) => { self.destroy_target(id); },
                    _ => {},
                }
                let ghost gm = *self;
                proof { assert(gm.within(3)); }
                let opp = self.opponent(controller);
                self.change_life(opp, -3);
                proof {
                    assert(self.within(2));
                    crate::game::bounds::lemma_within_mono(*self, 2, 1);
                    assert(destroyed_first(g0, gm, targets@));
                }
            },
            CardName::PrismaticEnding | CardName::MarchOfOtherworldlyLight => {
                match first {
                    Some(Target::Object(id)) => {
                        let r = self.remove_permanent_to_zone(id, DestinationZone::Exile);
                        proof {
                            assert(removed_to_zone(g0, *self, id, DestinationZone::Exile, r));
                            if crate::game::perm_pos(g0.battlefield@, id) != -1 { assert(self.within(3)); }
                            crate::game::bounds::lemma_within_mono(*self, 3, 1);
                        }
                    },
                    _ => {},
                }
            },
            CardName::SheoldredsEdict => {
                match first {
                    Some(Target::Player(tp)) => {
                        self.edict(tp, db);
                        proof { crate::game::bounds::lemma_frame_kept(g0, *self); }
                    },
                    _ => {},
                }
            },
            CardName::CropRotation => {
                match first {
                    Some(Target::Object(id)) => { self.destroy_target(id); },
                    _ => {},
                }
                let ghost gm = *self;
                proof { assert(gm.within(3)); }
                self.land_search(controller, db);
                proof {
                    crate::game::bounds::lemma_frame_kept(gm, *self);
                    crate::game::bounds::lemma_within_mono(*self, 3, 1);
                    assert(destroyed_first(g0, gm, targets@));
                }
            },
            _ => {
                proof { assert(self.players@[controller as int].stats_within(3)); }
                self.draw_cards(controller, 1);
                proof {
                    crate::game::effects::lemma_drew_step(g0, *self, controller, 1, 3);
                    crate::game::bounds::lemma_within_mono(*self, 2, 1);
                }
            },
        }
    }
}

} // verus!
