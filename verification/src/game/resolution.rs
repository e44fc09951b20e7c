//! Spell and ability resolution.
use vstd::prelude::*;
use crate::card::{CardDef, CardName, find_card, lookup, types_contain};
use crate::game::zones::card_added;
use crate::game::{ChoiceReason, DestinationZone};
use crate::game::effects::{drew, damage_dealt, player_replaced, treasure_made, surveiled, stack_items_ok};
use crate::game::spells::{first_target, countered_to, drained, plowed, mana_added, destroyed, searched, life_changed,
    hand_choice, hymned, put_back_two, destroyed_each, land_ids, green_creature_upto, blasted, tendrilled, regrown, disenchanted, drain_value};
use crate::game::zones::removed_to_zone;
use crate::types::{CardType, Color, Target};
use crate::game::{GameState, registered_name};
use crate::permanent::Permanent;
use crate::player::Player;
use crate::stack::{StackItem, StackItemKind, ActivatedEffect, TriggeredEffect, item_pos, lemma_item_pos_from};
use crate::types::{ObjectId, PlayerId};

verus! {

/// Whether permanent `p` stops `player` from searching their library: Leonin Arbiter stops
/// everyone, Opposition Agent stops its controller's opponents.
pub open spec fn restricts_search(p: Permanent, player: PlayerId) -> bool {
    p.card_name == CardName::LeoninArbiter || (p.card_name == CardName::OppositionAgent && p.controller != player)
}

/// Whether library searches by `player` are stopped.
pub open spec fn search_restricted(bf: Seq<Permanent>, player: PlayerId) -> bool {
    exists|i: int| 0 <= i < bf.len() && #[trigger] restricts_search(bf[i], player)
}

/// Whether a card of `gy` is registered as Emrakul, the Aeons Torn.
pub open spec fn holds_emrakul(reg: Seq<(ObjectId, CardName)>, gy: Seq<ObjectId>) -> bool {
    exists|j: int| 0 <= j < gy.len() && #[trigger] registered_name(reg, gy[j]) == Some(CardName::EmrakulTheAeonsTorn)
}

/// `g1` is `g0` after player `c`'s graveyard became `gy`, followed by Emrakul's replacement:
/// with Emrakul in it, the graveyard goes under the library.
pub open spec fn graveyard_settled(g0: GameState, g1: GameState, c: int, gy: Seq<ObjectId>) -> bool {
    let p0 = g0.players@[c];
    let p1 = g1.players@[c];
    &&& holds_emrakul(g0.card_registry@, gy) ==> p1.library@ == gy + p0.library@ && p1.graveyard@.len() == 0
    &&& !holds_emrakul(g0.card_registry@, gy) ==> p1.library@ == p0.library@ && p1.graveyard@ == gy
    &&& g1.players@ == g0.players@.update(c, Player { library: p1.library, graveyard: p1.graveyard, ..p0 })
}

/// `g1` is `g0` after a countered `item` was put where it belongs: a spell cast from a
/// graveyard is exiled, another spell goes to its controller's graveyard; an ability has
/// no card. Only players and exile change.
pub open spec fn routed_zones(g0: GameState, g1: GameState, item: StackItem) -> bool {
    &&& g1 == (GameState { players: g1.players, exile: g1.exile, ..g0 })
    &&& match item.kind {
        StackItemKind::Spell { card_name, card_id, .. } => if item.cast_from_graveyard {
            g1.exile@ == g0.exile@.push((card_id, card_name, item.controller)) && g1.players@ == g0.players@
        } else {
            g1.exile@ == g0.exile@ && graveyard_settled(g0, g1, item.controller as int,
                g0.players@[item.controller as int].graveyard@.push(card_id))
        },
        _ => g1.players@ == g0.players@ && g1.exile@ == g0.exile@,
    }
}

/// Position of the stack item `id` if it is there and may be countered, else -1.
pub open spec fn counterable_pos(s: Seq<StackItem>, id: ObjectId) -> int {
    let i = item_pos(s, id);
    if i >= 0 && !s[i].cant_be_countered { i } else { -1 }
}

/// `g1` is `g0` with the counterable stack item `id` taken off the stack (returned as `r`).
pub open spec fn counter_taken(g0: GameState, g1: GameState, id: ObjectId, r: Option<StackItem>) -> bool {
    let s = g0.stack.items@;
    let i = counterable_pos(s, id);
    &&& i < 0 ==> r is None && g1 == g0
    &&& i >= 0 ==> r == Some(s[i]) && g1.stack.items@ == s.remove(i) && g1.stack.next_id == g0.stack.next_id
        && g1 == (GameState { stack: g1.stack, ..g0 })
}

/// `g1` is `g0` after countering the stack item `id` (if it may be countered) and routing it.
pub open spec fn countered(g0: GameState, g1: GameState, id: ObjectId) -> bool {
    exists|gm: GameState, r: Option<StackItem>| #[trigger] counter_taken(g0, gm, id, r) && match r {
        Some(item) => routed_zones(gm, g1, item),
        None => g1 == gm,
    }
}

impl GameState {
    /// Whether `player` may not search their library right now.
    pub fn library_search_restricted(&self, player: PlayerId) -> (r: bool)
        ensures
            r == search_restricted(self.battlefield@, player),
    {
        let mut i: usize = 0;
        while i < self.battlefield.len()
            invariant
                i <= self.battlefield@.len(),
                forall|j: int| 0 <= j < i ==> !#[trigger] restricts_search(self.battlefield@[j], player),
            decreases self.battlefield@.len() - i,
        {
            let p = &self.battlefield[i];
            if p.card_name == CardName::LeoninArbiter || (p.card_name == CardName::OppositionAgent && p.controller != player) {
                proof { assert(restricts_search(self.battlefield@[i as int], player)); }
                return true;
            }
            i = i + 1;
        }
        false
    }

    /// Emrakul, the Aeons Torn: when it is in `player`'s graveyard, the graveyard goes under
    /// the library.
    pub fn check_emrakul_graveyard_shuffle(&mut self, player: PlayerId)
        requires
            player < old(self).players@.len(),
        ensures
            graveyard_settled(*old(self), *final(self), player as int, old(self).players@[player as int].graveyard@),
            *final(self) == (GameState { players: final(self).players, ..*old(self) }),
            crate::game::same_player_stats(final(self).players@, old(self).players@),
    {
        let pid = player as usize;
        let mut found = false;
        let mut i: usize = 0;
        while i < self.players[pid].graveyard.len()
            invariant
                pid == player,
                pid < self.players@.len(),
                i <= self.players@[pid as int].graveyard@.len(),
                found == exists|j: int| 0 <= j < i && #[trigger] registered_name(self.card_registry@,
                    self.players@[pid as int].graveyard@[j]) == Some(CardName::EmrakulTheAeonsTorn),
            decreases self.players@[pid as int].graveyard@.len() - i,
        {
            let id = self.players[pid].graveyard[i];
            match self.card_name_for_id(id) {
                Some(CardName::EmrakulTheAeonsTorn) => { found = true; },
                _ => {},
            }
            i = i + 1;
        }
        if !found {
            proof {
                assert(self.players@ =~= old(self).players@.update(pid as int, Player {
                    library: self.players@[pid as int].library,
                    graveyard: self.players@[pid as int].graveyard,
                    ..old(self).players@[pid as int]
                }));
            }
            return;
        }
        let mut library: Vec<ObjectId> = Vec::new();
        let mut j: usize = 0;
        while j < self.players[pid].graveyard.len()
            invariant
                pid < self.players@.len(),
                j <= self.players@[pid as int].graveyard@.len(),
                library@ == self.players@[pid as int].graveyard@.subrange(0, j as int),
            decreases self.players@[pid as int].graveyard@.len() - j,
        {
            library.push(self.players[pid].graveyard[j]);
            proof {
                assert(self.players@[pid as int].graveyard@.subrange(0, j as int + 1)
                    =~= self.players@[pid as int].graveyard@.subrange(0, j as int).push(self.players@[pid as int].graveyard@[j as int]));
            }
            j = j + 1;
        }
        let mut k: usize = 0;
        let ghost gy = self.players@[pid as int].graveyard@;
        while k < self.players[pid].library.len()
            invariant
                pid < self.players@.len(),
                gy == self.players@[pid as int].graveyard@,
                k <= self.players@[pid as int].library@.len(),
                library@ == gy + self.players@[pid as int].library@.subrange(0, k as int),
            decreases self.players@[pid as int].library@.len() - k,
        {
            library.push(self.players[pid].library[k]);
            proof {
                assert(gy + self.players@[pid as int].library@.subrange(0, k as int + 1)
                    =~= (gy + self.players@[pid as int].library@.subrange(0, k as int)).push(self.players@[pid as int].library@[k as int]));
            }
            k = k + 1;
        }
        proof {
            assert(self.players@[pid as int].library@.subrange(0, k as int) =~= self.players@[pid as int].library@);
        }
        self.players[pid].library = library;
        self.players[pid].graveyard = Vec::new();
        proof {
            assert(self.players@ =~= old(self).players@.update(pid as int, Player {
                library: self.players@[pid as int].library,
                graveyard: self.players@[pid as int].graveyard,
                ..old(self).players@[pid as int]
            }));
        }
    }

    /// Put a countered stack item where it belongs (see `routed_zones`).
    pub fn route_countered_spell(&mut self, item: StackItem)
        requires
            item.controller < old(self).players@.len(),
        ensures
            routed_zones(*old(self), *final(self), item),
            crate::game::bounds::stats_frame(*old(self), *final(self)),
    {
        match item.kind {
            StackItemKind::Spell { card_id, card_name, .. } => {
                if item.cast_from_graveyard {
                    self.exile.push((card_id, card_name, item.controller));
                } else {
                    let c = item.controller as usize;
                    self.players[c].graveyard.push(card_id);
                    let ghost g1 = *self;
                    self.check_emrakul_graveyard_shuffle(item.controller);
                    proof {
                        let p0 = old(self).players@[c as int];
                        let p1 = self.players@[c as int];
                        assert(self.players@ =~= old(self).players@.update(c as int, Player { library: p1.library, graveyard: p1.graveyard, ..p0 }));
                    }
                }
            },
            _ => {},
        }
    }

    /// Take the stack item `spell_id` off the stack if it is there and may be countered.
    pub fn take_counterable(&mut self, spell_id: ObjectId) -> (r: Option<StackItem>)
        ensures
            counter_taken(*old(self), *final(self), spell_id, r),
    {
        proof { lemma_item_pos_from(self.stack.items@, spell_id, 0); }
        match self.stack.position(spell_id) {
            Some(i) => {
                if self.stack.items[i].cant_be_countered {
                    None
                } else {
                    self.stack.remove(spell_id)
                }
            },
            None => None,
        }
    }

    /// Counter the stack item `spell_id` unless it can't be countered, and route it.
    pub fn counter_and_route(&mut self, spell_id: ObjectId)
        requires
            old(self).wf(),
            crate::game::effects::stack_items_ok(old(self).stack.items@, 2),
        ensures
            countered(*old(self), *final(self), spell_id),
            crate::game::bounds::stats_frame(*old(self), *final(self)),
    {
        let ghost g0 = *self;
        let r = self.take_counterable(spell_id);
        let ghost gm = *self;
        match r {
            Some(item) => {
                proof { lemma_item_pos_from(g0.stack.items@, spell_id, 0); }
                self.route_countered_spell(item);
            },
            None => {},
        }
        proof {
            assert(counter_taken(g0, gm, spell_id, r));
        }
    }
}

} // verus!

verus! {

/// The player a spell's first target names, or `default`.
pub open spec fn target_player_or(targets: Seq<Target>, default: PlayerId) -> PlayerId {
    match first_target(targets) {
        Some(Target::Player(p)) => p,
        _ => default,
    }
}

/// `g1` is `g0` after destroying the permanent a spell's first target names, if any.
pub open spec fn destroyed_first(g0: GameState, g1: GameState, targets: Seq<Target>) -> bool {
    match first_target(targets) {
        Some(Target::Object(id)) => destroyed(g0, g1, id),
        _ => g1 == g0,
    }
}

/// Whether the library searches of `card_name` find anything at all (the tutors).
pub open spec fn tutor_reason(card_name: CardName) -> Option<ChoiceReason> {
    match card_name {
        CardName::DemonicTutor => Some(ChoiceReason::DemonicTutorSearch),
        CardName::MysticalTutor => Some(ChoiceReason::MysticalTutorSearch),
        CardName::Entomb => Some(ChoiceReason::EntombSearch),
        _ => None,
    }
}

/// Whether `card_name` is one of the destroy-target-permanent spells.
pub open spec fn is_disenchant(card_name: CardName) -> bool {
    match card_name {
        CardName::Disenchant | CardName::NaturesClaim | CardName::Fragmentize | CardName::AbruptDecay
        | CardName::AncientGrudge | CardName::ShatteringSpree | CardName::MoltenCollapse | CardName::FatalPush
        | CardName::BitterTriumph | CardName::SnuffOut | CardName::UntimelyMalfunction | CardName::Crash
        | CardName::CouncilsJudgment => true,
        _ => false,
    }
}

/// What the instant or sorcery `card_name` does when it resolves for `controller`.
pub open spec fn spell_effect(
    g0: GameState,
    g1: GameState,
    card_name: CardName,
    controller: PlayerId,
    targets: Seq<Target>,
    x_value: u8,
    is_copy: bool,
    db: Seq<CardDef>,
) -> bool {
    let first = first_target(targets);
    match card_name {
        CardName::AncestralRecall => drew(g0, g1, target_player_or(targets, controller), 3),
        CardName::Counterspell | CardName::ForceOfWill | CardName::ForceOfNegation | CardName::MentalMisstep
        | CardName::Commandeer | CardName::Misdirection => match first {
            Some(Target::Object(id)) => countered(g0, g1, id),
            _ => g1 == g0,
        },
        CardName::ManaDrain => match first {
            Some(Target::Object(id)) => drained(g0, g1, id, controller, db),
            _ => g1 == g0,
        },
        CardName::MemoryLapse => match first {
            Some(Target::Object(id)) => countered_to(g0, g1, id, false),
            _ => g1 == g0,
        },
        CardName::Remand => exists|gm: GameState| #[trigger] drew(gm, g1, controller, 1) && match first {
            Some(Target::Object(id)) => countered_to(g0, gm, id, true),
            _ => gm == g0,
        },
        CardName::LightningBolt | CardName::ChainLightning => match first {
            Some(t) => damage_dealt(g0, g1, t, 3),
            None => g1 == g0,
        },
        CardName::BonecrusherGiant => match first {
            Some(t) => damage_dealt(g0, g1, t, 2),
            None => g1 == g0,
        },
        CardName::SwordsToPlowshares => match first {
            Some(Target::Object(id)) => plowed(g0, g1, id),
            _ => g1 == g0,
        },
        CardName::PathToExile => match first {
            Some(Target::Object(id)) => exists|r: Option<Permanent>| #[trigger] removed_to_zone(g0, g1, id, DestinationZone::Exile, r),
            _ => g1 == g0,
        },
        CardName::DarkRitual => mana_added(g0, g1, controller, Some(Color::Black), 3),
        CardName::VillageRites => exists|gm: GameState| #[trigger] destroyed_first(g0, gm, targets) && drew(gm, g1, controller, 2),
        CardName::DeadlyDispute => exists|gm: GameState, gd: GameState|
            #[trigger] destroyed_first(g0, gm, targets) && #[trigger] drew(gm, gd, controller, 2) && treasure_made(gd, g1, controller),
        CardName::TimeWalk | CardName::TemporalMastery => player_replaced(g0, g1, controller as int, Player {
            extra_turns: (g0.players@[controller as int].extra_turns + 1) as u32,
            ..g0.players@[controller as int]
        }),
        CardName::DemonicTutor | CardName::MysticalTutor | CardName::Entomb =>
            searched(g0, g1, controller, g0.players@[controller as int].library@, tutor_reason(card_name)->0),
        CardName::VampiricTutor => exists|gm: GameState| #[trigger] life_changed(g0, gm, controller, -2)
            && searched(gm, g1, controller, gm.players@[controller as int].library@, ChoiceReason::VampiricTutorSearch),
        CardName::Duress | CardName::InquisitionOfKozilek | CardName::Unmask => match first {
            Some(Target::Player(tp)) => hand_choice(g0, g1, card_name, controller, tp, db),
            _ => g1 == g0,
        },
        CardName::Thoughtseize => exists|gm: GameState| #[trigger] life_changed(g0, gm, controller, -2) && match first {
            Some(Target::Player(tp)) => hand_choice(gm, g1, card_name, controller, tp, db),
            _ => g1 == gm,
        },
        CardName::HymnToTourach => match first {
            Some(Target::Player(tp)) => hymned(g0, g1, tp, db),
            _ => g1 == g0,
        },
        CardName::Brainstorm => exists|gm: GameState| #[trigger] drew(g0, gm, controller, 3) && put_back_two(gm, g1, controller),
        CardName::Ponder | CardName::Preordain => drew(g0, g1, controller, 1),
        CardName::TreasureCruise | CardName::StockUp | CardName::LorienRevealed => drew(g0, g1, controller, 3),
        CardName::DigThroughTime | CardName::GiftsUngiven | CardName::Thoughtcast | CardName::Gush
        | CardName::ExpressiveIteration => drew(g0, g1, controller, 2),
        CardName::GitaxianProbe => drew(g0, g1, controller, 1),
        CardName::CabalRitual => mana_added(g0, g1, controller, Some(Color::Black),
            if g0.players@[controller as int].graveyard@.len() >= 7 { 5 } else { 3 }),
        CardName::Abrade => match first {
            Some(Target::Object(id)) => crate::game::spell_effects::abraded(g0, g1, id),
            _ => g1 == g0,
        },
        CardName::ShrapnelBlast => exists|gm: GameState| #[trigger] destroyed_first(g0, gm, targets)
            && if targets.len() > 1 { damage_dealt(gm, g1, targets[1], 5) } else { g1 == gm },
        CardName::RedirectLightning => match first {
            Some(t) => damage_dealt(g0, g1, t, crate::game::spell_effects::redirect_damage(g0.battlefield@, controller) as u16),
            None => g1 == g0,
        },
        CardName::BrazenBorrower | CardName::ChainOfVapor | CardName::IntoTheFloodMaw =>
            crate::game::spell_effects::bounced_nth(g0, g1, targets, 0),
        CardName::StepThrough => exists|gm: GameState| #[trigger] crate::game::spell_effects::bounced_nth(g0, gm, targets, 0)
            && crate::game::spell_effects::bounced_nth(gm, g1, targets, 1),
        CardName::MerchantScroll => searched(g0, g1, controller, g0.players@[controller as int].library@, ChoiceReason::MysticalTutorSearch),
        CardName::ImperialSeal => exists|gm: GameState| #[trigger] life_changed(g0, gm, controller, -2)
            && searched(gm, g1, controller, gm.players@[controller as int].library@, ChoiceReason::MysticalTutorSearch),
        CardName::DemonicConsultation | CardName::BeseechTheMirror =>
            searched(g0, g1, controller, g0.players@[controller as int].library@, ChoiceReason::DemonicTutorSearch),
        CardName::EnlightenedTutor => searched(g0, g1, controller,
            g0.players@[controller as int].library@.filter(crate::game::spell_effects::artifact_or_enchantment(g0.card_registry@, db)),
            ChoiceReason::MysticalTutorSearch),
        CardName::WheelOfFortune | CardName::Timetwister | CardName::EchoOfEons =>
            crate::game::spell_effects::wheeled(g0, g1, card_name != CardName::WheelOfFortune),
        CardName::Dismember => match first {
            Some(Target::Object(id)) => crate::game::spell_effects::shrunk(g0, g1, id),
            _ => g1 == g0,
        },
        CardName::Consider => surveiled(g0, g1, controller, 1, true),
        CardName::Armageddon => destroyed_each(g0, g1, land_ids(g0.battlefield@)),
        CardName::GreenSunsZenith => searched(g0, g1, controller,
            g0.players@[controller as int].library@.filter(|id: ObjectId| green_creature_upto(g0.card_registry@, db, id, x_value)),
            ChoiceReason::GenericSearch),
        CardName::Pyroblast | CardName::RedElementalBlast => match first {
            Some(Target::Object(id)) => blasted(g0, g1, id),
            _ => g1 == g0,
        },
        CardName::TendrilsOfAgony => tendrilled(g0, g1, controller, targets, is_copy),
        CardName::SpellPierce | CardName::ManaLeak | CardName::Daze | CardName::MysticalDispute
        | CardName::Flusterstorm | CardName::ConsignToMemory | CardName::Stifle | CardName::MindbreakTrap =>
            crate::game::counter_more::counter_more_effect(g0, g1, card_name, controller, targets, is_copy),
        CardName::Meltdown | CardName::WrathOfTheSkies | CardName::Vandalblast | CardName::ForceOfVigor
        | CardName::SunderingEruption | CardName::PrismaticEnding | CardName::MarchOfOtherworldlyLight
        | CardName::SheoldredsEdict | CardName::CropRotation | CardName::OnceUponATime =>
            crate::game::board_more::board_more_effect(g0, g1, card_name, controller, targets, x_value, db),
        CardName::LifeFromTheLoam => crate::game::graveyard_more::loamed(g0, g1, controller, db),
        CardName::Tinker | CardName::TransmuteArtifact | CardName::NaturalOrder | CardName::BrainFreeze
        | CardName::MindsDesire | CardName::GalvanicRelay | CardName::Doomsday | CardName::YawgmothsWill
        | CardName::VeilOfSummer | CardName::ShowAndTell | CardName::Flash => crate::game::search_more::search_more_effect(g0, g1, card_name, controller, targets, is_copy, db),
        CardName::Regrowth => match first {
            Some(Target::Object(id)) => regrown(g0, g1, controller, id),
            _ => g1 == g0,
        },
        _ => if is_disenchant(card_name) {
            match first {
                Some(Target::Object(id)) => disenchanted(g0, g1, card_name, id, db),
                _ => g1 == g0,
            }
        } else {
            g1 == g0
        },
    }
}

/// What resolving `card_name` needs of the state: room for a few steps, known players as
/// targets and stack controllers, and room in the mana pool for the mana it adds.
pub open spec fn spell_ready(g: GameState, card_name: CardName, controller: PlayerId, targets: Seq<Target>, db: Seq<CardDef>) -> bool {
    &&& g.wf()
    &&& g.within(3)
    &&& controller < 2
    &&& crate::game::db_ok(db)
    &&& forall|i: int| 0 <= i < targets.len() ==> (#[trigger] targets[i] matches Target::Player(p) ==> p < 2)
    &&& stack_items_ok(g.stack.items@, 2)
    &&& spell_bounds(g.players@, g.stack.items@, card_name, controller, targets, db)
}

/// Room in the mana pool for the mana the spell adds.
pub open spec fn spell_bounds(players: Seq<Player>, items: Seq<StackItem>, card_name: CardName, controller: PlayerId, targets: Seq<Target>, db: Seq<CardDef>) -> bool {
    &&& card_name == CardName::DarkRitual ==> players[controller as int].mana_pool.black + 3 <= u8::MAX
    &&& card_name == CardName::CabalRitual ==> players[controller as int].mana_pool.black + 5 <= u8::MAX
    &&& card_name == CardName::ManaDrain ==> (first_target(targets) matches Some(Target::Object(id)) ==>
        players[controller as int].mana_pool.colorless + drain_value(items, item_pos(items, id), db) <= u8::MAX)
}

} // verus!

verus! {

/// Whether `card_name` is a spell that acts on the stack.
pub open spec fn is_stack_spell(card_name: CardName) -> bool {
    match card_name {
        CardName::Counterspell | CardName::ForceOfWill | CardName::ForceOfNegation | CardName::MentalMisstep
        | CardName::ManaDrain | CardName::MemoryLapse | CardName::Remand | CardName::Pyroblast
        | CardName::RedElementalBlast | CardName::Commandeer | CardName::Misdirection => true,
        _ => false,
    }
}

impl GameState {
    /// Counterspells and other spells that act on the stack.
    fn resolve_stack_spell(&mut self, card_name: CardName, controller: PlayerId, targets: &[Target], x_value: u8, is_copy: bool, db: &[CardDef])
        requires
            spell_ready(*old(self), card_name, controller, targets@, db@),
            is_stack_spell(card_name),
        ensures
            spell_effect(*old(self), *final(self), card_name, controller, targets@, x_value, is_copy, db@),
            final(self).wf(),
            final(self).within(1),
    {
        let ghost g0 = *self;
        let first: Option<Target> = if targets.len() > 0 { Some(targets[0]) } else { None };
        match card_name {
            CardName::Remand => {
                match first {
                    Some(Target::Object(id)) => { self.counter_to_owner(id, true); },
                    _ => {},
                }
                let ghost gm = *self;
                proof {
                    crate::game::bounds::lemma_frame_kept(g0, gm);
                    assert(gm.players@[controller as int].stats_within(3));
                }
                self.draw_cards(controller, 1);
                proof {
                    crate::game::effects::lemma_drew_step(gm, *self, controller, 1, 3);
                    crate::game::bounds::lemma_within_mono(*self, 2, 1);
                    assert(drew(gm, *self, controller, 1));
                }
            },
            _ => {
                match first {
                    Some(Target::Object(id)) => {
                        match card_name {
                            CardName::ManaDrain => { self.mana_drain(id, controller, db); },
                            CardName::MemoryLapse => { self.counter_to_owner(id, false); },
                            CardName::Pyroblast | CardName::RedElementalBlast => {
                                proof { crate::game::bounds::lemma_within_mono(g0, 3, 0); }
                                self.blast(id);
                            },
                            _ => { self.counter_and_route(id); },
                        }
                    },
                    _ => {},
                }
                proof {
                    if card_name != CardName::Pyroblast && card_name != CardName::RedElementalBlast {
                        if first matches Some(Target::Object(id)) {
                            crate::game::bounds::lemma_frame_kept(g0, *self);
                        }
                    }
                    crate::game::bounds::lemma_within_mono(*self, 3, 1);
                }
            },
        }
    }
}

} // verus!

verus! {

/// Whether `card_name` is a spell about cards in hand, library and graveyard.
pub open spec fn is_card_spell(card_name: CardName) -> bool {
    match card_name {
        CardName::AncestralRecall | CardName::Brainstorm | CardName::Ponder | CardName::Preordain
        | CardName::Consider | CardName::VillageRites | CardName::DeadlyDispute | CardName::DemonicTutor
        | CardName::VampiricTutor | CardName::MysticalTutor | CardName::Entomb | CardName::Duress | CardName::Unmask
        | CardName::InquisitionOfKozilek | CardName::Thoughtseize | CardName::HymnToTourach
        | CardName::Regrowth | CardName::GreenSunsZenith | CardName::TimeWalk | CardName::TemporalMastery => true,
        _ => false,
    }
}

impl GameState {
    /// Lose or gain life as part of a spell or ability (at most one step of room).
    pub fn change_life(&mut self, player: PlayerId, delta: i32)
        requires
            player < old(self).players@.len(),
            -crate::game::big_step() <= delta <= crate::game::big_step(),
            old(self).within(1),
        ensures
            life_changed(*old(self), *final(self), player, delta as int),
            forall|k: int| 1 <= k && #[trigger] old(self).within(k) ==> final(self).within(k - 1),
            crate::game::bounds::stats_frame(*old(self), *final(self)) || delta != 0,
            final(self).wf() == old(self).wf(),
    {
        proof { assert(self.players@[player as int].stats_within(1)); }
        let l = self.players[player as usize].life + delta;
        self.players[player as usize].life = l;
        proof {
            let q = Player { life: (old(self).players@[player as int].life + delta) as i32, ..old(self).players@[player as int] };
            assert(self.players@ =~= old(self).players@.update(player as int, q));
            assert forall|k: int| 1 <= k && #[trigger] old(self).within(k) implies self.within(k - 1) by {
                crate::game::effects::lemma_player_step(*old(self), *self, player as int, q, k);
            }
        }
    }

    /// Draws, searches, discards and other spells about cards in zones.
    fn resolve_card_spell(&mut self, card_name: CardName, controller: PlayerId, targets: &[Target], x_value: u8, is_copy: bool, db: &[CardDef])
        requires
            spell_ready(*old(self), card_name, controller, targets@, db@),
            is_card_spell(card_name),
        ensures
            spell_effect(*old(self), *final(self), card_name, controller, targets@, x_value, is_copy, db@),
            final(self).wf(),
            final(self).within(1),
    {
        let ghost g0 = *self;
        let first: Option<Target> = if targets.len() > 0 { Some(targets[0]) } else { None };
        proof { crate::game::bounds::lemma_within_mono(g0, 3, 0); }
        match card_name {
            CardName::AncestralRecall => {
                let p = match first {
                    Some(Target::Player(p)) => p,
                    _ => controller,
                };
                proof { assert(self.players@[p as int].stats_within(3)); }
                self.draw_cards(p, 3);
                proof {
                    crate::game::effects::lemma_drew_step(g0, *self, p, 3, 3);
                    crate::game::bounds::lemma_within_mono(*self, 2, 1);
                }
            },
            CardName::Brainstorm => {
                proof { assert(self.players@[controller as int].stats_within(3)); }
                self.draw_cards(controller, 3);
                let ghost gm = *self;
                proof { crate::game::effects::lemma_drew_step(g0, gm, controller, 3, 3); }
                self.put_back_two_cards(controller);
                proof {
                    crate::game::bounds::lemma_frame_kept(gm, *self);
                    crate::game::bounds::lemma_within_mono(*self, 2, 1);
                    assert(drew(g0, gm, controller, 3));
                }
            },
            CardName::Ponder | CardName::Preordain => {
                proof { assert(self.players@[controller as int].stats_within(3)); }
                self.draw_cards(controller, 1);
                proof {
                    crate::game::effects::lemma_drew_step(g0, *self, controller, 1, 3);
                    crate::game::bounds::lemma_within_mono(*self, 2, 1);
                }
            },
            CardName::Consider => {
                proof { assert(self.players@[controller as int].stats_within(3)); }
                self.surveil(controller, 1, true);
                proof {
                    if g0.players@[controller as int].library@.len() == 0 {
                        crate::game::effects::lemma_drew_step(g0, *self, controller, 1, 3);
                        crate::game::bounds::lemma_within_mono(*self, 2, 1);
                    } else {
                        crate::game::bounds::lemma_frame_kept(g0, *self);
                        crate::game::bounds::lemma_within_mono(*self, 3, 1);
                    }
                }
            },
            CardName::VillageRites | CardName::DeadlyDispute => {
                match first {
                    Some(Target::Object(id)) => {
                        let ghost before = *self;
                        self.destroy_target(id);
                    },
                    _ => {},
                }
                let ghost gm = *self;
                proof {
                    assert(destroyed_first(g0, gm, targets@));
                    assert(gm.within(3));
                    assert(gm.players@[controller as int].stats_within(3));
                }
                self.draw_cards(controller, 2);
                let ghost gd = *self;
                proof {
                    crate::game::effects::lemma_drew_step(gm, gd, controller, 2, 3);
                    assert(drew(gm, gd, controller, 2));
                }
                if card_name == CardName::DeadlyDispute {
                    self.create_treasure_token(controller);
                    proof {
                        crate::game::effects::lemma_treasure_step(gd, *self, controller, gd.next_object_id, 2);
                        assert(treasure_made(gd, *self, controller));
                    }
                } else {
                    proof { crate::game::bounds::lemma_within_mono(gd, 2, 1); }
                }
            },
            CardName::DemonicTutor => {
                self.tutor(controller, ChoiceReason::DemonicTutorSearch);
                proof { crate::game::bounds::lemma_frame_kept(g0, *self); crate::game::bounds::lemma_within_mono(*self, 3, 1); }
            },
            CardName::MysticalTutor => {
                self.tutor(controller, ChoiceReason::MysticalTutorSearch);
                proof { crate::game::bounds::lemma_frame_kept(g0, *self); crate::game::bounds::lemma_within_mono(*self, 3, 1); }
            },
            CardName::Entomb => {
                self.tutor(controller, ChoiceReason::EntombSearch);
                proof { crate::game::bounds::lemma_frame_kept(g0, *self); crate::game::bounds::lemma_within_mono(*self, 3, 1); }
            },
            CardName::VampiricTutor => {
                proof { crate::game::bounds::lemma_within_mono(g0, 3, 1); }
                self.change_life(controller, -2);
                let ghost gm = *self;
                self.tutor(controller, ChoiceReason::VampiricTutorSearch);
                proof {
                    crate::game::bounds::lemma_frame_kept(gm, *self);
                    crate::game::bounds::lemma_within_mono(*self, 2, 1);
                    assert(life_changed(g0, gm, controller, -2));
                }
            },
            CardName::Duress | CardName::InquisitionOfKozilek | CardName::Thoughtseize | CardName::Unmask => {
                if card_name == CardName::Thoughtseize {
                    proof { crate::game::bounds::lemma_within_mono(g0, 3, 1); }
                    self.change_life(controller, -2);
                }
                let ghost gm = *self;
                proof {
                    assert(g0.within(3));
                    if card_name != CardName::Thoughtseize {
                        crate::game::bounds::lemma_within_mono(gm, 3, 2);
                    }
                    assert(gm.within(2));
                    crate::game::bounds::lemma_within_mono(gm, 2, 1);
                }
                match first {
                    Some(Target::Player(tp)) => {
                        self.choose_from_hand(card_name, controller, tp, db);
                        proof { crate::game::bounds::lemma_frame_kept(gm, *self); }
                    },
                    _ => {},
                }
                proof {
                    if card_name == CardName::Thoughtseize {
                        assert(life_changed(g0, gm, controller, -2));
                    }
                }
            },
            CardName::HymnToTourach => {
                match first {
                    Some(Target::Player(tp)) => {
                        proof { assert(self.players@[tp as int].stats_within(3)); }
                        self.hymn_to_tourach(tp, db);
                        proof { crate::game::bounds::lemma_within_mono(*self, 2, 1); }
                    },
                    _ => {
                        proof { crate::game::bounds::lemma_within_mono(*self, 3, 1); }
                    },
                }
            },
            CardName::Regrowth => {
                match first {
                    Some(Target::Object(id)) => {
                        self.regrow(controller, id);
                        proof { crate::game::bounds::lemma_frame_kept(g0, *self); }
                    },
                    _ => {},
                }
                proof { crate::game::bounds::lemma_within_mono(*self, 3, 1); }
            },
            CardName::GreenSunsZenith => {
                self.green_suns_zenith(controller, x_value, db);
                proof {
                    crate::game::bounds::lemma_frame_kept(g0, *self);
                    crate::game::bounds::lemma_within_mono(*self, 3, 1);
                }
            },
            _ => {
                proof { assert(self.players@[controller as int].stats_within(3)); }
                let e = self.players[controller as usize].extra_turns + 1;
                self.players[controller as usize].extra_turns = e;
                proof {
                    let q = Player { extra_turns: (g0.players@[controller as int].extra_turns + 1) as u32, ..g0.players@[controller as int] };
                    assert(self.players@ =~= g0.players@.update(controller as int, q));
                    crate::game::effects::lemma_player_step(g0, *self, controller as int, q, 3);
                    crate::game::bounds::lemma_within_mono(*self, 2, 1);
                }
            },
        }
    }
}

} // verus!

verus! {

/// Whether `card_name` is a spell about permanents, life or mana.
pub open spec fn is_board_spell(card_name: CardName) -> bool {
    match card_name {
        CardName::LightningBolt | CardName::ChainLightning | CardName::BonecrusherGiant
        | CardName::SwordsToPlowshares | CardName::PathToExile | CardName::DarkRitual | CardName::Armageddon
        | CardName::TendrilsOfAgony => true,
        _ => is_disenchant(card_name),
    }
}

impl GameState {
    /// Damage, removal, mana and life spells.
    fn resolve_board_spell(&mut self, card_name: CardName, controller: PlayerId, targets: &[Target], x_value: u8, is_copy: bool, db: &[CardDef])
        requires
            spell_ready(*old(self), card_name, controller, targets@, db@),
            is_board_spell(card_name),
        ensures
            spell_effect(*old(self), *final(self), card_name, controller, targets@, x_value, is_copy, db@),
            final(self).wf(),
            final(self).within(1),
    {
        let ghost g0 = *self;
        let first: Option<Target> = if targets.len() > 0 { Some(targets[0]) } else { None };
        proof { crate::game::bounds::lemma_within_mono(g0, 3, 0); }
        match card_name {
            CardName::LightningBolt | CardName::ChainLightning | CardName::BonecrusherGiant => {
                let amount: u16 = if card_name == CardName::BonecrusherGiant { 2 } else { 3 };
                match first {
                    Some(t) => {
                        proof {
                            match t {
                                Target::Player(p) => {
                                    assert(targets@[0] matches Target::Player(q) ==> q < 2);
                                    assert(g0.players@[p as int].stats_within(3));
                                },
                                Target::Object(id) => {
                                    crate::game::lemma_perm_pos(g0.battlefield@, id);
                                    if crate::game::perm_pos(g0.battlefield@, id) >= 0 {
                                        assert(g0.battlefield@[crate::game::perm_pos(g0.battlefield@, id)].stats_within(3, g0.battlefield@.len() as int));
                                        assert((amount as i16) == amount) by (bit_vector)
                                            requires amount <= 3;
                                    }
                                },
                                Target::NoTarget => {},
                            }
                        }
                        self.deal_damage_to_target(t, amount, controller);
                        proof {
                            crate::game::effects::lemma_damage_step(g0, *self, t, amount, 3);
                            crate::game::bounds::lemma_within_mono(*self, 2, 1);
                        }
                    },
                    None => {
                        proof { crate::game::bounds::lemma_within_mono(g0, 3, 1); }
                    },
                }
            },
            CardName::SwordsToPlowshares => {
                match first {
                    Some(Target::Object(id)) => {
                        proof { crate::game::bounds::lemma_within_mono(g0, 3, 1); }
                        self.swords_to_plowshares(id);
                        proof {
                            assert(g0.within(3));
                            assert(self.within(2));
                            crate::game::bounds::lemma_within_mono(*self, 2, 1);
                        }
                    },
                    _ => {
                        proof { crate::game::bounds::lemma_within_mono(g0, 3, 1); }
                    },
                }
            },
            CardName::PathToExile => {
                match first {
                    Some(Target::Object(id)) => {
                        let r = self.remove_permanent_to_zone(id, DestinationZone::Exile);
                        proof {
                            assert(removed_to_zone(g0, *self, id, DestinationZone::Exile, r));
                            if crate::game::perm_pos(g0.battlefield@, id) != -1 {
                                assert(self.within(3));
                            }
                            crate::game::bounds::lemma_within_mono(*self, 3, 1);
                        }
                    },
                    _ => {
                        proof { crate::game::bounds::lemma_within_mono(g0, 3, 1); }
                    },
                }
            },
            CardName::DarkRitual => {
                self.players[controller as usize].mana_pool.add(Some(Color::Black), 3);
                proof {
                    let p0 = g0.players@[controller as int];
                    assert(self.players@ =~= g0.players@.update(controller as int, Player {
                        mana_pool: p0.mana_pool.with_amount(Some(Color::Black), (p0.mana_pool.amount(Some(Color::Black)) + 3) as u8),
                        ..p0
                    }));
                    assert(crate::game::bounds::stats_frame(g0, *self));
                    crate::game::bounds::lemma_frame_kept(g0, *self);
                    crate::game::bounds::lemma_within_mono(*self, 3, 1);
                }
            },
            CardName::Armageddon => {
                self.armageddon();
                proof {
                    assert(self.within(3));
                    crate::game::bounds::lemma_within_mono(*self, 3, 1);
                }
            },
            CardName::TendrilsOfAgony => {
                proof { crate::game::bounds::lemma_within_mono(g0, 3, 2); }
                self.tendrils_of_agony(controller, targets, is_copy);
                proof {
                    assert(g0.within(3));
                    assert(self.within(1));
                }
            },
            _ => {
                match first {
                    Some(Target::Object(id)) => {
                        proof { crate::game::bounds::lemma_within_mono(g0, 3, 1); }
                        self.disenchant(card_name, id, db);
                        proof {
                            assert(g0.within(3));
                            assert(self.within(2));
                            crate::game::bounds::lemma_within_mono(*self, 2, 1);
                        }
                    },
                    _ => {
                        proof { crate::game::bounds::lemma_within_mono(g0, 3, 1); }
                    },
                }
            },
        }
    }
}

} // verus!

verus! {

/// What the activated ability with `effect` does for `controller`.
pub open spec fn activated_effect(g0: GameState, g1: GameState, effect: ActivatedEffect, controller: PlayerId, targets: Seq<Target>) -> bool {
    match effect {
        ActivatedEffect::SacrificeForMana { .. } | ActivatedEffect::JaceFateseal => g1 == g0,
        ActivatedEffect::GriselbrandDraw => drew(g0, g1, controller, 7),
        ActivatedEffect::JaceBrainstorm => exists|gm: GameState| #[trigger] drew(g0, gm, controller, 3) && put_back_two(gm, g1, controller),
        ActivatedEffect::JaceBounce => match first_target(targets) {
            Some(Target::Object(id)) => exists|r: Option<Permanent>| #[trigger] removed_to_zone(g0, g1, id, DestinationZone::Hand, r),
            _ => g1 == g0,
        },
        ActivatedEffect::TeferiBounce => exists|gm: GameState| #[trigger] drew(gm, g1, controller, 1) && match first_target(targets) {
            Some(Target::Object(id)) => exists|r: Option<Permanent>| #[trigger] removed_to_zone(g0, gm, id, DestinationZone::Hand, r),
            _ => gm == g0,
        },
        ActivatedEffect::DrawCards(n) => drew(g0, g1, controller, n as nat),
        _ => crate::game::activated::activated_more(g0, g1, effect, controller, targets),
    }
}

impl GameState {
    /// Resolve an instant or sorcery's effect (see `spell_effect`).
    pub fn resolve_card_effect(
        &mut self,
        card_name: CardName,
        controller: PlayerId,
        targets: &[Target],
        x_value: u8,
        modes: &[u8],
        is_copy: bool,
        db: &[CardDef],
    )
        requires
            spell_ready(*old(self), card_name, controller, targets@, db@),
        ensures
            spell_effect(*old(self), *final(self), card_name, controller, targets@, x_value, is_copy, db@),
            final(self).wf(),
            final(self).within(1),
    {
        let _ = modes;
        if stack_spell(card_name) {
            self.resolve_stack_spell(card_name, controller, targets, x_value, is_copy, db);
        } else if card_spell(card_name) {
            self.resolve_card_spell(card_name, controller, targets, x_value, is_copy, db);
        } else if board_spell(card_name) {
            self.resolve_board_spell(card_name, controller, targets, x_value, is_copy, db);
        } else if crate::game::spell_effects::more_spell(card_name) {
            self.resolve_more_spell(card_name, controller, targets, x_value, is_copy, db);
        } else if card_name == CardName::LifeFromTheLoam {
            let ghost g0 = *self;
            self.life_from_the_loam(controller, db);
            proof {
                crate::game::bounds::lemma_frame_kept(g0, *self);
                crate::game::bounds::lemma_within_mono(*self, 3, 1);
            }
        } else if crate::game::search_more::search_more(card_name) {
            self.resolve_search_more(card_name, controller, targets, is_copy, db);
        } else if crate::game::board_more::board_more(card_name) {
            self.resolve_board_more(card_name, controller, targets, x_value, db);
        } else if crate::game::counter_more::counter_more(card_name) {
            let ghost g0 = *self;
            self.resolve_counter_more(card_name, controller, targets, is_copy);
            proof {
                crate::game::bounds::lemma_frame_kept(g0, *self);
                crate::game::bounds::lemma_within_mono(*self, 3, 1);
            }
        } else {
            proof { crate::game::bounds::lemma_within_mono(*self, 3, 1); }
        }
    }

    /// Resolve an instant or sorcery with its X value.
    pub fn resolve_card_effect_with_x(
        &mut self,
        card_name: CardName,
        controller: PlayerId,
        targets: &[Target],
        x_value: u8,
        modes: &[u8],
        is_copy: bool,
        db: &[CardDef],
    )
        requires
            spell_ready(*old(self), card_name, controller, targets@, db@),
        ensures
            spell_effect(*old(self), *final(self), card_name, controller, targets@, x_value, is_copy, db@),
            final(self).wf(),
            final(self).within(1),
    {
        self.resolve_card_effect(card_name, controller, targets, x_value, modes, is_copy, db);
    }

    /// Resolve a triggered ability (see `trigger_effect`).
    pub fn resolve_triggered(&mut self, effect: TriggeredEffect, controller: PlayerId, targets: &[Target], db: &[CardDef])
        requires
            crate::game::abilities::trigger_ready(*old(self), effect, controller, targets@, db@),
        ensures
            crate::game::abilities::trigger_effect(*old(self), *final(self), effect, controller, targets@, db@),
            final(self).wf(),
            final(self).within(1),
    {
        if crate::game::abilities::is_simple_trigger_exec(effect) {
            self.resolve_trigger_simple(effect, controller, targets, db);
        } else if crate::game::trigger_more::more_trigger(effect) {
            self.resolve_trigger_more(effect, controller, targets, db);
        } else {
            self.resolve_trigger_objects(effect, controller, targets, db);
        }
    }

    /// Resolve an activated ability (see `activated_effect`).
    pub fn resolve_activated(&mut self, effect: ActivatedEffect, controller: PlayerId, targets: &[Target], db: &[CardDef])
        requires
            old(self).wf(),
            old(self).within(3),
            controller < 2,
            forall|i: int| 0 <= i < targets@.len() ==> (#[trigger] targets@[i] matches Target::Player(p) ==> p < 2),
        ensures
            activated_effect(*old(self), *final(self), effect, controller, targets@),
            final(self).wf(),
            final(self).within(1),
    {
        let ghost g0 = *self;
        let _ = db;
        proof { crate::game::bounds::lemma_within_mono(g0, 3, 1); crate::game::bounds::lemma_within_mono(g0, 3, 0); }
        match effect {
            ActivatedEffect::GriselbrandDraw => {
                proof { assert(self.players@[controller as int].stats_within(3)); }
                self.draw_cards(controller, 7);
                proof {
                    crate::game::effects::lemma_drew_step(g0, *self, controller, 7, 3);
                    crate::game::bounds::lemma_within_mono(*self, 2, 1);
                }
            },
            ActivatedEffect::DrawCards(n) => {
                proof { assert(self.players@[controller as int].stats_within(3)); }
                self.draw_cards(controller, n as usize);
                proof {
                    crate::game::effects::lemma_drew_step(g0, *self, controller, n as nat, 3);
                    crate::game::bounds::lemma_within_mono(*self, 2, 1);
                }
            },
            ActivatedEffect::JaceBrainstorm => {
                proof { assert(self.players@[controller as int].stats_within(3)); }
                self.draw_cards(controller, 3);
                let ghost gm = *self;
                proof { crate::game::effects::lemma_drew_step(g0, gm, controller, 3, 3); }
                self.put_back_two_cards(controller);
                proof {
                    crate::game::bounds::lemma_frame_kept(gm, *self);
                    crate::game::bounds::lemma_within_mono(*self, 2, 1);
                    assert(drew(g0, gm, controller, 3));
                }
            },
            ActivatedEffect::JaceBounce => {
                if targets.len() > 0 {
                    match targets[0] {
                        Target::Object(id) => {
                            let r = self.remove_permanent_to_zone(id, DestinationZone::Hand);
                            proof {
                                assert(removed_to_zone(g0, *self, id, DestinationZone::Hand, r));
                                if crate::game::perm_pos(g0.battlefield@, id) != -1 { assert(self.within(3)); }
                                crate::game::bounds::lemma_within_mono(*self, 3, 1);
                            }
                        },
                        _ => {},
                    }
                }
            },
            ActivatedEffect::TeferiBounce => {
                if targets.len() > 0 {
                    match targets[0] {
                        Target::Object(id) => {
                            let r = self.remove_permanent_to_zone(id, DestinationZone::Hand);
                            proof {
                                assert(removed_to_zone(g0, *self, id, DestinationZone::Hand, r));
                                if crate::game::perm_pos(g0.battlefield@, id) != -1 { assert(self.within(3)); }
                            }
                        },
                        _ => {},
                    }
                }
                let ghost gm = *self;
                proof { assert(gm.within(3)); assert(gm.players@[controller as int].stats_within(3)); }
                self.draw_cards(controller, 1);
                proof {
                    crate::game::effects::lemma_drew_step(gm, *self, controller, 1, 3);
                    crate::game::bounds::lemma_within_mono(*self, 2, 1);
                    assert(drew(gm, *self, controller, 1));
                }
            },
            ActivatedEffect::SacrificeForMana { .. } | ActivatedEffect::JaceFateseal => {},
            _ => {
                self.resolve_activated_more(effect, controller, targets);
            },
        }
    }
}

} // verus!

verus! {

/// Executable form of `is_disenchant`.
pub fn disenchant_spell(card_name: CardName) -> (r: bool)
    ensures
        r == is_disenchant(card_name),
{
    match card_name {
        CardName::Disenchant | CardName::NaturesClaim | CardName::Fragmentize | CardName::AbruptDecay
        | CardName::AncientGrudge | CardName::ShatteringSpree | CardName::MoltenCollapse | CardName::FatalPush
        | CardName::BitterTriumph | CardName::SnuffOut | CardName::UntimelyMalfunction | CardName::Crash
        | CardName::CouncilsJudgment => true,
        _ => false,
    }
}

/// Whether resolving the instant or sorcery `card_name` has a modelled effect (every other
/// one resolves with no effect; see `spell_effect`).
pub open spec fn is_modelled_spell(card_name: CardName) -> bool {
    ||| is_stack_spell(card_name)
    ||| is_card_spell(card_name)
    ||| is_board_spell(card_name)
    ||| crate::game::spell_effects::is_more_spell(card_name)
    ||| crate::game::search_more::is_search_more(card_name)
    ||| crate::game::board_more::is_board_more(card_name)
    ||| crate::game::counter_more::is_counter_more(card_name)
    ||| card_name == CardName::LifeFromTheLoam
}

/// Executable form of `is_modelled_spell`.
pub fn modelled_spell(card_name: CardName) -> (r: bool)
    ensures
        r == is_modelled_spell(card_name),
{
    stack_spell(card_name) || card_spell(card_name) || board_spell(card_name)
        || crate::game::spell_effects::more_spell(card_name) || crate::game::search_more::search_more(card_name)
        || crate::game::board_more::board_more(card_name) || crate::game::counter_more::counter_more(card_name)
        || card_name == CardName::LifeFromTheLoam
}

/// Executable form of `is_stack_spell`.
pub fn stack_spell(card_name: CardName) -> (r: bool)
    ensures
        r == is_stack_spell(card_name),
{
    match card_name {
        CardName::Counterspell | CardName::ForceOfWill | CardName::ForceOfNegation | CardName::MentalMisstep
        | CardName::ManaDrain | CardName::MemoryLapse | CardName::Remand | CardName::Pyroblast
        | CardName::RedElementalBlast | CardName::Commandeer | CardName::Misdirection => true,
        _ => false,
    }
}

/// Executable form of `is_card_spell`.
pub fn card_spell(card_name: CardName) -> (r: bool)
    ensures
        r == is_card_spell(card_name),
{
    match card_name {
        CardName::AncestralRecall | CardName::Brainstorm | CardName::Ponder | CardName::Preordain
        | CardName::Consider | CardName::VillageRites | CardName::DeadlyDispute | CardName::DemonicTutor
        | CardName::VampiricTutor | CardName::MysticalTutor | CardName::Entomb | CardName::Duress | CardName::Unmask
        | CardName::InquisitionOfKozilek | CardName::Thoughtseize | CardName::HymnToTourach
        | CardName::Regrowth | CardName::GreenSunsZenith | CardName::TimeWalk | CardName::TemporalMastery => true,
        _ => false,
    }
}

/// Executable form of `is_board_spell`.
pub fn board_spell(card_name: CardName) -> (r: bool)
    ensures
        r == is_board_spell(card_name),
{
    match card_name {
        CardName::LightningBolt | CardName::ChainLightning | CardName::BonecrusherGiant
        | CardName::SwordsToPlowshares | CardName::PathToExile | CardName::DarkRitual | CardName::Armageddon
        | CardName::TendrilsOfAgony => true,
        _ => disenchant_spell(card_name),
    }
}

} // verus!

verus! {

/// Whether the card `card_name` resolves as a permanent (its definition has a permanent
/// type and it was not cast as an adventure).
pub open spec fn resolves_as_permanent(db: Seq<CardDef>, card_name: CardName, cast_as_adventure: bool) -> bool {
    !cast_as_adventure && match lookup(db, card_name) {
        Some(d) => crate::game::abilities::permanent_types(d.card_types@),
        None => false,
    }
}

/// `g1` is `g0` after the resolved instant or sorcery card `card_id` went where it goes: a
/// copy nowhere, a card cast from a graveyard into exile, an adventure into exile (castable
/// later), Green Sun's Zenith to the bottom of the library, anything else to the graveyard
/// (exile under Rest in Peace).
pub open spec fn spell_card_done(
    g0: GameState,
    g1: GameState,
    card_id: ObjectId,
    card_name: CardName,
    controller: PlayerId,
    is_copy: bool,
    cast_from_graveyard: bool,
    cast_as_adventure: bool,
) -> bool {
    let c = controller as int;
    if is_copy {
        g1 == g0
    } else if cast_from_graveyard {
        g1.exile@ == g0.exile@.push((card_id, card_name, controller)) && g1 == (GameState { exile: g1.exile, ..g0 })
    } else if cast_as_adventure {
        &&& g1.exile@ == g0.exile@.push((card_id, card_name, controller))
        &&& g1.adventure_exiled@ == g0.adventure_exiled@.push((card_id, controller))
        &&& g1 == (GameState { exile: g1.exile, adventure_exiled: g1.adventure_exiled, ..g0 })
    } else if card_name == CardName::GreenSunsZenith {
        &&& g1.players@[c].library@ == seq![card_id] + g0.players@[c].library@
        &&& player_replaced(g0, g1, c, Player { library: g1.players@[c].library, ..g0.players@[c] })
    } else {
        &&& card_added(g0, g1, card_id, card_name, controller, crate::game::zones::actual_destination(DestinationZone::Graveyard, g0.battlefield@))
        &&& g1 == (GameState { players: g1.players, exile: g1.exile, ..g0 })
    }
}

/// `g1` is `g0` after the permanent spell `card_name` (definition `d`) entered the
/// battlefield.
pub open spec fn permanent_entered(
    g0: GameState,
    g1: GameState,
    card_name: CardName,
    card_id: ObjectId,
    controller: PlayerId,
    d: CardDef,
) -> bool {
    let n0 = g0.battlefield@.len() as int;
    let p = g1.battlefield@[n0];
    &&& g1.battlefield@.len() == n0 + 1
    &&& g1.battlefield@.subrange(0, n0) == g0.battlefield@
    &&& crate::game::abilities::entering_card(p, card_id, card_name, controller, d)
    &&& !p.tapped
    &&& p.creature_types@ == (if d.is_changeling { crate::card::every_creature_type() } else { d.creature_types@ })
    &&& p.colors@ == d.color_identity@
    &&& g1 == (GameState { battlefield: g1.battlefield, ..g0 })
}

/// `g1` is `g0` with the evoke sacrifice trigger of `card_name` on the stack when it was
/// evoked, and unchanged otherwise.
pub open spec fn evoke_queued(g0: GameState, g1: GameState, card_name: CardName, card_id: ObjectId, controller: PlayerId, cast_via_evoke: bool) -> bool {
    &&& cast_via_evoke ==> g1.stack.items@.len() == g0.stack.items@.len() + 1
        && g1.stack.items@.drop_last() == g0.stack.items@
        && g1.stack.items@.last().kind == (StackItemKind::TriggeredAbility {
            source_id: card_id,
            source_name: card_name,
            effect: TriggeredEffect::EvokeSacrifice { permanent_id: card_id },
        })
        && g1.stack.items@.last().controller == controller
        && g1.stack.items@.last().targets@.len() == 0
    &&& !cast_via_evoke ==> g1.stack == g0.stack
    &&& g1 == (GameState { stack: g1.stack, ..g0 })
}

/// What resolving the spell `card_name` does.
pub open spec fn spell_resolved(
    g0: GameState,
    g1: GameState,
    card_name: CardName,
    card_id: ObjectId,
    controller: PlayerId,
    targets: Seq<Target>,
    x_value: u8,
    cast_from_graveyard: bool,
    cast_as_adventure: bool,
    cast_via_evoke: bool,
    is_copy: bool,
    db: Seq<CardDef>,
) -> bool {
    if resolves_as_permanent(db, card_name, cast_as_adventure) {
        if is_copy {
            g1 == g0
        } else {
            exists|gp: GameState, ge: GameState, gt: GameState|
                #[trigger] permanent_entered(g0, gp, card_name, card_id, controller, lookup(db, card_name)->0)
                && #[trigger] crate::game::etb::etb_handled(gp, ge, card_name, card_id, controller, x_value)
                && #[trigger] crate::game::etb::cast_targets_handled(ge, gt, card_name, card_id, targets)
                && evoke_queued(gt, g1, card_name, card_id, controller, cast_via_evoke)
        }
    } else {
        exists|gm: GameState| #[trigger] spell_effect(g0, gm, card_name, controller, targets, x_value, is_copy, db)
            && spell_card_done(gm, g1, card_id, card_name, controller, is_copy, cast_from_graveyard, cast_as_adventure)
    }
}

impl GameState {
    /// Resolve a spell: a permanent spell enters the battlefield (an evoked one with its
    /// sacrifice trigger); an instant or sorcery takes effect and its card goes where it goes.
    pub fn resolve_spell(
        &mut self,
        card_name: CardName,
        card_id: ObjectId,
        controller: PlayerId,
        targets: &[Target],
        x_value: u8,
        cast_from_graveyard: bool,
        cast_as_adventure: bool,
        cast_via_evoke: bool,
        modes: &[u8],
        is_copy: bool,
        db: &[CardDef],
    )
        requires
            spell_ready(*old(self), card_name, controller, targets@, db@),
        ensures
            spell_resolved(*old(self), *final(self), card_name, card_id, controller, targets@, x_value,
                cast_from_graveyard, cast_as_adventure, cast_via_evoke, is_copy, db@),
            final(self).wf(),
            final(self).within(0),
    {
        let ghost g0 = *self;
        let card_def = find_card(db, card_name);
        let is_permanent = if cast_as_adventure {
            false
        } else {
            match card_def {
                Some(c) => types_contain(&c.card_types, CardType::Creature) || types_contain(&c.card_types, CardType::Artifact)
                    || types_contain(&c.card_types, CardType::Enchantment) || types_contain(&c.card_types, CardType::Planeswalker)
                    || types_contain(&c.card_types, CardType::Land),
                None => false,
            }
        };
        if is_permanent && !is_copy {
            match card_def {
                Some(def) => {
                    let mut perm = Permanent::new(card_id, card_name, controller, controller, def.power, def.toughness,
                        def.loyalty, def.keywords, def.card_types.as_slice());
                    if def.is_changeling {
                        perm.creature_types = crate::card::all_creature_types();
                    } else {
                        perm.creature_types = vstd::slice::slice_to_vec(def.creature_types.as_slice());
                    }
                    perm.colors = vstd::slice::slice_to_vec(def.color_identity.as_slice());
                    proof {
                        assert(perm.counters.count(crate::types::CounterType::PlusOnePlusOne) == 0);
                        assert(perm.counters.count(crate::types::CounterType::MinusOneMinusOne) == 0);
                        assert(perm.counters.count(crate::types::CounterType::Lore) == 0);
                        assert(perm.counters.count(crate::types::CounterType::Burden) == 0);
                        assert(perm.counters.count(crate::types::CounterType::Charge) == 0);
                        assert(perm.counters.count(crate::types::CounterType::Stun) == 0);
                    }
                    self.battlefield.push(perm);
                    let ghost g1 = *self;
                    proof {
                        crate::game::abilities::lemma_lookup_ok(db@, card_name);
                        crate::game::abilities::lemma_entering_small(perm, card_id, card_name, controller, *def);
                        assert(self.battlefield@.drop_last() =~= g0.battlefield@);
                        crate::game::abilities::lemma_new_permanent_step(g0, g1, 3);
                        assert(self.battlefield@.subrange(0, g0.battlefield@.len() as int) =~= g0.battlefield@);
                        assert(permanent_entered(g0, g1, card_name, card_id, controller, lookup(db@, card_name)->0));
                    }
                    self.handle_etb_with_x(card_name, card_id, controller, x_value);
                    let ghost ge = *self;
                    self.handle_etb_with_cast_targets(card_name, card_id, controller, targets);
                    let ghost gt = *self;
                    proof {
                        crate::game::bounds::lemma_frame_kept(ge, gt);
                        assert(gt.within(0));
                    }
                    if cast_via_evoke {
                        self.stack.push(
                            StackItemKind::TriggeredAbility {
                                source_id: card_id,
                                source_name: card_name,
                                effect: TriggeredEffect::EvokeSacrifice { permanent_id: card_id },
                            },
                            controller,
                            Vec::new(),
                        );
                        proof {
                            assert(self.stack.items@.drop_last() =~= gt.stack.items@);
                            crate::game::bounds::lemma_stats_kept(gt, *self, 0);
                        }
                    }
                    proof {
                        assert(evoke_queued(gt, *self, card_name, card_id, controller, cast_via_evoke));
                    }
                },
                None => {},
            }
        } else if !is_permanent {
            self.resolve_card_effect_with_x(card_name, controller, targets, x_value, modes, is_copy, db);
            let ghost gm = *self;
            proof { crate::game::bounds::lemma_within_mono(gm, 1, 0); }
            if is_copy {
            } else if cast_from_graveyard {
                self.exile.push((card_id, card_name, controller));
            } else if cast_as_adventure {
                self.exile.push((card_id, card_name, controller));
                self.adventure_exiled.push((card_id, controller));
            } else if card_name == CardName::GreenSunsZenith {
                self.players[controller as usize].library.insert(0, card_id);
                proof {
                    let c = controller as int;
                    assert(self.players@[c].library@ =~= seq![card_id] + gm.players@[c].library@);
                    assert(self.players@ =~= gm.players@.update(c, Player { library: self.players@[c].library, ..gm.players@[c] }));
                }
            } else {
                self.send_to_graveyard(card_id, card_name, controller);
            }
            proof {
                crate::game::bounds::lemma_stats_kept(gm, *self, 0);
                assert(spell_card_done(gm, *self, card_id, card_name, controller, is_copy, cast_from_graveyard, cast_as_adventure));
            }
        } else {
            proof { crate::game::bounds::lemma_within_mono(g0, 3, 0); }
        }
    }
}

} // verus!

verus! {

/// What resolving the stack item `item` does.
pub open spec fn item_resolved(g0: GameState, g1: GameState, item: StackItem, db: Seq<CardDef>) -> bool {
    match item.kind {
        StackItemKind::Spell { card_name, card_id, cast_via_evoke } => spell_resolved(g0, g1, card_name, card_id,
            item.controller, item.targets@, item.x_value, item.cast_from_graveyard, item.cast_as_adventure, cast_via_evoke,
            item.is_copy, db),
        StackItemKind::TriggeredAbility { effect, .. } => crate::game::abilities::trigger_effect(g0, g1, effect, item.controller, item.targets@, db),
        StackItemKind::ActivatedAbility { effect, .. } => activated_effect(g0, g1, effect, item.controller, item.targets@),
    }
}

/// `g1` is `g0` after its priority holder passed.
pub open spec fn passed_set(g0: GameState, g1: GameState) -> bool {
    &&& g1.passed_priority@ == g0.passed_priority@.update(g0.priority_player as int, true)
    &&& g1 == (GameState { passed_priority: g1.passed_priority, ..g0 })
}

/// `g1` is `g0` with nobody having passed and the active player holding priority.
pub open spec fn priority_reset(g0: GameState, g1: GameState) -> bool {
    &&& g1.passed_priority@.len() == g0.passed_priority@.len()
    &&& forall|i: int| 0 <= i < g1.passed_priority@.len() ==> g1.passed_priority@[i] == false
    &&& g1.priority_player == g0.active_player
    &&& g1 == (GameState {
        passed_priority: g1.passed_priority,
        priority_player: g1.priority_player,
        action_context: crate::action::ActionContext::Priority,
        ..g0
    })
}

/// `g1` is `g0` with its top stack item taken off.
pub open spec fn popped(g0: GameState, g1: GameState) -> bool {
    &&& g1.stack.items@ == g0.stack.items@.drop_last()
    &&& g1.stack.next_id == g0.stack.next_id
    &&& g1 == (GameState { stack: g1.stack, ..g0 })
}

/// What resolving the top of the stack needs: a well-formed state with room for a few steps,
/// known players, and the top item's own bounds.
pub open spec fn top_ready(g: GameState, db: Seq<CardDef>) -> bool {
    let items = g.stack.items@;
    let t = items.last();
    &&& g.wf()
    &&& g.within(3)
    &&& crate::game::db_ok(db)
    &&& stack_items_ok(items, 2)
    &&& items.len() > 0 ==> {
        &&& forall|i: int| 0 <= i < t.targets@.len() ==> (#[trigger] t.targets@[i] matches Target::Player(p) ==> p < 2)
        &&& match t.kind {
            StackItemKind::Spell { card_name, .. } => spell_bounds(g.players@, items.drop_last(), card_name, t.controller, t.targets@, db),
            StackItemKind::TriggeredAbility { effect, .. } => crate::game::abilities::trigger_bounds(effect, t.targets@),
            StackItemKind::ActivatedAbility { .. } => true,
        }
    }
}

impl GameState {
    /// Resolve the top of the stack, then check state-based actions.
    pub fn resolve_top(&mut self, db: &[CardDef])
        requires
            top_ready(*old(self), db@),
        ensures
            old(self).stack.items@.len() == 0 ==> *final(self) == *old(self),
            old(self).stack.items@.len() > 0 ==> exists|gm: GameState, gr: GameState|
                #[trigger] popped(*old(self), gm) && #[trigger] item_resolved(gm, gr, old(self).stack.items@.last(), db@)
                && crate::game::sba::sba_done(gr, *final(self), db@),
            final(self).wf(),
            final(self).within(0),
    {
        let ghost g0 = *self;
        if self.stack.items.len() == 0 {
            proof { crate::game::bounds::lemma_within_mono(g0, 3, 0); }
            return;
        }
        let item = match self.stack.pop() {
            Some(it) => it,
            None => return,
        };
        let ghost gm = *self;
        proof {
            crate::game::bounds::lemma_stats_kept(g0, gm, 3);
            assert(stack_items_ok(gm.stack.items@, 2)) by {
                assert forall|i: int| 0 <= i < gm.stack.items@.len() implies (#[trigger] gm.stack.items@[i]).controller < 2 by {
                    assert(gm.stack.items@[i] == g0.stack.items@[i]);
                }
            }
            assert(item.controller < 2);
        }
        match item.kind {
            StackItemKind::Spell { card_name, card_id, cast_via_evoke } => {
                self.resolve_spell(card_name, card_id, item.controller, item.targets.as_slice(), item.x_value,
                    item.cast_from_graveyard, item.cast_as_adventure, cast_via_evoke, item.modes.as_slice(), item.is_copy, db);
            },
            StackItemKind::TriggeredAbility { effect, .. } => {
                self.resolve_triggered(effect, item.controller, item.targets.as_slice(), db);
                proof { crate::game::bounds::lemma_within_mono(*self, 1, 0); }
            },
            StackItemKind::ActivatedAbility { effect, .. } => {
                self.resolve_activated(effect, item.controller, item.targets.as_slice(), db);
                proof { crate::game::bounds::lemma_within_mono(*self, 1, 0); }
            },
        }
        let ghost gr = *self;
        self.check_state_based_actions(db);
        proof {
            assert(popped(g0, gm));
            assert(item_resolved(gm, gr, g0.stack.items@.last(), db@));
            assert(gr.within(0));
        }
    }

    /// The current priority holder passes. When both have passed, an empty stack moves the
    /// game to its next step, otherwise the top of the stack resolves and the active player
    /// gets priority; when only one has passed, the other player gets priority.
    pub fn pass_priority(&mut self, db: &[CardDef])
        requires
            top_ready(*old(self), db@),
            old(self).turn_number < u32::MAX,
            crate::game::in_end_step(*old(self)) ==> crate::game::undo_all_safe(
                old(self).battlefield@.map_values(|p: Permanent| crate::game::cleaned(p)),
                old(self).temporary_effects@,
                old(self).temporary_effects@.len() as int,
            ),
        ensures
            final(self).wf(),
            ({
                let passed = old(self).passed_priority@.update(old(self).priority_player as int, true);
                let all = passed[0] && passed[1];
                &&& !all ==> final(self).passed_priority@ == passed
                    && final(self).priority_player == 1 - old(self).priority_player
                    && *final(self) == (GameState { passed_priority: final(self).passed_priority, priority_player: final(self).priority_player, ..*old(self) })
                &&& all && old(self).stack.items@.len() == 0 ==> exists|ga: GameState|
                    #[trigger] passed_set(*old(self), ga) && crate::game::phase_advanced(ga, *final(self))
                &&& all && old(self).stack.items@.len() > 0 ==> exists|g1: GameState, gm: GameState, gr: GameState, g2: GameState|
                    #[trigger] passed_set(*old(self), g1) && #[trigger] popped(g1, gm)
                    && #[trigger] item_resolved(gm, gr, old(self).stack.items@.last(), db@)
                    && #[trigger] crate::game::sba::sba_done(gr, g2, db@) && priority_reset(g2, *final(self))
            }),
    {
        let pp = self.priority_player as usize;
        self.passed_priority.set(pp, true);
        let ghost g1 = *self;
        let all = self.passed_priority[0] && self.passed_priority[1];
        if all {
            if self.stack.items.len() == 0 {
                proof {
                    assert(crate::game::phase_after(g1) == crate::game::phase_after(*old(self)));
                    assert(crate::game::in_end_step(g1) == crate::game::in_end_step(*old(self)));
                }
                self.advance_phase();
                proof { assert(passed_set(*old(self), g1)); }
            } else {
                proof { crate::game::bounds::lemma_stats_kept(*old(self), g1, 3); }
                self.resolve_top(db);
                let ghost g2 = *self;
                self.reset_priority_passes();
                self.give_priority_to_active();
                proof {
                    assert(passed_set(*old(self), g1));
                    assert(priority_reset(g2, *self));
                }
            }
        } else {
            let opp = self.opponent(self.priority_player);
            self.priority_player = opp;
        }
    }
}

} // verus!

verus! {

/// Jace, the Mind Sculptor's -1 on a card on the battlefield returns it to its owner's hand:
/// the card is the newest card there, and no card is exiled or put into a graveyard.
pub proof fn law_jace_bounce_returns_the_card_to_its_owners_hand(g0: GameState, g1: GameState, controller: PlayerId,
    targets: Seq<Target>, id: ObjectId, p: Permanent)
    requires
        g0.wf(),
        g0.within(0),
        targets.len() > 0,
        targets[0] == Target::Object(id),
        crate::game::perm_with(g0.battlefield@, id) == Some(p),
        !p.is_token,
        activated_effect(g0, g1, ActivatedEffect::JaceBounce, controller, targets),
    ensures
        g1.players@[p.owner as int].hand@ == g0.players@[p.owner as int].hand@.push(id),
        g1.exile@ == g0.exile@,
        forall|i: int| 0 <= i < 2 ==> #[trigger] g1.players@[i].graveyard@ == g0.players@[i].graveyard@,
        g1.battlefield@.len() == g0.battlefield@.len() - 1,
{
    let bf = g0.battlefield@;
    crate::game::lemma_perm_pos(bf, id);
    let i = crate::game::perm_pos(bf, id);
    assert(bf[i].owner < 2);
    assert(first_target(targets) == Some(Target::Object(id)));
    let r = choose|r: Option<Permanent>| #[trigger] removed_to_zone(g0, g1, id, DestinationZone::Hand, r);
    assert(removed_to_zone(g0, g1, id, DestinationZone::Hand, r));
    assert(crate::game::zones::removal_destination(DestinationZone::Hand, bf, id) == DestinationZone::Hand);
}

} // verus!
