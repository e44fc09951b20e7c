//! Tokens, transforming permanents, and what triggered abilities do.
use vstd::prelude::*;
use crate::card::{CardDef, CardName, find_card, lookup, has_type, types_contain};
use crate::game::{GameState, perm_pos, lemma_perm_pos, registered_name};
use crate::game::bounds::fresh_small;
use crate::permanent::Permanent;
use crate::types::{CardType, Keyword, Keywords, ObjectId, PlayerId, Target, keyword_bit};
use crate::game::{ChoiceKind, ChoiceReason, PendingChoice};
use crate::game::effects::{drew, damage_dealt, player_replaced};
use crate::game::spells::{first_target, life_changed, choice_set, destroyed};
use crate::game::resolution::routed_zones;
use crate::stack::{StackItem, StackItemKind, TriggeredEffect, item_pos};

verus! {

/// `p` is a new token with id `id`, as it enters the battlefield.
pub open spec fn is_new_token(
    p: Permanent,
    id: ObjectId,
    name: CardName,
    controller: PlayerId,
    power: i16,
    toughness: i16,
    keywords: Keywords,
    types: Seq<CardType>,
) -> bool {
    &&& p.id == id
    &&& p.card_name == name
    &&& p.owner == controller
    &&& p.controller == controller
    &&& p.is_token
    &&& !p.tapped
    &&& p.entered_this_turn
    &&& p.damage == 0
    &&& p.base_power == power
    &&& p.base_toughness == toughness
    &&& p.power_mod == 0
    &&& p.toughness_mod == 0
    &&& p.loyalty == 0
    &&& p.counters == crate::types::Counters { plus_one: 0, minus_one: 0, lore: 0, burden: 0, charge: 0, stun: 0 }
    &&& p.keywords == keywords
    &&& p.card_types@ == types
    &&& p.attached_to is None
    &&& p.attachments@.len() == 0
}

/// `g1` is `g0` after a token entered the battlefield with the next object id.
pub open spec fn token_made(
    g0: GameState,
    g1: GameState,
    name: CardName,
    controller: PlayerId,
    power: i16,
    toughness: i16,
    keywords: Keywords,
    types: Seq<CardType>,
) -> bool {
    &&& g1.next_object_id == g0.next_object_id + 1
    &&& g1.battlefield@.len() == g0.battlefield@.len() + 1
    &&& g1.battlefield@.drop_last() == g0.battlefield@
    &&& is_new_token(g1.battlefield@.last(), g0.next_object_id, name, controller, power, toughness, keywords, types)
    &&& g1 == (GameState { battlefield: g1.battlefield, next_object_id: g1.next_object_id, ..g0 })
}

/// A permanent entering (with the next object id, or any id) that is small enough uses up
/// one step of room.
pub proof fn lemma_new_permanent_step(g0: GameState, g1: GameState, k: int)
    requires
        1 <= k,
        g0.within(k),
        g1.next_object_id <= g0.next_object_id + 1,
        g1.battlefield@.len() == g0.battlefield@.len() + 1,
        g1.battlefield@.drop_last() == g0.battlefield@,
        fresh_small(g1.battlefield@.last()),
        g1.battlefield@.last().owner < 2,
        g1.battlefield@.last().controller < 2,
        g1.turn_number == g0.turn_number,
        g1.storm_count == g0.storm_count,
        crate::game::same_player_stats(g1.players@, g0.players@),
    ensures
        g1.within(k - 1),
{
    let n0 = g0.battlefield@.len() as int;
    assert forall|j: int| 0 <= j < g1.battlefield@.len() implies fresh_small(#[trigger] g1.battlefield@[j])
        || exists|t: int| 0 <= t < g0.battlefield@.len() && crate::game::bounds::perm_step(g1.battlefield@[j], #[trigger] g0.battlefield@[t]) by {
        if j < n0 {
            assert(g1.battlefield@[j] == g1.battlefield@.drop_last()[j]);
            assert(crate::game::bounds::perm_step(g1.battlefield@[j], g0.battlefield@[j]));
        }
    }
    assert forall|j: int| 0 <= j < g1.battlefield@.len() implies (#[trigger] g1.battlefield@[j]).owner < 2
        && g1.battlefield@[j].controller < 2 by {
        if j < n0 {
            assert(g1.battlefield@[j] == g1.battlefield@.drop_last()[j]);
            assert(g0.battlefield@[j].owner < 2);
        }
    }
    assert forall|j: int| 0 <= j < g1.players@.len() implies crate::game::bounds::player_step(#[trigger] g1.players@[j], g0.players@[j]) by {}
    crate::game::bounds::lemma_one_step(g0, g1, k);
}

/// Index of the first definition of `db` from `k` on whose back face is `name`, or -1.
pub open spec fn front_pos_from(db: Seq<CardDef>, name: CardName, k: int) -> int
    decreases db.len() - k,
{
    if k < 0 || k >= db.len() {
        -1
    } else if db[k].back_face == Some(name) {
        k
    } else {
        front_pos_from(db, name, k + 1)
    }
}

/// The face a permanent named `name` turns to: the back face from its definition, or, when
/// already transformed, the front face whose back face it is.
pub open spec fn other_face(db: Seq<CardDef>, name: CardName, transformed: bool) -> Option<CardName> {
    if transformed {
        let k = front_pos_from(db, name, 0);
        if k >= 0 { Some(db[k].name) } else { None }
    } else {
        match lookup(db, name) {
            Some(d) => d.back_face,
            None => None,
        }
    }
}

/// `g1` is `g0` after permanent `id` turned to its other face (see `transform_permanent`).
pub open spec fn transformed_perm(g0: GameState, g1: GameState, id: ObjectId, db: Seq<CardDef>) -> bool {
    let bf = g0.battlefield@;
    let i = perm_pos(bf, id);
    if i < 0 {
        g1 == g0
    } else {
        let p = bf[i];
        match other_face(db, p.card_name, p.transformed) {
            Some(target) => match lookup(db, target) {
                Some(d) => {
                    let q = g1.battlefield@[i];
                    &&& g1.battlefield@ == bf.update(i, q)
                    &&& q.card_name == target
                    &&& q.base_power == (match d.power { Some(v) => v, None => 0 })
                    &&& q.base_toughness == (match d.toughness { Some(v) => v, None => 0 })
                    &&& q.keywords == d.keywords
                    &&& q.creature_types@ == d.creature_types@
                    &&& q.card_types@ == d.card_types@
                    &&& q.colors@ == d.color_identity@
                    &&& q.transformed == !p.transformed
                    &&& q == (Permanent {
                        card_name: q.card_name,
                        base_power: q.base_power,
                        base_toughness: q.base_toughness,
                        keywords: q.keywords,
                        creature_types: q.creature_types,
                        card_types: q.card_types,
                        colors: q.colors,
                        transformed: q.transformed,
                        ..p
                    })
                    &&& g1 == (GameState { battlefield: g1.battlefield, ..g0 })
                },
                None => g1 == g0,
            },
            None => g1 == g0,
        }
    }
}

impl GameState {
    /// Create a token for `controller` with the next object id; returns the id.
    pub fn create_token(
        &mut self,
        name: CardName,
        controller: PlayerId,
        power: i16,
        toughness: i16,
        keywords: Keywords,
        types: &[CardType],
    ) -> (token_id: ObjectId)
        requires
            old(self).next_object_id < u32::MAX,
        ensures
            token_id == old(self).next_object_id,
            token_made(*old(self), *final(self), name, controller, power, toughness, keywords, types@),
    {
        let token_id = self.new_object_id();
        let mut token = Permanent::new(token_id, name, controller, controller, Some(power), Some(toughness), None, keywords, types);
        token.is_token = true;
        proof {
            assert(token.counters.count(crate::types::CounterType::PlusOnePlusOne) == 0);
            assert(token.counters.count(crate::types::CounterType::MinusOneMinusOne) == 0);
            assert(token.counters.count(crate::types::CounterType::Lore) == 0);
            assert(token.counters.count(crate::types::CounterType::Burden) == 0);
            assert(token.counters.count(crate::types::CounterType::Charge) == 0);
            assert(token.counters.count(crate::types::CounterType::Stun) == 0);
        }
        self.battlefield.push(token);
        proof {
            assert(self.battlefield@.drop_last() =~= old(self).battlefield@);
        }
        token_id
    }

    /// The first definition whose back face is `name`.
    fn find_front_face(db: &[CardDef], name: CardName) -> (r: Option<CardName>)
        ensures
            ({
                let k = front_pos_from(db@, name, 0);
                r == (if k >= 0 { Some(db@[k].name) } else { None::<CardName> })
            }),
    {
        let mut i: usize = 0;
        while i < db.len()
            invariant
                i <= db@.len(),
                front_pos_from(db@, name, 0) == front_pos_from(db@, name, i as int),
            decreases db@.len() - i,
        {
            if db[i].back_face == Some(name) {
                return Some(db[i].name);
            }
            i = i + 1;
        }
        None
    }

    /// Turn a double-faced permanent to its other face: name, base power and toughness,
    /// keywords, types and colors come from that face's definition; id, counters, damage
    /// and controller stay.
    pub fn transform_permanent(&mut self, perm_id: ObjectId, db: &[CardDef])
        ensures
            transformed_perm(*old(self), *final(self), perm_id, db@),
    {
        proof { lemma_perm_pos(self.battlefield@, perm_id); }
        let (current_name, is_transformed) = match self.find_permanent(perm_id) {
            Some(p) => (p.card_name, p.transformed),
            None => return,
        };
        let target_name = if is_transformed {
            Self::find_front_face(db, current_name)
        } else {
            match find_card(db, current_name) {
                Some(def) => def.back_face,
                None => None,
            }
        };
        let target_name = match target_name {
            Some(n) => n,
            None => return,
        };
        match find_card(db, target_name) {
            Some(target_def) => {
                let power = match target_def.power { Some(v) => v, None => 0 };
                let toughness = match target_def.toughness { Some(v) => v, None => 0 };
                let keywords = target_def.keywords;
                let creature_types = vstd::slice::slice_to_vec(target_def.creature_types.as_slice());
                let card_types = vstd::slice::slice_to_vec(target_def.card_types.as_slice());
                let colors = vstd::slice::slice_to_vec(target_def.color_identity.as_slice());
                let i = match self.perm_index(perm_id) {
                    Some(i) => i,
                    None => return,
                };
                self.battlefield[i].card_name = target_name;
                self.battlefield[i].base_power = power;
                self.battlefield[i].base_toughness = toughness;
                self.battlefield[i].keywords = keywords;
                self.battlefield[i].creature_types = creature_types;
                self.battlefield[i].card_types = card_types;
                self.battlefield[i].colors = colors;
                self.battlefield[i].transformed = !is_transformed;
                proof {
                    let bf = old(self).battlefield@;
                    assert(self.battlefield@ =~= bf.update(i as int, self.battlefield@[i as int]));
                }
            },
            None => {},
        }
    }
}

} // verus!

verus! {

/// The card types of a creature token.
pub open spec fn just_creature() -> Seq<CardType> {
    seq![CardType::Creature]
}

/// The card types of an artifact creature token.
pub open spec fn artifact_creature() -> Seq<CardType> {
    seq![CardType::Creature, CardType::Artifact]
}

/// Whether a definition has a permanent card type.
pub open spec fn permanent_types(types: Seq<CardType>) -> bool {
    has_type(types, CardType::Creature) || has_type(types, CardType::Artifact) || has_type(types, CardType::Enchantment)
        || has_type(types, CardType::Planeswalker) || has_type(types, CardType::Land)
}

/// `p` is card `id` (`name`, definition `d`) entering for `owner`, with nothing changed yet.
pub open spec fn entering_card(p: Permanent, id: ObjectId, name: CardName, owner: PlayerId, d: CardDef) -> bool {
    &&& p.id == id
    &&& p.card_name == name
    &&& p.owner == owner
    &&& p.controller == owner
    &&& !p.is_token
    &&& p.entered_this_turn
    &&& p.damage == 0
    &&& p.base_power == (match d.power { Some(v) => v, None => 0 })
    &&& p.base_toughness == (match d.toughness { Some(v) => v, None => 0 })
    &&& p.loyalty == (match d.loyalty { Some(v) => v, None => 0 })
    &&& p.power_mod == 0
    &&& p.toughness_mod == 0
    &&& p.counters == crate::types::Counters { plus_one: 0, minus_one: 0, lore: 0, burden: 0, charge: 0, stun: 0 }
    &&& p.keywords == d.keywords
    &&& p.card_types@ == d.card_types@
    &&& p.attached_to is None
    &&& p.attachments@.len() == 0
}

/// Exile entries other than card `card_id`.
pub open spec fn exile_keep(card_id: ObjectId) -> spec_fn((ObjectId, CardName, PlayerId)) -> bool {
    |e: (ObjectId, CardName, PlayerId)| e.0 != card_id
}

/// A card exiled "until this leaves" comes back: out of exile, and onto the battlefield
/// under its owner's control when it is a known permanent card.
pub open spec fn linked_card_returned(g0: GameState, g1: GameState, card_id: ObjectId, owner: PlayerId, db: Seq<CardDef>) -> bool {
    let ex = g0.exile@.filter(exile_keep(card_id));
    let enters = match registered_name(g0.card_registry@, card_id) {
        Some(cn) => match lookup(db, cn) {
            Some(d) => permanent_types(d.card_types@),
            None => false,
        },
        None => false,
    };
    &&& g1.exile@ == ex
    &&& enters ==> g1.battlefield@.len() == g0.battlefield@.len() + 1 && g1.battlefield@.drop_last() == g0.battlefield@
        && entering_card(g1.battlefield@.last(), card_id, registered_name(g0.card_registry@, card_id)->0, owner,
            lookup(db, registered_name(g0.card_registry@, card_id)->0)->0)
        && !g1.battlefield@.last().tapped
    &&& !enters ==> g1.battlefield@ == g0.battlefield@
    &&& g1 == (GameState { exile: g1.exile, battlefield: g1.battlefield, ..g0 })
}

/// Whether Delver of Secrets `delver_id` flips: it is on the battlefield untransformed and
/// the top card of `controller`'s library is a known instant or sorcery.
pub open spec fn delver_flips(g: GameState, controller: PlayerId, delver_id: ObjectId, db: Seq<CardDef>) -> bool {
    let lib = g.players@[controller as int].library@;
    &&& exists|i: int| 0 <= i < g.battlefield@.len() && #[trigger] g.battlefield@[i].id == delver_id && !g.battlefield@[i].transformed
    &&& lib.len() > 0
    &&& match registered_name(g.card_registry@, lib.last()) {
        Some(cn) => match lookup(db, cn) {
            Some(d) => has_type(d.card_types@, CardType::Instant) || has_type(d.card_types@, CardType::Sorcery),
            None => false,
        },
        None => false,
    }
}

/// The stack item `id` taken off the stack and routed, whatever it is.
pub open spec fn removed_and_routed(g0: GameState, g1: GameState, id: ObjectId) -> bool {
    let s = g0.stack.items@;
    let i = item_pos(s, id);
    if i < 0 {
        g1 == g0
    } else {
        exists|gm: GameState| #[trigger] routed_zones(gm, g1, s[i]) && gm.stack.items@ == s.remove(i)
            && gm.stack.next_id == g0.stack.next_id && gm == (GameState { stack: gm.stack, ..g0 })
    }
}

/// Chalice of the Void's counter: a counterable spell is countered and routed; one that
/// can't be countered goes back on top of the stack with a new id.
pub open spec fn chalice_countered(g0: GameState, g1: GameState, id: ObjectId) -> bool {
    let s = g0.stack.items@;
    let i = item_pos(s, id);
    if i < 0 {
        g1 == g0
    } else if !s[i].cant_be_countered {
        removed_and_routed(g0, g1, id)
    } else {
        let it = s[i];
        &&& g1.stack.items@ == s.remove(i).push(StackItem {
            id: g0.stack.next_id,
            kind: it.kind,
            controller: it.controller,
            targets: it.targets,
            cant_be_countered: it.cant_be_countered,
            x_value: it.x_value,
            cast_from_graveyard: it.cast_from_graveyard,
            cast_as_adventure: false,
            modes: it.modes,
            is_copy: false,
        })
        &&& g1.stack.next_id == g0.stack.next_id.wrapping_add(1)
        &&& g1 == (GameState { stack: g1.stack, ..g0 })
    }
}

/// Nadu's trigger: the top card of `controller`'s library (when it is a known card) is
/// revealed; a land enters the battlefield tapped, anything else goes to the hand.
pub open spec fn nadu_revealed(g0: GameState, g1: GameState, controller: PlayerId, db: Seq<CardDef>) -> bool {
    let p0 = g0.players@[controller as int];
    let lib = p0.library@;
    if lib.len() == 0 || registered_name(g0.card_registry@, lib.last()) is None {
        g1 == g0
    } else {
        let card_id = lib.last();
        let cn = registered_name(g0.card_registry@, card_id)->0;
        let p1 = g1.players@[controller as int];
        match lookup(db, cn) {
            Some(d) => if has_type(d.card_types@, CardType::Land) {
                &&& p1.library@ == lib.drop_last()
                &&& g1.players@ == g0.players@.update(controller as int, crate::player::Player { library: p1.library, ..p0 })
                &&& g1.battlefield@.len() == g0.battlefield@.len() + 1
                &&& g1.battlefield@.drop_last() == g0.battlefield@
                &&& entering_card(g1.battlefield@.last(), card_id, cn, controller, d)
                &&& g1.battlefield@.last().tapped
                &&& g1.battlefield@.last().colors@ == d.color_identity@
                &&& g1 == (GameState { players: g1.players, battlefield: g1.battlefield, ..g0 })
            } else {
                &&& p1.library@ == lib.drop_last()
                &&& p1.hand@ == p0.hand@.push(card_id)
                &&& player_replaced(g0, g1, controller as int, crate::player::Player { library: p1.library, hand: p1.hand, ..p0 })
            },
            None => {
                &&& p1.library@ == lib.drop_last()
                &&& p1.hand@ == p0.hand@.push(card_id)
                &&& player_replaced(g0, g1, controller as int, crate::player::Player { library: p1.library, hand: p1.hand, ..p0 })
            },
        }
    }
}

/// What the triggered ability with `effect` does for `controller`.
pub open spec fn trigger_effect(g0: GameState, g1: GameState, effect: TriggeredEffect, controller: PlayerId, targets: Seq<Target>, db: Seq<CardDef>) -> bool {
    let first = first_target(targets);
    let c = controller as int;
    match effect {
        TriggeredEffect::ManaCryptUpkeep => g1 == (GameState {
            pending_choice: Some(PendingChoice { player: controller, kind: ChoiceKind::ChooseNumber { min: 0, max: 1, reason: ChoiceReason::CoinFlip } }),
            ..g0
        }),
        TriggeredEffect::DelverUpkeep { delver_id } => if delver_flips(g0, controller, delver_id, db) {
            transformed_perm(g0, g1, delver_id, db)
        } else {
            g1 == g0
        },
        TriggeredEffect::DealDamage(amount) => match first {
            Some(t) => damage_dealt(g0, g1, t, amount),
            None => g1 == g0,
        },
        TriggeredEffect::DrawCards(n) => drew(g0, g1, controller, n as nat),
        TriggeredEffect::GainLife(a) => life_changed(g0, g1, controller, a as int),
        TriggeredEffect::LoseLife(a) => life_changed(g0, g1, controller, -a),
        TriggeredEffect::SheoldredDraw => life_changed(g0, g1, controller, 2),
        TriggeredEffect::SheoldredOpponentDraw => life_changed(g0, g1, (1 - controller) as PlayerId, -2),
        TriggeredEffect::YoungPyromancerCast => token_made(g0, g1, CardName::Plains, controller, 1, 1, Keywords(0), just_creature()),
        TriggeredEffect::MonasteryMentorCast => token_made(g0, g1, CardName::Plains, controller, 1, 1,
            Keywords(keyword_bit(Keyword::Prowess)), just_creature()),
        TriggeredEffect::OrcishBowmastersOpponentDraw => exists|gm: GameState|
            #[trigger] token_made(gm, g1, CardName::Plains, controller, 1, 1, Keywords(0), just_creature()) && match first {
                Some(t) => damage_dealt(g0, gm, t, 1),
                None => gm == g0,
            },
        TriggeredEffect::WurmcoilDeath => exists|gm: GameState|
            #[trigger] token_made(g0, gm, CardName::Plains, controller, 3, 3, Keywords(keyword_bit(Keyword::Lifelink)),
                artifact_creature())
            && token_made(gm, g1, CardName::Plains, controller, 3, 3, Keywords(keyword_bit(Keyword::Deathtouch)),
                artifact_creature()),
        TriggeredEffect::SkullclampDeath => drew(g0, g1, controller, 2),
        TriggeredEffect::MyrRetrieverDeath => if g0.players@[c].graveyard@.len() == 0 {
            g1 == g0
        } else {
            choice_set(g0, g1, controller, g0.players@[c].graveyard@, ChoiceReason::MyrRetrieverReturn)
        },
        TriggeredEffect::GainControlOfPermanent => match first {
            Some(Target::Object(id)) => {
                let i = perm_pos(g0.battlefield@, id);
                &&& i == -1 ==> g1 == g0
                &&& i != -1 ==> g1.battlefield@ == g0.battlefield@.update(i, Permanent { controller, ..g0.battlefield@[i] })
                    && g1 == (GameState { battlefield: g1.battlefield, ..g0 })
            },
            _ => g1 == g0,
        },
        TriggeredEffect::EvokeSacrifice { permanent_id } => destroyed(g0, g1, permanent_id),
        TriggeredEffect::ExileLinkedReturn { card_id, card_owner } => linked_card_returned(g0, g1, card_id, card_owner, db),
        TriggeredEffect::SkyclaveApparitionLeaves { opponent, token_mv, .. } => if (token_mv as i16) > 0 {
            token_made(g0, g1, CardName::SkyclaveApparition, opponent, token_mv as i16, token_mv as i16, Keywords(0), just_creature())
        } else {
            g1 == g0
        },
        TriggeredEffect::MonarchEndStep | TriggeredEffect::MysticRemoraOpponentCast
        | TriggeredEffect::ScrawlingCrawlerCombatDamage | TriggeredEffect::ChromaticStarDeath
        | TriggeredEffect::DressDownETB => drew(g0, g1, controller, 1),
        TriggeredEffect::CovetedJewelETB => drew(g0, g1, controller, 3),
        TriggeredEffect::HarshMentorDamage { target_player } => life_changed(g0, g1, target_player, -2),
        TriggeredEffect::AvalancheDamage { target_player } => life_changed(g0, g1, target_player, -1),
        TriggeredEffect::MagebaneLizardDamage { target_player, damage } => life_changed(g0, g1, target_player, -(damage as int)),
        TriggeredEffect::GildedDrakeExchange { drake_id } => match first {
            Some(Target::Object(id)) => crate::game::trigger_more::exchanged(g0, g1, drake_id, id),
            _ => g1 == g0,
        },
        TriggeredEffect::OkoExchange => if targets.len() >= 2 && targets[0] is Object && targets[1] is Object {
            crate::game::trigger_more::exchanged(g0, g1, targets[0]->Object_0, targets[1]->Object_0)
        } else {
            g1 == g0
        },
        TriggeredEffect::SacrificeTarget { permanent_id } => crate::game::trigger_more::sacrificed_if(g0, g1, permanent_id, Some(controller)),
        TriggeredEffect::DressDownSacrifice { permanent_id } => crate::game::trigger_more::sacrificed_if(g0, g1, permanent_id, None),
        TriggeredEffect::TheOneRingETB { .. } => player_replaced(g0, g1, c, crate::player::Player {
            protection_from_everything: true,
            ..g0.players@[c]
        }),
        TriggeredEffect::RagavanCombatDamage => crate::game::effects::treasure_made(g0, g1, controller),
        TriggeredEffect::LeovoldTargetDraw => drew(g0, g1, controller, 1),
        TriggeredEffect::RazorkinNeedleheadOpponentDraw => life_changed(g0, g1, (1 - controller) as PlayerId, -1),
        TriggeredEffect::BonecrusherGiantTargeted { target_player } => life_changed(g0, g1, target_player, -2),
        TriggeredEffect::DarkConfidantUpkeep => crate::game::trigger_more::confidant(g0, g1, controller, db),
        TriggeredEffect::EmrakulCast => player_replaced(g0, g1, c, crate::player::Player {
            extra_turns: (g0.players@[c].extra_turns + 1) as u32,
            ..g0.players@[c]
        }),
        TriggeredEffect::CindervinesDamage { target_player } => life_changed(g0, g1, target_player, -1),
        TriggeredEffect::EidolonDamage { target_player } => life_changed(g0, g1, target_player, -2),
        TriggeredEffect::RoilingVortexFreeCast { target_player } => life_changed(g0, g1, target_player, -5),
        TriggeredEffect::LaviniaCounter { spell_id } => removed_and_routed(g0, g1, spell_id),
        TriggeredEffect::ChaliceCounter { spell_id } => chalice_countered(g0, g1, spell_id),
        TriggeredEffect::NaduTrigger => nadu_revealed(g0, g1, controller, db),
    }
}

/// What resolving a triggered ability needs of the state.
pub open spec fn trigger_ready(g: GameState, effect: TriggeredEffect, controller: PlayerId, targets: Seq<Target>, db: Seq<CardDef>) -> bool {
    &&& g.wf()
    &&& g.within(3)
    &&& controller < 2
    &&& crate::game::db_ok(db)
    &&& forall|i: int| 0 <= i < targets.len() ==> (#[trigger] targets[i] matches Target::Player(p) ==> p < 2)
    &&& crate::game::effects::stack_items_ok(g.stack.items@, 2)
    &&& trigger_bounds(effect, targets)
}

/// The players a triggered ability names are real, and its amounts fit the room one step
/// of play leaves: a life change of at most one step of life (`big_step`), damage to a
/// permanent of at most the per-step change of a permanent's damage, a token's size that
/// of a new permanent.
pub open spec fn trigger_bounds(effect: TriggeredEffect, targets: Seq<Target>) -> bool {
    match effect {
        TriggeredEffect::DealDamage(a) => first_target(targets) matches Some(Target::Object(_)) ==> a <= crate::game::stat_step(),
        TriggeredEffect::GainLife(a) => -crate::game::big_step() <= a <= crate::game::big_step(),
        TriggeredEffect::LoseLife(a) => -crate::game::big_step() <= a <= crate::game::big_step(),
        TriggeredEffect::SkyclaveApparitionLeaves { opponent, token_mv, .. } => token_mv <= crate::game::stat_step() && opponent < 2,
        TriggeredEffect::ExileLinkedReturn { card_owner, .. } => card_owner < 2,
        TriggeredEffect::CindervinesDamage { target_player } => target_player < 2,
        TriggeredEffect::EidolonDamage { target_player } => target_player < 2,
        TriggeredEffect::RoilingVortexFreeCast { target_player } => target_player < 2,
        TriggeredEffect::HarshMentorDamage { target_player } => target_player < 2,
        TriggeredEffect::BonecrusherGiantTargeted { target_player } => target_player < 2,
        TriggeredEffect::AvalancheDamage { target_player } => target_player < 2,
        TriggeredEffect::MagebaneLizardDamage { target_player, .. } => target_player < 2,
        _ => true,
    }
}

} // verus!

verus! {

/// Whether `effect` is handled by `resolve_trigger_simple`.
pub open spec fn is_simple_trigger(effect: TriggeredEffect) -> bool {
    match effect {
        TriggeredEffect::ManaCryptUpkeep | TriggeredEffect::DealDamage(_) | TriggeredEffect::DrawCards(_)
        | TriggeredEffect::GainLife(_) | TriggeredEffect::LoseLife(_) | TriggeredEffect::SheoldredDraw
        | TriggeredEffect::SheoldredOpponentDraw | TriggeredEffect::SkullclampDeath | TriggeredEffect::MyrRetrieverDeath
        | TriggeredEffect::GainControlOfPermanent | TriggeredEffect::EvokeSacrifice { .. } | TriggeredEffect::MonarchEndStep
        | TriggeredEffect::MysticRemoraOpponentCast | TriggeredEffect::EmrakulCast | TriggeredEffect::CindervinesDamage { .. }
        | TriggeredEffect::EidolonDamage { .. } | TriggeredEffect::RoilingVortexFreeCast { .. }
        | TriggeredEffect::ScrawlingCrawlerCombatDamage | TriggeredEffect::ChromaticStarDeath | TriggeredEffect::DressDownETB
        | TriggeredEffect::CovetedJewelETB | TriggeredEffect::HarshMentorDamage { .. } | TriggeredEffect::AvalancheDamage { .. }
        | TriggeredEffect::MagebaneLizardDamage { .. } => true,
        _ => false,
    }
}

/// Whether `effect` is handled by the simple dispatcher (executable form).
pub fn is_simple_trigger_exec(effect: TriggeredEffect) -> (r: bool)
    ensures
        r == is_simple_trigger(effect),
{
    match effect {
        TriggeredEffect::ManaCryptUpkeep | TriggeredEffect::DealDamage(_) | TriggeredEffect::DrawCards(_)
        | TriggeredEffect::GainLife(_) | TriggeredEffect::LoseLife(_) | TriggeredEffect::SheoldredDraw
        | TriggeredEffect::SheoldredOpponentDraw | TriggeredEffect::SkullclampDeath | TriggeredEffect::MyrRetrieverDeath
        | TriggeredEffect::GainControlOfPermanent | TriggeredEffect::EvokeSacrifice { .. } | TriggeredEffect::MonarchEndStep
        | TriggeredEffect::MysticRemoraOpponentCast | TriggeredEffect::EmrakulCast | TriggeredEffect::CindervinesDamage { .. }
        | TriggeredEffect::EidolonDamage { .. } | TriggeredEffect::RoilingVortexFreeCast { .. }
        | TriggeredEffect::ScrawlingCrawlerCombatDamage | TriggeredEffect::ChromaticStarDeath | TriggeredEffect::DressDownETB
        | TriggeredEffect::CovetedJewelETB | TriggeredEffect::HarshMentorDamage { .. } | TriggeredEffect::AvalancheDamage { .. }
        | TriggeredEffect::MagebaneLizardDamage { .. } => true,
        _ => false,
    }
}

impl GameState {
    /// Draw `n` cards for `controller` as one step.
    fn draw_step(&mut self, controller: PlayerId, n: usize)
        requires
            old(self).within(3),
            controller < old(self).players@.len(),
            n <= 255,
        ensures
            drew(*old(self), *final(self), controller, n as nat),
            final(self).within(2),
    {
        proof { assert(self.players@[controller as int].stats_within(3)); }
        self.draw_cards(controller, n);
        proof { crate::game::effects::lemma_drew_step(*old(self), *self, controller, n as nat, 3); }
    }

    /// Triggered abilities about life, cards, choices and control.
    pub(crate) fn resolve_trigger_simple(&mut self, effect: TriggeredEffect, controller: PlayerId, targets: &[Target], db: &[CardDef])
        requires
            trigger_ready(*old(self), effect, controller, targets@, db@),
            is_simple_trigger(effect),
        ensures
            trigger_effect(*old(self), *final(self), effect, controller, targets@, db@),
            final(self).wf(),
            final(self).within(1),
    {
        let ghost g0 = *self;
        let first: Option<Target> = if targets.len() > 0 { Some(targets[0]) } else { None };
        proof {
            crate::game::bounds::lemma_within_mono(g0, 3, 1);
            crate::game::bounds::lemma_within_mono(g0, 3, 0);
        }
        match effect {
            TriggeredEffect::ManaCryptUpkeep => {
                self.pending_choice = Some(PendingChoice {
                    player: controller,
                    kind: ChoiceKind::ChooseNumber { min: 0, max: 1, reason: ChoiceReason::CoinFlip },
                });
            },
            TriggeredEffect::DealDamage(amount) => {
                match first {
                    Some(t) => {
                        proof {
                            match t {
                                Target::Player(p) => {
                                    assert(targets@[0] matches Target::Player(q) ==> q < 2);
                                    assert(g0.players@[p as int].stats_within(3));
                                },
                                Target::Object(id) => {
                                    lemma_perm_pos(g0.battlefield@, id);
                                    if perm_pos(g0.battlefield@, id) >= 0 {
                                        assert(g0.battlefield@[perm_pos(g0.battlefield@, id)].stats_within(3, g0.battlefield@.len() as int));
                                        assert((amount as i16) == amount) by (bit_vector)
                                            requires amount <= 1000;
                                    }
                                },
                                Target::NoTarget => {},
                            }
                        }
                        self.deal_damage_to_target(t, amount, controller);
                        proof {
                            crate::game::effects::lemma_damage_step(g0, *self, t, amount, 3);
                            crate::game::bounds::lemma_within_mono(*self, 2, 1);
                        }
                    },
                    None => {},
                }
            },
            TriggeredEffect::DrawCards(n) => {
                self.draw_step(controller, n as usize);
                proof { crate::game::bounds::lemma_within_mono(*self, 2, 1); }
            },
            TriggeredEffect::SkullclampDeath => {
                self.draw_step(controller, 2);
                proof { crate::game::bounds::lemma_within_mono(*self, 2, 1); }
            },
            TriggeredEffect::MonarchEndStep | TriggeredEffect::MysticRemoraOpponentCast
            | TriggeredEffect::ScrawlingCrawlerCombatDamage | TriggeredEffect::ChromaticStarDeath
            | TriggeredEffect::DressDownETB => {
                self.draw_step(controller, 1);
                proof { crate::game::bounds::lemma_within_mono(*self, 2, 1); }
            },
            TriggeredEffect::CovetedJewelETB => {
                self.draw_step(controller, 3);
                proof { crate::game::bounds::lemma_within_mono(*self, 2, 1); }
            },
            TriggeredEffect::HarshMentorDamage { target_player } => {
                self.change_life(target_player, -2);
                proof { assert(g0.within(3)); crate::game::bounds::lemma_within_mono(*self, 2, 1); }
            },
            TriggeredEffect::AvalancheDamage { target_player } => {
                self.change_life(target_player, -1);
                proof { assert(g0.within(3)); crate::game::bounds::lemma_within_mono(*self, 2, 1); }
            },
            TriggeredEffect::MagebaneLizardDamage { target_player, damage } => {
                self.change_life(target_player, -(damage as i32));
                proof { assert(g0.within(3)); crate::game::bounds::lemma_within_mono(*self, 2, 1); }
            },
            TriggeredEffect::GainLife(a) => {
                self.change_life(controller, a);
                proof { assert(g0.within(3)); crate::game::bounds::lemma_within_mono(*self, 2, 1); }
            },
            TriggeredEffect::LoseLife(a) => {
                self.change_life(controller, -a);
                proof { assert(g0.within(3)); crate::game::bounds::lemma_within_mono(*self, 2, 1); }
            },
            TriggeredEffect::SheoldredDraw => {
                self.change_life(controller, 2);
                proof { assert(g0.within(3)); crate::game::bounds::lemma_within_mono(*self, 2, 1); }
            },
            TriggeredEffect::SheoldredOpponentDraw => {
                let opp = self.opponent(controller);
                self.change_life(opp, -2);
                proof { assert(g0.within(3)); crate::game::bounds::lemma_within_mono(*self, 2, 1); }
            },
            TriggeredEffect::CindervinesDamage { target_player } => {
                self.change_life(target_player, -1);
                proof { assert(g0.within(3)); crate::game::bounds::lemma_within_mono(*self, 2, 1); }
            },
            TriggeredEffect::EidolonDamage { target_player } => {
                self.change_life(target_player, -2);
                proof { assert(g0.within(3)); crate::game::bounds::lemma_within_mono(*self, 2, 1); }
            },
            TriggeredEffect::RoilingVortexFreeCast { target_player } => {
                self.change_life(target_player, -5);
                proof { assert(g0.within(3)); crate::game::bounds::lemma_within_mono(*self, 2, 1); }
            },
            TriggeredEffect::MyrRetrieverDeath => {
                let options = crate::player::copy_ids(&self.players[controller as usize].graveyard);
                if options.len() > 0 {
                    self.pending_choice = Some(PendingChoice {
                        player: controller,
                        kind: ChoiceKind::ChooseFromList { options, reason: ChoiceReason::MyrRetrieverReturn },
                    });
                }
            },
            TriggeredEffect::GainControlOfPermanent => {
                match first {
                    Some(Target::Object(id)) => {
                        self.gain_control(id, controller);
                        proof {
                            lemma_perm_pos(g0.battlefield@, id);
                            crate::game::bounds::lemma_within_mono(g0, 3, 1);
                            assert forall|i: int| 0 <= i < self.battlefield@.len() implies #[trigger] self.battlefield@[i].stats_within(1, self.battlefield@.len() as int) by {
                                assert(g0.battlefield@[i].stats_within(1, g0.battlefield@.len() as int));
                            }
                            assert forall|i: int| 0 <= i < self.battlefield@.len() implies (#[trigger] self.battlefield@[i]).owner < 2
                                && self.battlefield@[i].controller < 2 by {
                                assert(g0.battlefield@[i].owner < 2);
                            }
                        }
                    },
                    _ => {},
                }
            },
            TriggeredEffect::EvokeSacrifice { permanent_id } => {
                self.destroy_target(permanent_id);
                proof { assert(g0.within(1)); assert(self.within(1)); }
            },
            _ => {
                proof { assert(self.players@[controller as int].stats_within(3)); }
                let e = self.players[controller as usize].extra_turns + 1;
                self.players[controller as usize].extra_turns = e;
                proof {
                    let q = crate::player::Player { extra_turns: (g0.players@[controller as int].extra_turns + 1) as u32, ..g0.players@[controller as int] };
                    assert(self.players@ =~= g0.players@.update(controller as int, q));
                    crate::game::effects::lemma_player_step(g0, *self, controller as int, q, 3);
                    crate::game::bounds::lemma_within_mono(*self, 2, 1);
                }
            },
        }
    }
}

} // verus!

verus! {

/// A definition found in a database that meets `db_ok` has stats within `stat_step()`.
pub proof fn lemma_lookup_ok(db: Seq<CardDef>, name: CardName)
    requires
        crate::game::db_ok(db),
        lookup(db, name) is Some,
    ensures
        ({
            let d = lookup(db, name)->0;
            &&& d.power matches Some(v) ==> -crate::game::stat_step() <= v <= crate::game::stat_step()
            &&& d.toughness matches Some(v) ==> -crate::game::stat_step() <= v <= crate::game::stat_step()
            &&& d.loyalty matches Some(v) ==> -crate::game::stat_step() <= v <= crate::game::stat_step()
            &&& d.mana_cost.value() <= 253
        }),
{
    crate::card::lemma_def_pos_from(db, name, 0);
    let i = crate::card::def_pos(db, name);
    assert(db[i] == lookup(db, name)->0);
}

/// A card entering from a definition with stats within `stat_step()` is `fresh_small`.
pub proof fn lemma_entering_small(p: Permanent, id: ObjectId, name: CardName, owner: PlayerId, d: CardDef)
    requires
        entering_card(p, id, name, owner, d),
        d.power matches Some(v) ==> -crate::game::stat_step() <= v <= crate::game::stat_step(),
        d.toughness matches Some(v) ==> -crate::game::stat_step() <= v <= crate::game::stat_step(),
        d.loyalty matches Some(v) ==> -crate::game::stat_step() <= v <= crate::game::stat_step(),
    ensures
        fresh_small(p),
{
}

impl GameState {
    /// Put card `id` onto the battlefield for `owner` from its definition `def`.
    pub(crate) fn enter_card(&mut self, id: ObjectId, name: CardName, owner: PlayerId, def: &CardDef, tapped: bool)
        ensures
            final(self).battlefield@.len() == old(self).battlefield@.len() + 1,
            final(self).battlefield@.drop_last() == old(self).battlefield@,
            entering_card(final(self).battlefield@.last(), id, name, owner, *def),
            final(self).battlefield@.last().tapped == tapped,
            final(self).battlefield@.last().colors@ == (if tapped { def.color_identity@ } else { Seq::<crate::types::Color>::empty() }),
            *final(self) == (GameState { battlefield: final(self).battlefield, ..*old(self) }),
    {
        let mut perm = Permanent::new(id, name, owner, owner, def.power, def.toughness, def.loyalty, def.keywords, def.card_types.as_slice());
        if tapped {
            perm.colors = vstd::slice::slice_to_vec(def.color_identity.as_slice());
            perm.tapped = true;
        }
        proof {
            assert(perm.counters.count(crate::types::CounterType::PlusOnePlusOne) == 0);
            assert(perm.counters.count(crate::types::CounterType::MinusOneMinusOne) == 0);
            assert(perm.counters.count(crate::types::CounterType::Lore) == 0);
            assert(perm.counters.count(crate::types::CounterType::Burden) == 0);
            assert(perm.counters.count(crate::types::CounterType::Charge) == 0);
            assert(perm.counters.count(crate::types::CounterType::Stun) == 0);
            if !tapped { assert(perm.colors@ =~= Seq::<crate::types::Color>::empty()); }
        }
        self.battlefield.push(perm);
        proof { assert(self.battlefield@.drop_last() =~= old(self).battlefield@); }
    }

    /// A card exiled until a permanent left comes back (see `linked_card_returned`).
    fn return_linked_card(&mut self, card_id: ObjectId, card_owner: PlayerId, db: &[CardDef])
        ensures
            linked_card_returned(*old(self), *final(self), card_id, card_owner, db@),
    {
        let ghost f = exile_keep(card_id);
        let mut kept: Vec<(ObjectId, CardName, PlayerId)> = Vec::new();
        let mut i: usize = 0;
        while i < self.exile.len()
            invariant
                i <= self.exile@.len(),
                f == exile_keep(card_id),
                kept@ == self.exile@.subrange(0, i as int).filter(f),
            decreases self.exile@.len() - i,
        {
            let e = self.exile[i];
            proof {
                assert(self.exile@.subrange(0, i as int + 1) =~= self.exile@.subrange(0, i as int).push(e));
                self.exile@.subrange(0, i as int).lemma_filter_push(e, f);
            }
            if e.0 != card_id {
                kept.push(e);
            }
            i = i + 1;
        }
        proof { assert(self.exile@.subrange(0, i as int) =~= self.exile@); }
        self.exile = kept;
        let ghost gm = *self;
        match self.card_name_for_id(card_id) {
            Some(card_name) => match find_card(db, card_name) {
                Some(card_def) => {
                    let is_perm = types_contain(&card_def.card_types, CardType::Creature)
                        || types_contain(&card_def.card_types, CardType::Artifact)
                        || types_contain(&card_def.card_types, CardType::Enchantment)
                        || types_contain(&card_def.card_types, CardType::Planeswalker)
                        || types_contain(&card_def.card_types, CardType::Land);
                    if is_perm {
                        self.enter_card(card_id, card_name, card_owner, card_def, false);
                    }
                },
                None => {},
            },
            None => {},
        }
    }

    /// Nadu's trigger (see `nadu_revealed`).
    fn nadu_reveal(&mut self, controller: PlayerId, db: &[CardDef])
        requires
            controller < old(self).players@.len(),
        ensures
            nadu_revealed(*old(self), *final(self), controller, db@),
    {
        let pid = controller as usize;
        let top = match self.players[pid].library.last() {
            Some(id) => *id,
            None => return,
        };
        let cn = match self.card_name_for_id(top) {
            Some(n) => n,
            None => return,
        };
        let is_land = match find_card(db, cn) {
            Some(def) => types_contain(&def.card_types, CardType::Land),
            None => false,
        };
        self.players[pid].library.pop();
        let ghost ga = *self;
        proof {
            let p0 = old(self).players@[pid as int];
            assert(self.players@ =~= old(self).players@.update(pid as int, crate::player::Player { library: self.players@[pid as int].library, ..p0 }));
        }
        if is_land {
            match find_card(db, cn) {
                Some(def) => {
                    self.enter_card(top, cn, controller, def, true);
                },
                None => {},
            }
        } else {
            self.players[pid].hand.push(top);
            proof {
                let p0 = old(self).players@[pid as int];
                let p1 = self.players@[pid as int];
                assert(self.players@ =~= old(self).players@.update(pid as int, crate::player::Player { library: p1.library, hand: p1.hand, ..p0 }));
            }
        }
    }
}

} // verus!

verus! {

impl GameState {
    /// Make a small token as one step.
    fn token_step(&mut self, name: CardName, controller: PlayerId, power: i16, toughness: i16, keywords: Keywords, types: &[CardType])
        requires
            old(self).within(1),
            controller < 2,
            -crate::game::stat_step() <= power <= crate::game::stat_step(),
            -crate::game::stat_step() <= toughness <= crate::game::stat_step(),
        ensures
            token_made(*old(self), *final(self), name, controller, power, toughness, keywords, types@),
            forall|k: int| 1 <= k && #[trigger] old(self).within(k) ==> final(self).within(k - 1),
    {
        self.create_token(name, controller, power, toughness, keywords, types);
        proof {
            assert forall|k: int| 1 <= k && #[trigger] old(self).within(k) implies self.within(k - 1) by {
                lemma_new_permanent_step(*old(self), *self, k);
            }
        }
    }

    /// Triggered abilities that make tokens, transform, return cards or act on the stack.
    pub(crate) fn resolve_trigger_objects(&mut self, effect: TriggeredEffect, controller: PlayerId, targets: &[Target], db: &[CardDef])
        requires
            trigger_ready(*old(self), effect, controller, targets@, db@),
            !is_simple_trigger(effect),
            !crate::game::trigger_more::is_more_trigger(effect),
        ensures
            trigger_effect(*old(self), *final(self), effect, controller, targets@, db@),
            final(self).wf(),
            final(self).within(1),
    {
        let ghost g0 = *self;
        proof {
            crate::game::bounds::lemma_within_mono(g0, 3, 1);
            crate::game::bounds::lemma_within_mono(g0, 3, 0);
        }
        match effect {
            TriggeredEffect::YoungPyromancerCast => {
                let types = [CardType::Creature];
                self.token_step(CardName::Plains, controller, 1, 1, Keywords::empty(), &types);
                proof {
                    assert(types@ =~= just_creature());
                    assert(g0.within(3));
                    crate::game::bounds::lemma_within_mono(*self, 2, 1);
                }
            },
            TriggeredEffect::MonasteryMentorCast => {
                let types = [CardType::Creature];
                let mut kws = Keywords::empty();
                kws.add(Keyword::Prowess);
                proof { assert((0u32 | 1024u32) == 1024u32) by (bit_vector); }
                self.token_step(CardName::Plains, controller, 1, 1, kws, &types);
                proof {
                    assert(types@ =~= just_creature());
                    assert(kws == Keywords(keyword_bit(Keyword::Prowess)));
                    assert(g0.within(3));
                    crate::game::bounds::lemma_within_mono(*self, 2, 1);
                }
            },
            TriggeredEffect::WurmcoilDeath => {
                let types = [CardType::Creature, CardType::Artifact];
                let mut k1 = Keywords::empty();
                k1.add(Keyword::Lifelink);
                proof { assert((0u32 | 64u32) == 64u32) by (bit_vector); }
                self.token_step(CardName::Plains, controller, 3, 3, k1, &types);
                let ghost gm = *self;
                proof { assert(g0.within(3)); assert(gm.within(2)); crate::game::bounds::lemma_within_mono(gm, 2, 1); }
                let mut k2 = Keywords::empty();
                k2.add(Keyword::Deathtouch);
                proof { assert((0u32 | 128u32) == 128u32) by (bit_vector); }
                self.token_step(CardName::Plains, controller, 3, 3, k2, &types);
                proof {
                    assert(types@ =~= artifact_creature());
                    assert(k1 == Keywords(keyword_bit(Keyword::Lifelink)));
                    assert(k2 == Keywords(keyword_bit(Keyword::Deathtouch)));
                    assert(self.within(1));
                }
            },
            TriggeredEffect::OrcishBowmastersOpponentDraw => {
                if targets.len() > 0 {
                    let t = targets[0];
                    proof {
                        match t {
                            Target::Player(p) => {
                                assert(targets@[0] matches Target::Player(q) ==> q < 2);
                                assert(g0.players@[p as int].stats_within(3));
                            },
                            Target::Object(id) => {
                                lemma_perm_pos(g0.battlefield@, id);
                                if perm_pos(g0.battlefield@, id) >= 0 {
                                    assert(g0.battlefield@[perm_pos(g0.battlefield@, id)].stats_within(3, g0.battlefield@.len() as int));
                                    assert((1u16 as i16) == 1) by (bit_vector);
                                }
                            },
                            Target::NoTarget => {},
                        }
                    }
                    self.deal_damage_to_target(t, 1, controller);
                    proof { crate::game::effects::lemma_damage_step(g0, *self, t, 1, 3); }
                }
                let ghost gm = *self;
                proof {
                    if targets.len() == 0 { crate::game::bounds::lemma_within_mono(g0, 3, 2); }
                    assert(gm.within(2));
                    crate::game::bounds::lemma_within_mono(gm, 2, 1);
                }
                let types = [CardType::Creature];
                self.token_step(CardName::Plains, controller, 1, 1, Keywords::empty(), &types);
                proof {
                    assert(types@ =~= just_creature());
                    assert(self.within(1));
                }
            },
            TriggeredEffect::SkyclaveApparitionLeaves { opponent, token_mv, .. } => {
                let x = token_mv as i16;
                if x > 0 {
                    let types = [CardType::Creature];
                    proof {
                        assert(x == token_mv) by (bit_vector)
                            requires x == token_mv as i16, token_mv <= 1000;
                    }
                    self.token_step(CardName::SkyclaveApparition, opponent, x, x, Keywords::empty(), &types);
                    proof {
                        assert(types@ =~= just_creature());
                        assert(g0.within(3));
                        crate::game::bounds::lemma_within_mono(*self, 2, 1);
                    }
                }
            },
            TriggeredEffect::DelverUpkeep { delver_id } => {
                let ghost flips = delver_flips(g0, controller, delver_id, db@);
                let mut still_on_field = false;
                let mut i: usize = 0;
                while i < self.battlefield.len()
                    invariant
                        i <= self.battlefield@.len(),
                        still_on_field == exists|j: int| 0 <= j < i && #[trigger] self.battlefield@[j].id == delver_id
                            && !self.battlefield@[j].transformed,
                    decreases self.battlefield@.len() - i,
                {
                    if self.battlefield[i].id == delver_id && !self.battlefield[i].transformed {
                        still_on_field = true;
                    }
                    i = i + 1;
                }
                if still_on_field {
                    let top = match self.players[controller as usize].library.last() {
                        Some(id) => Some(*id),
                        None => None,
                    };
                    let is_spell = match top {
                        Some(top_id) => match self.card_name_for_id(top_id) {
                            Some(cn) => match find_card(db, cn) {
                                Some(def) => types_contain(&def.card_types, CardType::Instant)
                                    || types_contain(&def.card_types, CardType::Sorcery),
                                None => false,
                            },
                            None => false,
                        },
                        None => false,
                    };
                    if is_spell {
                        self.transform_permanent(delver_id, db);
                        proof {
                            lemma_transform_step(g0, *self, delver_id, db@);
                            crate::game::bounds::lemma_within_mono(*self, 2, 1);
                        }
                    }
                }
            },
            TriggeredEffect::ExileLinkedReturn { card_id, card_owner } => {
                self.return_linked_card(card_id, card_owner, db);
                proof {
                    let ex = g0.exile@.filter(exile_keep(card_id));
                    if self.battlefield@.len() == g0.battlefield@.len() {
                        assert(self.battlefield@ == g0.battlefield@);
                        crate::game::bounds::lemma_stats_kept(g0, *self, 1);
                    } else {
                        let cn = registered_name(g0.card_registry@, card_id)->0;
                        lemma_lookup_ok(db@, cn);
                        lemma_entering_small(self.battlefield@.last(), card_id, cn, card_owner, lookup(db@, cn)->0);
                        crate::game::bounds::lemma_within_mono(g0, 3, 2);
                        lemma_new_permanent_step(g0, *self, 2);
                    }
                }
            },
            TriggeredEffect::NaduTrigger => {
                self.nadu_reveal(controller, db);
                proof { lemma_nadu_step(g0, *self, controller, db@); }
            },
            TriggeredEffect::LaviniaCounter { spell_id } => {
                self.remove_and_route(spell_id);
                proof { crate::game::bounds::lemma_frame_kept(g0, *self); }
            },
            TriggeredEffect::ChaliceCounter { spell_id } => {
                self.chalice_counter(spell_id);
                proof { crate::game::bounds::lemma_frame_kept(g0, *self); }
            },
            _ => {},
        }
    }

    /// Take the stack item `spell_id` off the stack and route it, whatever it is.
    fn remove_and_route(&mut self, spell_id: ObjectId)
        requires
            crate::game::effects::stack_items_ok(old(self).stack.items@, 2),
            old(self).wf(),
        ensures
            removed_and_routed(*old(self), *final(self), spell_id),
            crate::game::bounds::stats_frame(*old(self), *final(self)),
    {
        proof { crate::stack::lemma_item_pos_from(self.stack.items@, spell_id, 0); }
        if self.stack.position(spell_id).is_none() {
            return;
        }
        match self.stack.remove(spell_id) {
            Some(item) => {
                let ghost gm = *self;
                self.route_countered_spell(item);
                proof {
                    let s0 = old(self).stack.items@;
                    let i = item_pos(s0, spell_id);
                    assert(item == s0[i]);
                    assert(routed_zones(gm, *self, s0[i]) && gm.stack.items@ == s0.remove(i)
                        && gm.stack.next_id == old(self).stack.next_id && gm == (GameState { stack: gm.stack, ..*old(self) }));
                }
            },
            None => {
                proof { assert(item_pos(old(self).stack.items@, spell_id) < 0); }
            },
        }
    }

    /// Chalice of the Void's counter (see `chalice_countered`).
    fn chalice_counter(&mut self, spell_id: ObjectId)
        requires
            crate::game::effects::stack_items_ok(old(self).stack.items@, 2),
            old(self).wf(),
        ensures
            chalice_countered(*old(self), *final(self), spell_id),
            crate::game::bounds::stats_frame(*old(self), *final(self)),
    {
        proof { crate::stack::lemma_item_pos_from(self.stack.items@, spell_id, 0); }
        let counterable = match self.stack.position(spell_id) {
            Some(i) => !self.stack.items[i].cant_be_countered,
            None => true,
        };
        if counterable {
            self.remove_and_route(spell_id);
        } else {
            match self.stack.remove(spell_id) {
                Some(item) => {
                    self.stack.push_with_flags(item.kind, item.controller, item.targets, item.cant_be_countered,
                        item.x_value, item.cast_from_graveyard, item.modes);
                },
                None => {},
            }
        }
    }
}

/// Transforming a permanent whose faces have stats within `stat_step()` uses up one step of room.
pub proof fn lemma_transform_step(g0: GameState, g1: GameState, id: ObjectId, db: Seq<CardDef>)
    requires
        g0.within(3),
        crate::game::db_ok(db),
        transformed_perm(g0, g1, id, db),
    ensures
        g1.within(2),
{
    let bf = g0.battlefield@;
    let i = perm_pos(bf, id);
    if i >= 0 {
        let p = bf[i];
        match other_face(db, p.card_name, p.transformed) {
            Some(target) => match lookup(db, target) {
                Some(d) => {
                    lemma_lookup_ok(db, target);
                    crate::game::lemma_perm_pos(bf, id);
                    assert(g1.battlefield@.len() == bf.len());
                    assert forall|j: int| 0 <= j < g1.battlefield@.len() implies fresh_small(#[trigger] g1.battlefield@[j])
                        || exists|t: int| 0 <= t < g0.battlefield@.len() && crate::game::bounds::perm_step(g1.battlefield@[j], #[trigger] g0.battlefield@[t]) by {
                        if j != i {
                            assert(g1.battlefield@[j] == bf[j]);
                        }
                        assert(crate::game::bounds::perm_step(g1.battlefield@[j], g0.battlefield@[j]));
                    }
                    assert forall|j: int| 0 <= j < g1.battlefield@.len() implies (#[trigger] g1.battlefield@[j]).owner < 2
                        && g1.battlefield@[j].controller < 2 by {
                        if j != i {
                            assert(g1.battlefield@[j] == bf[j]);
                        }
                        assert(g0.battlefield@[j].owner < 2);
                    }
                    assert forall|j: int| 0 <= j < g1.players@.len() implies crate::game::bounds::player_step(#[trigger] g1.players@[j], g0.players@[j]) by {}
                    crate::game::bounds::lemma_one_step(g0, g1, 3);
                },
                None => { crate::game::bounds::lemma_within_mono(g0, 3, 2); },
            },
            None => { crate::game::bounds::lemma_within_mono(g0, 3, 2); },
        }
    } else {
        crate::game::bounds::lemma_within_mono(g0, 3, 2);
    }
}

/// Nadu's reveal uses up at most one step of room.
pub proof fn lemma_nadu_step(g0: GameState, g1: GameState, controller: PlayerId, db: Seq<CardDef>)
    requires
        g0.within(3),
        g0.players@.len() == 2,
        controller < 2,
        crate::game::db_ok(db),
        nadu_revealed(g0, g1, controller, db),
    ensures
        g1.within(1),
{
    let p0 = g0.players@[controller as int];
    let lib = p0.library@;
    if lib.len() == 0 || registered_name(g0.card_registry@, lib.last()) is None {
        crate::game::bounds::lemma_within_mono(g0, 3, 1);
    } else {
        let cn0 = registered_name(g0.card_registry@, lib.last())->0;
        assert(g1.players@.len() == g0.players@.len());
        assert forall|i: int| 0 <= i < g1.players@.len() implies {
            &&& (#[trigger] g1.players@[i]).life == g0.players@[i].life
            &&& g1.players@[i].extra_turns == g0.players@[i].extra_turns
            &&& g1.players@[i].draws_this_turn == g0.players@[i].draws_this_turn
            &&& g1.players@[i].cards_discarded_this_turn == g0.players@[i].cards_discarded_this_turn
            &&& g1.players@[i].spells_cast_this_turn == g0.players@[i].spells_cast_this_turn
        } by {
            match lookup(db, cn0) {
                Some(d) => {
                    if has_type(d.card_types@, CardType::Land) {
                        assert(g1.players@ == g0.players@.update(controller as int, crate::player::Player { library: g1.players@[controller as int].library, ..p0 }));
                    }
                },
                None => {},
            }
        }
        assert(crate::game::same_player_stats(g1.players@, g0.players@));
        let cn = registered_name(g0.card_registry@, lib.last())->0;
        match lookup(db, cn) {
            Some(d) => if has_type(d.card_types@, CardType::Land) {
                lemma_lookup_ok(db, cn);
                lemma_entering_small(g1.battlefield@.last(), lib.last(), cn, controller, d);
                lemma_new_permanent_step(g0, g1, 3);
                crate::game::bounds::lemma_within_mono(g1, 2, 1);
            } else {
                crate::game::bounds::lemma_stats_kept(g0, g1, 3);
                crate::game::bounds::lemma_within_mono(g1, 3, 1);
            },
            None => {
                crate::game::bounds::lemma_stats_kept(g0, g1, 3);
                crate::game::bounds::lemma_within_mono(g1, 3, 1);
            },
        }
    }
}

} // verus!

verus! {

/// Transforming a front-face permanent twice turns it back to its front face: the front
/// face's name and definition stats, untransformed, and everything else as it was.
pub proof fn law_two_transforms_restore_the_front_face(g0: GameState, g1: GameState, g2: GameState, id: ObjectId, db: Seq<CardDef>)
    requires
        perm_pos(g0.battlefield@, id) >= 0,
        !g0.battlefield@[perm_pos(g0.battlefield@, id)].transformed,
        ({
            let front = g0.battlefield@[perm_pos(g0.battlefield@, id)].card_name;
            &&& lookup(db, front) matches Some(f) && f.back_face matches Some(back)
                && lookup(db, back) is Some
                && front_pos_from(db, back, 0) >= 0 && db[front_pos_from(db, back, 0)].name == front
        }),
        transformed_perm(g0, g1, id, db),
        transformed_perm(g1, g2, id, db),
    ensures
        ({
            let i = perm_pos(g0.battlefield@, id);
            let p = g0.battlefield@[i];
            let q = g2.battlefield@[i];
            let f = lookup(db, p.card_name)->0;
            &&& g2.battlefield@.len() == g0.battlefield@.len()
            &&& q.card_name == p.card_name
            &&& !q.transformed
            &&& q.base_power == (match f.power { Some(v) => v, None => 0 })
            &&& q.base_toughness == (match f.toughness { Some(v) => v, None => 0 })
            &&& q.keywords == f.keywords
            &&& q.card_types@ == f.card_types@
            &&& q == (Permanent {
                card_name: q.card_name,
                base_power: q.base_power,
                base_toughness: q.base_toughness,
                keywords: q.keywords,
                creature_types: q.creature_types,
                card_types: q.card_types,
                colors: q.colors,
                transformed: q.transformed,
                ..p
            })
            &&& forall|j: int| 0 <= j < g0.battlefield@.len() && j != i ==> g2.battlefield@[j] == g0.battlefield@[j]
        }),
{
    let bf0 = g0.battlefield@;
    let i = perm_pos(bf0, id);
    lemma_perm_pos(bf0, id);
    let p = bf0[i];
    let q1 = g1.battlefield@[i];
    crate::game::lemma_perm_pos_update(bf0, i, q1, id);
    assert(perm_pos(g1.battlefield@, id) == i);
    let f = lookup(db, p.card_name)->0;
    let back = f.back_face->0;
    assert(q1.card_name == back);
    assert(other_face(db, q1.card_name, q1.transformed) == Some(p.card_name));
}

} // verus!
