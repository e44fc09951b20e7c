//! Single game actions used by spells and abilities: damage, tokens, discards, draws.
use vstd::prelude::*;
use crate::card::{CardDef, CardName, find_card, lookup};
use crate::game::{ChoiceKind, ChoiceReason, DestinationZone, GameState, PendingChoice, perm_pos, lemma_perm_pos, registered_name, min2};
use crate::game::queries::{name_on_battlefield, dredgeable, first_dredgeable_from};
use crate::game::zones::{actual_destination, card_added};
use crate::mana::ManaCost;
use crate::permanent::Permanent;
use crate::player::Player;
use crate::types::{CardType, Keywords, ObjectId, PlayerId, Target};

verus! {

/// The ids of the permanents of `bf` controlled by `player`, in battlefield order.
pub open spec fn controlled_ids(bf: Seq<Permanent>, player: PlayerId) -> Seq<ObjectId> {
    bf.filter(|p: Permanent| p.controller == player).map_values(|p: Permanent| p.id)
}

/// A Treasure token with id `id` for `controller`, as it enters the battlefield.
pub open spec fn is_new_treasure(p: Permanent, id: ObjectId, controller: PlayerId) -> bool {
    &&& p.id == id
    &&& p.card_name == CardName::TreasureToken
    &&& p.owner == controller
    &&& p.controller == controller
    &&& p.is_token
    &&& !p.tapped
    &&& p.entered_this_turn
    &&& p.damage == 0
    &&& p.base_power == 0
    &&& p.base_toughness == 0
    &&& p.power_mod == 0
    &&& p.toughness_mod == 0
    &&& p.loyalty == 0
    &&& p.counters == crate::types::Counters { plus_one: 0, minus_one: 0, lore: 0, burden: 0, charge: 0, stun: 0 }
    &&& p.keywords == Keywords(0)
    &&& p.card_types@ == seq![CardType::Artifact]
    &&& p.attached_to is None
    &&& p.attachments@.len() == 0
}

/// The madness cost of card `id`, looked up by its registered name in `db`.
pub open spec fn madness_of(reg: Seq<(ObjectId, CardName)>, db: Seq<CardDef>, id: ObjectId) -> Option<ManaCost> {
    match registered_name(reg, id) {
        Some(name) => match lookup(db, name) {
            Some(d) => d.madness_cost,
            None => None,
        },
        None => None,
    }
}

/// The name a card is known by: its registered name, or Plains when it has none.
pub open spec fn name_or_plains(reg: Seq<(ObjectId, CardName)>, id: ObjectId) -> CardName {
    match registered_name(reg, id) {
        Some(n) => n,
        None => CardName::Plains,
    }
}

/// `g1` is `g0` after `owner` discarded card `id` (see `discard_card`): the card leaves
/// their hand (when it is there) and one more discard is counted; a card with madness goes
/// to exile with a choice to cast it, any other card to the graveyard (or exile under Rest
/// in Peace).
pub open spec fn discarded(g0: GameState, g1: GameState, card_id: ObjectId, owner: PlayerId, db: Seq<CardDef>) -> bool {
    let o = owner as int;
    let p0 = g0.players@[o];
    let counted = Player {
        cards_discarded_this_turn: (p0.cards_discarded_this_turn + 1) as u32,
        hand: g1.players@[o].hand,
        ..p0
    };
    let name = name_or_plains(g0.card_registry@, card_id);
    &&& g1.players@[o].hand@ == hand_without(p0.hand@, card_id)
    &&& match madness_of(g0.card_registry@, db, card_id) {
        Some(mc) => {
            &&& g1.players@ == g0.players@.update(o, counted)
            &&& g1.exile@ == g0.exile@.push((card_id, name, owner))
            &&& g1.madness_exiled@ == g0.madness_exiled@.push((card_id, owner))
            &&& g1.pending_choice == Some(PendingChoice {
                player: owner,
                kind: ChoiceKind::ChooseNumber { min: 0, max: 1, reason: ChoiceReason::MadnessCast { card_id, madness_cost: mc } },
            })
            &&& g1 == (GameState {
                players: g1.players,
                exile: g1.exile,
                madness_exiled: g1.madness_exiled,
                pending_choice: g1.pending_choice,
                ..g0
            })
        },
        None => {
            let fp = g1.players@[o];
            &&& actual_destination(DestinationZone::Graveyard, g0.battlefield@) == DestinationZone::Graveyard ==> {
                &&& fp.graveyard@ == p0.graveyard@.push(card_id)
                &&& g1.players@ == g0.players@.update(o, Player { graveyard: fp.graveyard, ..counted })
                &&& g1.exile@ == g0.exile@
            }
            &&& actual_destination(DestinationZone::Graveyard, g0.battlefield@) == DestinationZone::Exile ==> {
                &&& g1.players@ == g0.players@.update(o, counted)
                &&& g1.exile@ == g0.exile@.push((card_id, name, owner))
            }
            &&& g1 == (GameState { players: g1.players, exile: g1.exile, ..g0 })
        },
    }
}

/// `hand` without the first copy of card `id` (unchanged when it holds none).
pub open spec fn hand_without(hand: Seq<ObjectId>, id: ObjectId) -> Seq<ObjectId> {
    if hand.contains(id) { hand.remove(crate::player::first_index(hand, id)) } else { hand }
}

/// Every stack item is controlled by one of the `n` players.
pub open spec fn stack_items_ok(s: Seq<crate::stack::StackItem>, n: int) -> bool {
    forall|i: int| 0 <= i < s.len() ==> (#[trigger] s[i]).controller < n
}

/// `g1` is `g0` with player `p` replaced by `q`.
pub open spec fn player_replaced(g0: GameState, g1: GameState, p: int, q: Player) -> bool {
    &&& g1.players@ == g0.players@.update(p, q)
    &&& g1 == (GameState { players: g1.players, ..g0 })
}

/// Whether a draw limiter stops `player` from drawing a second card this turn: Spirit of
/// the Labyrinth, or an opponent's Narset, Parter of Veils or Leovold, Emissary of Trest.
pub open spec fn draw_limited(bf: Seq<Permanent>, player: PlayerId) -> bool {
    exists|i: int| 0 <= i < bf.len() && #[trigger] limits_draws(bf[i], player)
}

/// Whether permanent `p` limits `player` to one draw per turn.
pub open spec fn limits_draws(p: Permanent, player: PlayerId) -> bool {
    p.card_name == CardName::SpiritOfTheLabyrinth
        || (p.card_name == CardName::NarsetParterOfVeils && p.controller != player)
        || (p.card_name == CardName::LeovoldEmissaryOfTrest && p.controller != player)
}

/// One draw on (hand, library, draws this turn, has drawn this turn, has lost): the top
/// card moves to the hand, or with an empty library the player loses.
pub open spec fn draw_step(s: (Seq<ObjectId>, Seq<ObjectId>, int, bool, bool)) -> (Seq<ObjectId>, Seq<ObjectId>, int, bool, bool) {
    if s.1.len() > 0 {
        (s.0.push(s.1.last()), s.1.drop_last(), s.2 + 1, true, s.4)
    } else {
        (s.0, s.1, s.2, s.3, true)
    }
}

/// Drawing `count` cards: stops at a draw limiter once a card was drawn this turn, or at a
/// dredge replacement (returned with the draws that remain after it).
pub open spec fn draws_done(
    s: (Seq<ObjectId>, Seq<ObjectId>, int, bool, bool),
    gy: Seq<ObjectId>,
    reg: Seq<(ObjectId, CardName)>,
    limited: bool,
    count: nat,
) -> ((Seq<ObjectId>, Seq<ObjectId>, int, bool, bool), Option<(ObjectId, u8, nat)>)
    decreases count,
{
    if count == 0 {
        (s, None)
    } else if s.2 >= 1 && limited {
        (s, None)
    } else {
        match first_dredgeable_from(reg, gy, s.1.len() as int, 0) {
            Some((c, n)) => (s, Some((c, n, (count - 1) as nat))),
            None => draws_done(draw_step(s), gy, reg, limited, (count - 1) as nat),
        }
    }
}

/// `g1` is `g0` after `player` drew `count` cards (see `draws_done`): their hand, library,
/// draw count and loss flag follow the draws, and a dredge replacement leaves a choice.
pub open spec fn drew(g0: GameState, g1: GameState, player: PlayerId, count: nat) -> bool {
    let p0 = g0.players@[player as int];
    let res = draws_done(draw_state(p0), p0.graveyard@, g0.card_registry@, draw_limited(g0.battlefield@, player), count);
    let p1 = g1.players@[player as int];
    &&& draw_state(p1) == res.0
    &&& g1.players@ == g0.players@.update(player as int, Player {
        hand: p1.hand,
        library: p1.library,
        draws_this_turn: p1.draws_this_turn,
        has_drawn_this_turn: p1.has_drawn_this_turn,
        has_lost: p1.has_lost,
        ..p0
    })
    &&& match res.1 {
        Some((c, n, r)) => g1.pending_choice == Some(PendingChoice {
            player,
            kind: ChoiceKind::ChooseNumber {
                min: 0,
                max: 1,
                reason: ChoiceReason::DredgeChoice { dredge_card_id: c, dredge_n: n, remaining_draws: r as usize },
            },
        }),
        None => g1.pending_choice == g0.pending_choice,
    }
    &&& g1 == (GameState { players: g1.players, pending_choice: g1.pending_choice, ..g0 })
}

/// `g1` is `g0` after a Treasure token for `controller` entered with the next object id.
pub open spec fn treasure_made(g0: GameState, g1: GameState, controller: PlayerId) -> bool {
    &&& g1.next_object_id == g0.next_object_id + 1
    &&& g1.battlefield@.len() == g0.battlefield@.len() + 1
    &&& g1.battlefield@.drop_last() == g0.battlefield@
    &&& is_new_treasure(g1.battlefield@.last(), g0.next_object_id, controller)
    &&& g1 == (GameState { battlefield: g1.battlefield, next_object_id: g1.next_object_id, ..g0 })
}

/// `g1` is `g0` after `player` surveilled `count` (see `surveil`).
pub open spec fn surveiled(g0: GameState, g1: GameState, player: PlayerId, count: u8, draw_after: bool) -> bool {
    &&& count > 0 && g0.players@[player as int].library@.len() > 0 ==>
        g1 == (GameState {
            pending_choice: Some(PendingChoice {
                player,
                kind: ChoiceKind::ChooseNumber { min: 0, max: 1, reason: ChoiceReason::SurveilCard { draw_after } },
            }),
            ..g0
        })
    &&& (count == 0 || g0.players@[player as int].library@.len() == 0) && !draw_after ==> g1 == g0
    &&& (count == 0 || g0.players@[player as int].library@.len() == 0) && draw_after ==> drew(g0, g1, player, 1)
}

/// The draw-relevant part of a player.
pub open spec fn draw_state(p: Player) -> (Seq<ObjectId>, Seq<ObjectId>, int, bool, bool) {
    (p.hand@, p.library@, p.draws_this_turn as int, p.has_drawn_this_turn, p.has_lost)
}

/// Dealing `amount` damage to `target` in `g` stays within the number types.
pub open spec fn damage_fits(g: GameState, target: Target, amount: u16) -> bool {
    &&& target matches Target::Player(p) ==> p < g.players@.len()
        && (g.players@[p as int].protection_from_everything || g.players@[p as int].life - amount >= i32::MIN)
    &&& target matches Target::Object(id) ==> (perm_pos(g.battlefield@, id) >= 0 ==>
        i16::MIN <= g.battlefield@[perm_pos(g.battlefield@, id)].damage + (amount as i16) <= i16::MAX)
}

/// `g1` is `g0` after `amount` damage to `target`: a player without protection from
/// everything loses that much life; a permanent on the battlefield marks that much damage.
pub open spec fn damage_dealt(g0: GameState, g1: GameState, target: Target, amount: u16) -> bool {
    match target {
        Target::Player(p) => if g0.players@[p as int].protection_from_everything {
            g1 == g0
        } else {
            player_replaced(g0, g1, p as int, Player { life: (g0.players@[p as int].life - amount) as i32, ..g0.players@[p as int] })
        },
        Target::Object(id) => {
            let bf = g0.battlefield@;
            let i = perm_pos(bf, id);
            &&& i < 0 ==> g1 == g0
            &&& i >= 0 ==> g1.battlefield@ == bf.update(i, Permanent { damage: (bf[i].damage + (amount as i16)) as i16, ..bf[i] })
            &&& g1 == (GameState { battlefield: g1.battlefield, ..g0 })
        },
        Target::NoTarget => g1 == g0,
    }
}

impl GameState {
    /// Deal `amount` damage to a target: a player loses that much life unless they have
    /// protection from everything; a permanent on the battlefield marks that much damage.
    pub fn deal_damage_to_target(&mut self, target: Target, amount: u16, _source_controller: PlayerId)
        requires
            damage_fits(*old(self), target, amount),
        ensures
            damage_dealt(*old(self), *final(self), target, amount),
    {
        match target {
            Target::Player(p) => {
                if self.players[p as usize].protection_from_everything {
                    return;
                }
                let life = self.players[p as usize].life - amount as i32;
                self.players[p as usize].life = life;
                proof {
                    assert(self.players@ =~= old(self).players@.update(p as int,
                        Player { life: (old(self).players@[p as int].life - amount) as i32, ..old(self).players@[p as int] }));
                }
            },
            Target::Object(id) => {
                proof { lemma_perm_pos(self.battlefield@, id); }
                if let Some(i) = self.perm_index(id) {
                    let d = self.battlefield[i].damage + amount as i16;
                    self.battlefield[i].damage = d;
                    proof {
                        let bf = old(self).battlefield@;
                        assert(self.battlefield@ =~= bf.update(i as int, Permanent { damage: (bf[i as int].damage + (amount as i16)) as i16, ..bf[i as int] }));
                    }
                }
            },
            Target::NoTarget => {},
        }
    }

    /// Create a Treasure token controlled by `controller` on the battlefield; returns its id.
    pub fn create_treasure_token(&mut self, controller: PlayerId) -> (token_id: ObjectId)
        requires
            old(self).next_object_id < u32::MAX,
        ensures
            token_id == old(self).next_object_id,
            treasure_made(*old(self), *final(self), controller),
    {
        let token_id = self.new_object_id();
        let types = [CardType::Artifact];
        let mut token = Permanent::new(
            token_id,
            CardName::TreasureToken,
            controller,
            controller,
            None,
            None,
            None,
            Keywords::empty(),
            &types,
        );
        token.is_token = true;
        proof {
            assert(token.card_types@ =~= seq![CardType::Artifact]);
            assert(token.counters.count(crate::types::CounterType::PlusOnePlusOne) == 0);
            assert(token.counters.count(crate::types::CounterType::MinusOneMinusOne) == 0);
            assert(token.counters.count(crate::types::CounterType::Lore) == 0);
            assert(token.counters.count(crate::types::CounterType::Burden) == 0);
            assert(token.counters.count(crate::types::CounterType::Charge) == 0);
            assert(token.counters.count(crate::types::CounterType::Stun) == 0);
        }
        self.battlefield.push(token);
        proof {
            assert(self.battlefield@.drop_last() =~= old(self).battlefield@);
        }
        token_id
    }

    /// Annihilator `n` against `defending_player`: unless `n` is 0 or they control no
    /// permanent, they must choose one of their permanents to sacrifice, with `n - 1` more
    /// sacrifices to follow.
    pub fn trigger_annihilator(&mut self, defending_player: PlayerId, n: u8)
        ensures
            n == 0 || controlled_ids(old(self).battlefield@, defending_player).len() == 0 ==> *final(self) == *old(self),
            n > 0 && controlled_ids(old(self).battlefield@, defending_player).len() > 0 ==> {
                &&& final(self).pending_choice matches Some(pc)
                &&& pc.player == defending_player
                &&& pc.kind matches ChoiceKind::ChooseFromList { options, reason }
                &&& options@ == controlled_ids(old(self).battlefield@, defending_player)
                &&& reason == ChoiceReason::AnnihilatorSacrifice { remaining: (n - 1) as u8 }
                &&& *final(self) == (GameState { pending_choice: final(self).pending_choice, ..*old(self) })
            },
    {
        if n == 0 {
            return;
        }
        let ghost f = |p: Permanent| p.controller == defending_player;
        let ghost m = |p: Permanent| p.id;
        let mut permanents: Vec<ObjectId> = Vec::new();
        let mut i: usize = 0;
        while i < self.battlefield.len()
            invariant
                i <= self.battlefield@.len(),
                f == (|p: Permanent| p.controller == defending_player),
                m == (|p: Permanent| p.id),
                permanents@ == self.battlefield@.subrange(0, i as int).filter(f).map_values(m),
            decreases self.battlefield@.len() - i,
        {
            let p = &self.battlefield[i];
            proof {
                assert(self.battlefield@.subrange(0, i as int + 1) =~= self.battlefield@.subrange(0, i as int).push(*p));
                self.battlefield@.subrange(0, i as int).lemma_filter_push(*p, f);
            }
            if p.controller == defending_player {
                permanents.push(p.id);
                proof {
                    let s = self.battlefield@.subrange(0, i as int).filter(f);
                    assert(s.push(*p).map_values(m) =~= s.map_values(m).push(p.id));
                }
            }
            i = i + 1;
        }
        proof {
            assert(self.battlefield@.subrange(0, i as int) =~= self.battlefield@);
        }
        if permanents.len() == 0 {
            return;
        }
        self.pending_choice = Some(PendingChoice {
            player: defending_player,
            kind: ChoiceKind::ChooseFromList {
                options: permanents,
                reason: ChoiceReason::AnnihilatorSacrifice { remaining: n - 1 },
            },
        });
    }

    /// Put a card from any zone into its owner's graveyard, or exile while Rest in Peace is
    /// on the battlefield; returns where it went.
    pub fn send_to_graveyard(&mut self, card_id: ObjectId, card_name: CardName, owner: PlayerId) -> (dest: DestinationZone)
        requires
            owner < old(self).players@.len(),
        ensures
            dest == actual_destination(DestinationZone::Graveyard, old(self).battlefield@),
            card_added(*old(self), *final(self), card_id, card_name, owner, dest),
            *final(self) == (GameState { players: final(self).players, exile: final(self).exile, ..*old(self) }),
    {
        let dest = self.graveyard_destination(owner);
        match dest {
            DestinationZone::Exile => {
                self.exile.push((card_id, card_name, owner));
            },
            _ => {
                self.players[owner as usize].graveyard.push(card_id);
                proof {
                    let o = owner as int;
                    assert(self.players@ =~= old(self).players@.update(o, Player { graveyard: self.players@[o].graveyard, ..old(self).players@[o] }));
                }
            },
        }
        dest
    }

    /// Discard a card from `owner`'s hand. The discard is counted; a card with madness is
    /// exiled and its owner is asked whether to cast it for its madness cost (0) or put it
    /// into the graveyard (1); any other card goes to the graveyard (or exile under Rest in
    /// Peace).
    pub fn discard_card(&mut self, card_id: ObjectId, owner: PlayerId, db: &[CardDef])
        requires
            owner < old(self).players@.len(),
            old(self).players@[owner as int].cards_discarded_this_turn < u32::MAX,
        ensures
            discarded(*old(self), *final(self), card_id, owner, db@),
    {
        let o = owner as usize;
        let c = self.players[o].cards_discarded_this_turn + 1;
        self.players[o].cards_discarded_this_turn = c;
        let mut hand = crate::player::copy_ids(&self.players[o].hand);
        match crate::player::position_of(&hand, card_id) {
            Some(pos) => { hand.remove(pos); },
            None => {},
        }
        self.players[o].hand = hand;
        let ghost g1 = *self;
        let madness = match self.card_name_for_id(card_id) {
            Some(cn) => match find_card(db, cn) {
                Some(def) => def.madness_cost,
                None => None,
            },
            None => None,
        };
        let card_name = match self.card_name_for_id(card_id) {
            Some(n) => n,
            None => CardName::Plains,
        };
        match madness {
            Some(madness_cost) => {
                self.exile.push((card_id, card_name, owner));
                self.madness_exiled.push((card_id, owner));
                self.pending_choice = Some(PendingChoice {
                    player: owner,
                    kind: ChoiceKind::ChooseNumber {
                        min: 0,
                        max: 1,
                        reason: ChoiceReason::MadnessCast { card_id, madness_cost },
                    },
                });
                proof {
                    assert(self.players@ =~= old(self).players@.update(owner as int,
                        Player { cards_discarded_this_turn: (old(self).players@[owner as int].cards_discarded_this_turn + 1) as u32,
                            hand: self.players@[owner as int].hand, ..old(self).players@[owner as int] }));
                }
            },
            None => {
                self.send_to_graveyard(card_id, card_name, owner);
                proof {
                    let o = owner as int;
                    let p0 = old(self).players@[o];
                    let counted = Player { cards_discarded_this_turn: (p0.cards_discarded_this_turn + 1) as u32, hand: self.players@[o].hand, ..p0 };
                    assert(g1.players@ =~= old(self).players@.update(o, counted));
                    if self.players@ != g1.players@ {
                        assert(self.players@ =~= old(self).players@.update(o, Player { graveyard: self.players@[o].graveyard, ..counted }));
                    }
                }
            },
        }
    }

    /// Whether a draw limiter on the battlefield applies to `player`.
    fn draws_limited_for(&self, player: PlayerId) -> (r: bool)
        ensures
            r == draw_limited(self.battlefield@, player),
    {
        let mut i: usize = 0;
        while i < self.battlefield.len()
            invariant
                i <= self.battlefield@.len(),
                forall|j: int| 0 <= j < i ==> !limits_draws(#[trigger] self.battlefield@[j], player),
            decreases self.battlefield@.len() - i,
        {
            let name = self.battlefield[i].card_name;
            let other = self.battlefield[i].controller != player;
            if name == CardName::SpiritOfTheLabyrinth || (name == CardName::NarsetParterOfVeils && other)
                || (name == CardName::LeovoldEmissaryOfTrest && other) {
                proof { assert(limits_draws(self.battlefield@[i as int], player)); }
                return true;
            }
            i = i + 1;
        }
        false
    }

    /// Draw `count` cards for `player`, one at a time. After a first draw this turn a draw
    /// limiter stops the rest; a dredgeable card in the graveyard stops the draws at a
    /// choice (dredge or draw) that remembers the draws still to come; drawing from an
    /// empty library makes the player lose.
    pub fn draw_cards(&mut self, player: PlayerId, count: usize)
        requires
            player < old(self).players@.len(),
            old(self).players@[player as int].draws_this_turn
                + min2(count as int, old(self).players@[player as int].library@.len() as int) <= u32::MAX,
        ensures
            drew(*old(self), *final(self), player, count as nat),
    {
        let pid = player as usize;
        let ghost p0 = self.players@[pid as int];
        let ghost limited = draw_limited(self.battlefield@, player);
        let ghost total = draws_done(draw_state(p0), p0.graveyard@, self.card_registry@, limited, count as nat);
        let mut left: usize = count;
        while left > 0
            invariant
                pid == player,
                pid < self.players@.len(),
                pid < old(self).players@.len(),
                total == draws_done(draw_state(p0), p0.graveyard@, old(self).card_registry@,
                    draw_limited(old(self).battlefield@, player), count as nat),
                left <= count,
                limited == draw_limited(self.battlefield@, player),
                self.battlefield@ == old(self).battlefield@,
                self.card_registry@ == old(self).card_registry@,
                self.players@[pid as int].graveyard@ == p0.graveyard@,
                self.players@[pid as int].library@.len() <= p0.library@.len(),
                self.players@[pid as int].draws_this_turn - p0.draws_this_turn
                    == p0.library@.len() - self.players@[pid as int].library@.len(),
                self.players@[pid as int].draws_this_turn - p0.draws_this_turn <= count - left,
                p0.draws_this_turn + min2(count as int, p0.library@.len() as int) <= u32::MAX,
                draws_done(draw_state(self.players@[pid as int]), p0.graveyard@, self.card_registry@, limited, left as nat) == total,
                self.players@ == old(self).players@.update(pid as int, Player {
                    hand: self.players@[pid as int].hand,
                    library: self.players@[pid as int].library,
                    draws_this_turn: self.players@[pid as int].draws_this_turn,
                    has_drawn_this_turn: self.players@[pid as int].has_drawn_this_turn,
                    has_lost: self.players@[pid as int].has_lost,
                    ..p0
                }),
                p0 == old(self).players@[pid as int],
                *self == (GameState { players: self.players, ..*old(self) }),
            decreases left,
        {
            let remaining = left - 1;
            if self.players[pid].draws_this_turn >= 1 {
                if self.draws_limited_for(player) {
                    proof {
                        let cur = draw_state(self.players@[pid as int]);
                        assert(cur.2 >= 1);
                        assert(draws_done(cur, p0.graveyard@, self.card_registry@, limited, left as nat) == (cur, None::<(ObjectId, u8, nat)>));
                    }
                    return;
                }
            }
            if let Some((dredge_card_id, dredge_n)) = self.find_dredgeable(player) {
                self.pending_choice = Some(PendingChoice {
                    player,
                    kind: ChoiceKind::ChooseNumber {
                        min: 0,
                        max: 1,
                        reason: ChoiceReason::DredgeChoice { dredge_card_id, dredge_n, remaining_draws: remaining },
                    },
                });
                proof {
                    let cur = draw_state(self.players@[pid as int]);
                    assert(first_dredgeable_from(self.card_registry@, p0.graveyard@, cur.1.len() as int, 0) == Some((dredge_card_id, dredge_n)));
                    assert(draws_done(cur, p0.graveyard@, self.card_registry@, limited, left as nat) == (cur, Some((dredge_card_id, dredge_n, remaining as nat))));
                }
                return;
            }
            let ghost before = self.players@[pid as int];
            let ghost pb = self.players@;
            proof {
                assert(before == Player {
                    hand: before.hand,
                    library: before.library,
                    draws_this_turn: before.draws_this_turn,
                    has_drawn_this_turn: before.has_drawn_this_turn,
                    has_lost: before.has_lost,
                    ..p0
                });
                assert(pb == old(self).players@.update(pid as int, before));
            }
            match self.players[pid].library.pop() {
                Some(id) => {
                    self.players[pid].hand.push(id);
                    let d = self.players[pid].draws_this_turn + 1;
                    self.players[pid].draws_this_turn = d;
                    self.players[pid].has_drawn_this_turn = true;
                },
                None => {
                    self.players[pid].has_lost = true;
                },
            }
            proof {
                assert(draw_state(self.players@[pid as int]) == draw_step(draw_state(before)));
                let cur = self.players@[pid as int];
                assert(self.players@ =~= pb.update(pid as int, Player {
                    hand: cur.hand,
                    library: cur.library,
                    draws_this_turn: cur.draws_this_turn,
                    has_drawn_this_turn: cur.has_drawn_this_turn,
                    has_lost: cur.has_lost,
                    ..before
                }));
                assert(self.players@ =~= old(self).players@.update(pid as int, Player {
                    hand: self.players@[pid as int].hand,
                    library: self.players@[pid as int].library,
                    draws_this_turn: self.players@[pid as int].draws_this_turn,
                    has_drawn_this_turn: self.players@[pid as int].has_drawn_this_turn,
                    has_lost: self.players@[pid as int].has_lost,
                    ..p0
                }));
            }
            left = remaining;
        }
    }

    /// Surveil: with a card to look at, the player decides whether the top card of their
    /// library stays (0) or goes to the graveyard (1), drawing afterwards if `draw_after`;
    /// with nothing to surveil, only the draw happens.
    pub fn surveil(&mut self, player: PlayerId, count: u8, draw_after: bool)
        requires
            player < old(self).players@.len(),
            old(self).players@[player as int].draws_this_turn < u32::MAX,
        ensures
            surveiled(*old(self), *final(self), player, count, draw_after),
    {
        if count == 0 || self.players[player as usize].library.len() == 0 {
            if draw_after {
                self.draw_cards(player, 1);
            }
            return;
        }
        self.pending_choice = Some(PendingChoice {
            player,
            kind: ChoiceKind::ChooseNumber {
                min: 0,
                max: 1,
                reason: ChoiceReason::SurveilCard { draw_after },
            },
        });
    }
}

} // verus!

verus! {

/// Drawing `count` cards adds at most `count` to the draw count.
pub proof fn lemma_draws_done_bound(
    s: (Seq<ObjectId>, Seq<ObjectId>, int, bool, bool),
    gy: Seq<ObjectId>,
    reg: Seq<(ObjectId, CardName)>,
    limited: bool,
    count: nat,
)
    ensures
        s.2 <= draws_done(s, gy, reg, limited, count).0.2 <= s.2 + count,
    decreases count,
{
    if count > 0 && !(s.2 >= 1 && limited) && first_dredgeable_from(reg, gy, s.1.len() as int, 0) is None {
        lemma_draws_done_bound(draw_step(s), gy, reg, limited, (count - 1) as nat);
    }
}

/// Drawing at most a step's worth of cards uses up one step of room.
pub proof fn lemma_drew_step(g0: GameState, g1: GameState, player: PlayerId, count: nat, k: int)
    requires
        1 <= k,
        g0.within(k),
        player < g0.players@.len(),
        count <= crate::game::big_step(),
        drew(g0, g1, player, count),
    ensures
        g1.within(k - 1),
{
    let p0 = g0.players@[player as int];
    lemma_draws_done_bound(draw_state(p0), p0.graveyard@, g0.card_registry@, draw_limited(g0.battlefield@, player), count);
    crate::game::bounds::lemma_same_battlefield_step(g0, g1);
    assert forall|i: int| 0 <= i < g1.players@.len() implies crate::game::bounds::player_step(#[trigger] g1.players@[i], g0.players@[i]) by {}
    crate::game::bounds::lemma_one_step(g0, g1, k);
}

/// Changing one player's life by at most a step (and nothing else but that player's
/// non-counted fields) uses up one step of room.
pub proof fn lemma_player_step(g0: GameState, g1: GameState, p: int, q: Player, k: int)
    requires
        1 <= k,
        g0.within(k),
        0 <= p < g0.players@.len(),
        player_replaced(g0, g1, p, q),
        crate::game::bounds::player_step(q, g0.players@[p]),
    ensures
        g1.within(k - 1),
{
    crate::game::bounds::lemma_same_battlefield_step(g0, g1);
    assert forall|i: int| 0 <= i < g1.players@.len() implies crate::game::bounds::player_step(#[trigger] g1.players@[i], g0.players@[i]) by {}
    crate::game::bounds::lemma_one_step(g0, g1, k);
}

} // verus!

verus! {

/// Dealing damage (to a permanent, at most `stat_step()` of it) uses up one step of room.
pub proof fn lemma_damage_step(g0: GameState, g1: GameState, target: Target, amount: u16, k: int)
    requires
        1 <= k,
        g0.within(k),
        g0.players@.len() == 2,
        damage_fits(g0, target, amount),
        damage_dealt(g0, g1, target, amount),
        target is Object ==> amount <= crate::game::stat_step(),
    ensures
        g1.within(k - 1),
{
    crate::game::bounds::lemma_within_mono(g0, k, k - 1);
    match target {
        Target::Player(p) => {
            if !g0.players@[p as int].protection_from_everything {
                lemma_player_step(g0, g1, p as int, Player { life: (g0.players@[p as int].life - amount) as i32, ..g0.players@[p as int] }, k);
            }
        },
        Target::Object(id) => {
            let bf = g0.battlefield@;
            let i = perm_pos(bf, id);
            if i >= 0 {
                lemma_perm_pos(bf, id);
                assert((amount as i16) == amount) by (bit_vector)
                    requires amount <= 1000;
                assert forall|j: int| 0 <= j < g1.battlefield@.len() implies crate::game::bounds::fresh_small(#[trigger] g1.battlefield@[j])
                    || exists|t: int| 0 <= t < g0.battlefield@.len() && crate::game::bounds::perm_step(g1.battlefield@[j], #[trigger] g0.battlefield@[t]) by {
                    assert(crate::game::bounds::perm_step(g1.battlefield@[j], g0.battlefield@[j]));
                }
                assert forall|j: int| 0 <= j < g1.battlefield@.len() implies (#[trigger] g1.battlefield@[j]).owner < 2
                    && g1.battlefield@[j].controller < 2 by {
                    assert(g0.battlefield@[j].owner < 2);
                }
                assert forall|j: int| 0 <= j < g1.players@.len() implies crate::game::bounds::player_step(#[trigger] g1.players@[j], g0.players@[j]) by {}
                crate::game::bounds::lemma_one_step(g0, g1, k);
            }
        },
        Target::NoTarget => {},
    }
}

/// A new Treasure token uses up one step of room.
pub proof fn lemma_treasure_step(g0: GameState, g1: GameState, controller: PlayerId, token_id: ObjectId, k: int)
    requires
        1 <= k,
        g0.within(k),
        controller < 2,
        g1.next_object_id == g0.next_object_id + 1,
        g1.battlefield@.len() == g0.battlefield@.len() + 1,
        g1.battlefield@.drop_last() == g0.battlefield@,
        is_new_treasure(g1.battlefield@.last(), token_id, controller),
        g1 == (GameState { battlefield: g1.battlefield, next_object_id: g1.next_object_id, ..g0 }),
    ensures
        g1.within(k - 1),
{
    let n0 = g0.battlefield@.len() as int;
    assert forall|j: int| 0 <= j < g1.battlefield@.len() implies crate::game::bounds::fresh_small(#[trigger] g1.battlefield@[j])
        || exists|t: int| 0 <= t < g0.battlefield@.len() && crate::game::bounds::perm_step(g1.battlefield@[j], #[trigger] g0.battlefield@[t]) by {
        if j < n0 {
            assert(g1.battlefield@[j] == g1.battlefield@.drop_last()[j]);
            assert(crate::game::bounds::perm_step(g1.battlefield@[j], g0.battlefield@[j]));
        }
    }
    assert forall|j: int| 0 <= j < g1.battlefield@.len() implies (#[trigger] g1.battlefield@[j]).owner < 2
        && g1.battlefield@[j].controller < 2 by {
        if j < n0 {
            assert(g1.battlefield@[j] == g1.battlefield@.drop_last()[j]);
            assert(g0.battlefield@[j].owner < 2);
        }
    }
    assert forall|j: int| 0 <= j < g1.players@.len() implies crate::game::bounds::player_step(#[trigger] g1.players@[j], g0.players@[j]) by {}
    crate::game::bounds::lemma_one_step(g0, g1, k);
}

} // verus!
