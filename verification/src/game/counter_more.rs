//! Soft counters, storm counters, Stifle and Mindbreak Trap.
use vstd::prelude::*;
use crate::card::CardName;
use crate::game::GameState;
use crate::game::resolution::countered;
use crate::game::spells::{first_target, storm_copies};
use crate::permanent::Permanent;
use crate::stack::{StackItem, StackItemKind, item_pos, lemma_item_pos_from};
use crate::types::{CardType, ObjectId, PlayerId, Target};

verus! {

/// Whether permanent `p` is an untapped land controlled by `c`.
pub open spec fn open_land(p: Permanent, c: PlayerId) -> bool {
    p.controller == c && !p.tapped && p.has_card_type(CardType::Land)
}

/// How many of the permanents of `bf` from index `k` on are untapped lands of `c`.
pub open spec fn open_lands_from(bf: Seq<Permanent>, c: PlayerId, k: int) -> int
    decreases bf.len() - k,
{
    if k < 0 || k >= bf.len() {
        0
    } else {
        (if open_land(bf[k], c) { 1int } else { 0int }) + open_lands_from(bf, c, k + 1)
    }
}

/// The mana that player `c` could pay with: their pool plus one per untapped land.
pub open spec fn mana_available(g: GameState, c: PlayerId) -> int {
    g.players@[c as int].mana_pool.sum() + open_lands_from(g.battlefield@, c, 0)
}

/// The generic tax of a "counter unless its controller pays" spell.
pub open spec fn soft_tax(card_name: CardName) -> int {
    match card_name {
        CardName::SpellPierce => 2,
        CardName::ManaLeak | CardName::MysticalDispute => 3,
        _ => 1,
    }
}

/// A soft counter on stack item `id`: when the item is there, may be countered, and its
/// controller cannot make `tax` mana, it is countered; otherwise it is paid for.
pub open spec fn soft_countered(g0: GameState, g1: GameState, id: ObjectId, tax: int) -> bool {
    let s = g0.stack.items@;
    let i = item_pos(s, id);
    if i >= 0 && !s[i].cant_be_countered && mana_available(g0, s[i].controller) < tax {
        countered(g0, g1, id)
    } else {
        g1 == g0
    }
}

/// `g1` is `g0` with stack item `id` (when it is there) taken off the stack.
pub open spec fn stack_removed(g0: GameState, g1: GameState, id: ObjectId) -> bool {
    let s = g0.stack.items@;
    let i = item_pos(s, id);
    if i < 0 {
        g1 == g0
    } else {
        &&& g1.stack.items@ == s.remove(i)
        &&& g1.stack.next_id == g0.stack.next_id
        &&& g1 == (GameState { stack: g1.stack, ..g0 })
    }
}

/// What exiling stack item `it` from the stack adds to the exile: a spell's card, owned by
/// the item's controller; nothing for an ability.
pub open spec fn trap_exile(it: StackItem) -> Seq<(ObjectId, CardName, PlayerId)> {
    match it.kind {
        StackItemKind::Spell { card_name, card_id, .. } => seq![(card_id, card_name, it.controller)],
        _ => Seq::empty(),
    }
}

/// Mindbreak Trap on one target: a stack item it names leaves the stack, and a spell's
/// card is exiled.
pub open spec fn trap_step(g0: GameState, g1: GameState, t: Target) -> bool {
    match t {
        Target::Object(id) => {
            let s = g0.stack.items@;
            let i = item_pos(s, id);
            if i < 0 {
                g1 == g0
            } else {
                &&& g1.stack.items@ == s.remove(i)
                &&& g1.stack.next_id == g0.stack.next_id
                &&& g1.exile@ == g0.exile@ + trap_exile(s[i])
                &&& g1 == (GameState { stack: g1.stack, exile: g1.exile, ..g0 })
            }
        },
        _ => g1 == g0,
    }
}

/// `states` runs through Mindbreak Trap's targets in order.
pub open spec fn trap_chain(states: Seq<GameState>, targets: Seq<Target>) -> bool {
    &&& states.len() == targets.len() + 1
    &&& forall|i: int| 0 <= i < targets.len() ==> trap_step(#[trigger] states[i], states[i + 1], targets[i])
}

/// `g1` is `g0` after Mindbreak Trap exiled every stack item it targets, in order.
pub open spec fn trapped(g0: GameState, g1: GameState, targets: Seq<Target>) -> bool {
    exists|states: Seq<GameState>| #[trigger] trap_chain(states, targets) && states[0] == g0 && states.last() == g1
}

/// The stack item kind of a storm copy of `card_name`.
pub open spec fn copy_kind(card_name: CardName) -> StackItemKind {
    StackItemKind::Spell { card_name, card_id: 0, cast_via_evoke: false }
}

/// `g1` is `g0` after `first` and, unless the spell is itself a copy, one copy of it per
/// spell cast before it this turn.
pub open spec fn with_storm(gm: GameState, g1: GameState, card_name: CardName, controller: PlayerId, targets: Seq<Target>, is_copy: bool) -> bool {
    if is_copy {
        g1 == gm
    } else {
        storm_copies(gm, g1, copy_kind(card_name), controller, targets, gm.storm_count as int)
    }
}

/// What the spells of this module do.
pub open spec fn counter_more_effect(g0: GameState, g1: GameState, card_name: CardName, controller: PlayerId, targets: Seq<Target>, is_copy: bool) -> bool {
    match card_name {
        CardName::SpellPierce | CardName::ManaLeak | CardName::Daze | CardName::MysticalDispute => match first_target(targets) {
            Some(Target::Object(id)) => soft_countered(g0, g1, id, soft_tax(card_name)),
            _ => g1 == g0,
        },
        CardName::Flusterstorm => exists|gm: GameState| #[trigger] with_storm(gm, g1, card_name, controller, targets, is_copy)
            && match first_target(targets) {
                Some(Target::Object(id)) => soft_countered(g0, gm, id, 1),
                _ => gm == g0,
            },
        CardName::ConsignToMemory => exists|gm: GameState| #[trigger] with_storm(gm, g1, card_name, controller, targets, is_copy)
            && match first_target(targets) {
                Some(Target::Object(id)) => countered(g0, gm, id),
                _ => gm == g0,
            },
        CardName::Stifle => match first_target(targets) {
            Some(Target::Object(id)) => stack_removed(g0, g1, id),
            _ => g1 == g0,
        },
        _ => trapped(g0, g1, targets),
    }
}

/// Whether `card_name` is a spell of this module.
pub open spec fn is_counter_more(card_name: CardName) -> bool {
    match card_name {
        CardName::SpellPierce | CardName::ManaLeak | CardName::Daze | CardName::MysticalDispute
        | CardName::Flusterstorm | CardName::ConsignToMemory | CardName::Stifle | CardName::MindbreakTrap => true,
        _ => false,
    }
}

/// Executable form of `is_counter_more`.
pub fn counter_more(card_name: CardName) -> (r: bool)
    ensures
        r == is_counter_more(card_name),
{
    match card_name {
        CardName::SpellPierce | CardName::ManaLeak | CardName::Daze | CardName::MysticalDispute
        | CardName::Flusterstorm | CardName::ConsignToMemory | CardName::Stifle | CardName::MindbreakTrap => true,
        _ => false,
    }
}

impl GameState {
    /// Number of untapped lands `c` controls.
    fn count_open_lands(&self, c: PlayerId) -> (r: usize)
        ensures
            r == open_lands_from(self.battlefield@, c, 0),
    {
        let ghost bf = self.battlefield@;
        let mut n: usize = 0;
        let mut i: usize = 0;
        while i < self.battlefield.len()
            invariant
                bf == self.battlefield@,
                i <= bf.len(),
                n <= i,
                n + open_lands_from(bf, c, i as int) == open_lands_from(bf, c, 0),
            decreases bf.len() - i,
        {
            let p = &self.battlefield[i];
            if p.controller == c && !p.tapped && p.is_land() {
                n = n + 1;
            }
            i = i + 1;
        }
        n
    }

    /// Counter stack item `id` unless its controller can make `tax` mana (see `soft_countered`).
    fn soft_counter(&mut self, id: ObjectId, tax: u64)
        requires
            old(self).wf(),
            crate::game::effects::stack_items_ok(old(self).stack.items@, 2),
        ensures
            soft_countered(*old(self), *final(self), id, tax as int),
            crate::game::bounds::stats_frame(*old(self), *final(self)),
    {
        proof { lemma_item_pos_from(self.stack.items@, id, 0); }
        let info: Option<(bool, PlayerId)> = match self.stack.position(id) {
            Some(i) => Some((self.stack.items[i].cant_be_countered, self.stack.items[i].controller)),
            None => None,
        };
        match info {
            Some((uncounterable, c)) => {
                if !uncounterable {
                    proof { assert(self.stack.items@[item_pos(self.stack.items@, id)].controller < 2); }
                    let pool = self.players[c as usize].mana_pool.total() as u64;
                    let lands = self.count_open_lands(c) as u64;
                    if lands < tax && pool < tax - lands {
                        self.counter_and_route(id);
                    }
                }
            },
            None => {},
        }
    }

    /// Push one copy of `card_name` per spell cast before it this turn (see `with_storm`).
    pub(crate) fn storm(&mut self, card_name: CardName, controller: PlayerId, targets: &[Target])
        ensures
            with_storm(*old(self), *final(self), card_name, controller, targets@, false),
    {
        let ghost gm = *self;
        let storm = self.storm_count;
        let template = StackItem {
            id: 0,
            kind: StackItemKind::Spell { card_name, card_id: 0, cast_via_evoke: false },
            controller,
            targets: vstd::slice::slice_to_vec(targets),
            cant_be_countered: false,
            x_value: 0,
            cast_from_graveyard: false,
            cast_as_adventure: false,
            modes: Vec::new(),
            is_copy: false,
        };
        let mut n: u16 = 0;
        while n < storm
            invariant
                n <= storm,
                storm == gm.storm_count,
                template.kind == copy_kind(card_name),
                template.controller == controller,
                template.targets@ == targets@,
                storm_copies(gm, *self, template.kind, controller, targets@, n as int),
            decreases storm - n,
        {
            let ghost before = *self;
            self.stack.push_copy(&template);
            proof {
                let s0 = gm.stack.items@;
                assert forall|j: int| 0 <= j < n + 1 implies {
                    let it = #[trigger] self.stack.items@[s0.len() + j];
                    &&& it.kind == template.kind
                    &&& it.controller == controller
                    &&& it.targets@ == targets@
                    &&& it.is_copy
                } by {
                    if j < n {
                        assert(self.stack.items@[s0.len() + j] == before.stack.items@[s0.len() + j]);
                    }
                }
                assert forall|i: int| 0 <= i < s0.len() implies #[trigger] self.stack.items@[i] == s0[i] by {
                    assert(self.stack.items@[i] == before.stack.items@[i]);
                }
            }
            n = n + 1;
        }
    }

    /// Exile each stack item that one of `targets` names (see `trapped`).
    fn mindbreak_trap(&mut self, targets: &[Target])
        ensures
            trapped(*old(self), *final(self), targets@),
    {
        let ghost g0 = *self;
        let ghost mut states: Seq<GameState> = seq![*self];
        let mut j: usize = 0;
        while j < targets.len()
            invariant
                j <= targets@.len(),
                trap_chain(states, targets@.subrange(0, j as int)),
                states[0] == g0,
                states.last() == *self,
            decreases targets@.len() - j,
        {
            let ghost before = *self;
            match targets[j] {
                Target::Object(id) => {
                    let found = self.stack.position(id).is_some();
                    let r = if found { self.stack.remove(id) } else { None };
                    match r {
                        Some(item) => {
                            match item.kind {
                                StackItemKind::Spell { card_name, card_id, .. } => {
                                    self.exile.push((card_id, card_name, item.controller));
                                    proof { assert(self.exile@ =~= before.exile@ + trap_exile(item)); }
                                },
                                _ => {
                                    proof { assert(self.exile@ =~= before.exile@ + trap_exile(item)); }
                                },
                            }
                        },
                        None => {},
                    }
                    proof { lemma_item_pos_from(before.stack.items@, id, 0); }
                },
                _ => {},
            }
            proof {
                assert(trap_step(before, *self, targets@[j as int]));
                let old_states = states;
                states = states.push(*self);
                assert forall|i: int| 0 <= i < j + 1 implies trap_step(#[trigger] states[i], states[i + 1], targets@.subrange(0, j as int + 1)[i]) by {
                    if i < j {
                        assert(states[i] == old_states[i]);
                        assert(states[i + 1] == old_states[i + 1]);
                        assert(trap_step(old_states[i], old_states[i + 1], targets@.subrange(0, j as int)[i]));
                    }
                }
            }
            j = j + 1;
        }
        proof {
            assert(targets@.subrange(0, j as int) =~= targets@);
            assert(trap_chain(states, targets@));
        }
    }

    /// Soft counters, storm counters, Stifle and Mindbreak Trap (see `counter_more_effect`).
    pub(crate) fn resolve_counter_more(&mut self, card_name: CardName, controller: PlayerId, targets: &[Target], is_copy: bool)
        requires
            old(self).wf(),
            crate::game::effects::stack_items_ok(old(self).stack.items@, 2),
            is_counter_more(card_name),
        ensures
            counter_more_effect(*old(self), *final(self), card_name, controller, targets@, is_copy),
            crate::game::bounds::stats_frame(*old(self), *final(self)),
    {
        let ghost g0 = *self;
        let first: Option<Target> = if targets.len() > 0 { Some(targets[0]) } else { None };
        match card_name {
            CardName::Stifle => {
                match first {
                    Some(Target::Object(id)) => {
                        proof { lemma_item_pos_from(self.stack.items@, id, 0); }
                        if self.stack.position(id).is_some() {
                            let _ = self.stack.remove(id);
                        }
                    },
                    _ => {},
                }
            },
            CardName::MindbreakTrap => {
                self.mindbreak_trap(targets);
                proof { lemma_trap_frame(g0, *self, targets@); }
            },
            _ => {
                match first {
                    Some(Target::Object(id)) => {
                        match card_name {
                            CardName::ConsignToMemory => { self.counter_and_route(id); },
                            CardName::SpellPierce => { self.soft_counter(id, 2); },
                            CardName::ManaLeak | CardName::MysticalDispute => { self.soft_counter(id, 3); },
                            _ => { self.soft_counter(id, 1); },
                        }
                    },
                    _ => {},
                }
                let ghost gm = *self;
                if (card_name == CardName::Flusterstorm || card_name == CardName::ConsignToMemory) && !is_copy {
                    self.storm(card_name, controller, targets);
                }
                proof {
                    assert(crate::game::bounds::stats_frame(g0, gm));
                    if card_name == CardName::Flusterstorm || card_name == CardName::ConsignToMemory {
                        assert(with_storm(gm, *self, card_name, controller, targets@, is_copy));
                    }
                }
            },
        }
    }
}

/// Each step of Mindbreak Trap keeps everything but the stack and the exile.
proof fn lemma_trap_prefix(states: Seq<GameState>, targets: Seq<Target>, i: int)
    requires
        trap_chain(states, targets),
        0 <= i <= targets.len(),
    ensures
        states[i] == (GameState { stack: states[i].stack, exile: states[i].exile, ..states[0] }),
    decreases i,
{
    if i > 0 {
        lemma_trap_prefix(states, targets, i - 1);
        assert(trap_step(states[i - 1], states[i], targets[i - 1]));
    }
}

/// Mindbreak Trap touches only the stack and the exile.
proof fn lemma_trap_frame(g0: GameState, g1: GameState, targets: Seq<Target>)
    requires
        trapped(g0, g1, targets),
    ensures
        crate::game::bounds::stats_frame(g0, g1),
{
    let states = choose|states: Seq<GameState>| #[trigger] trap_chain(states, targets) && states[0] == g0 && states.last() == g1;
    lemma_trap_prefix(states, targets, targets.len() as int);
}

} // verus!
