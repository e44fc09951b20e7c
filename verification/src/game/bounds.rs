//! How far one game action can move the numbers that `within` bounds.
use vstd::prelude::*;
use crate::game::{GameState, big_step, stat_cap, stat_step};
use crate::permanent::Permanent;
use crate::player::Player;

verus! {

/// `a` is player `b` after one action: life moved by at most a step, counters grew by at
/// most a step.
pub open spec fn player_step(a: Player, b: Player) -> bool {
    &&& -big_step() <= a.life - b.life <= big_step()
    &&& a.extra_turns <= b.extra_turns + big_step()
    &&& a.draws_this_turn <= b.draws_this_turn + big_step()
    &&& a.cards_discarded_this_turn <= b.cards_discarded_this_turn + big_step()
    &&& a.spells_cast_this_turn <= b.spells_cast_this_turn + big_step()
}

/// `a` is permanent `b` after one action: every stat moved by at most `stat_step()` (base
/// power and toughness may also be replaced by values within it), attachments grew by at most 100.
pub open spec fn perm_step(a: Permanent, b: Permanent) -> bool {
    &&& -stat_step() <= a.base_power - b.base_power <= stat_step() || -stat_step() <= a.base_power <= stat_step()
    &&& -stat_step() <= a.base_toughness - b.base_toughness <= stat_step() || -stat_step() <= a.base_toughness <= stat_step()
    &&& -stat_step() <= a.power_mod - b.power_mod <= stat_step()
    &&& -stat_step() <= a.toughness_mod - b.toughness_mod <= stat_step()
    &&& -stat_step() <= a.damage - b.damage <= stat_step()
    &&& -stat_step() <= a.loyalty - b.loyalty <= stat_step()
    &&& -stat_step() <= a.counters.plus_one - b.counters.plus_one <= stat_step()
    &&& -stat_step() <= a.counters.minus_one - b.counters.minus_one <= stat_step()
    &&& -stat_step() <= a.counters.lore - b.counters.lore <= stat_step()
    &&& -stat_step() <= a.counters.burden - b.counters.burden <= stat_step()
    &&& -stat_step() <= a.counters.charge - b.counters.charge <= stat_step()
    &&& -stat_step() <= a.counters.stun - b.counters.stun <= stat_step()
    &&& a.attachments@.len() <= b.attachments@.len() + 100
}

/// A permanent with every stat within `stat_step()` of zero and at most 100 attachments.
pub open spec fn fresh_small(a: Permanent) -> bool {
    &&& -stat_step() <= a.base_power <= stat_step()
    &&& -stat_step() <= a.base_toughness <= stat_step()
    &&& -stat_step() <= a.power_mod <= stat_step()
    &&& -stat_step() <= a.toughness_mod <= stat_step()
    &&& -stat_step() <= a.damage <= stat_step()
    &&& -stat_step() <= a.loyalty <= stat_step()
    &&& -stat_step() <= a.counters.plus_one <= stat_step()
    &&& -stat_step() <= a.counters.minus_one <= stat_step()
    &&& -stat_step() <= a.counters.lore <= stat_step()
    &&& -stat_step() <= a.counters.burden <= stat_step()
    &&& -stat_step() <= a.counters.charge <= stat_step()
    &&& -stat_step() <= a.counters.stun <= stat_step()
    &&& a.attachments@.len() <= 100
}

/// `g1` is `g0` after one action, as far as the bounded numbers go.
pub open spec fn one_step(g0: GameState, g1: GameState) -> bool {
    &&& g1.turn_number <= g0.turn_number + 1
    &&& g1.storm_count <= g0.storm_count + 100
    &&& g1.next_object_id + g1.battlefield@.len() <= g0.next_object_id + g0.battlefield@.len() + big_step()
    &&& g1.battlefield@.len() <= g0.battlefield@.len() + 100
    &&& g1.players@.len() == g0.players@.len()
    &&& forall|i: int| 0 <= i < g1.players@.len() ==> player_step(#[trigger] g1.players@[i], g0.players@[i])
    &&& forall|i: int| 0 <= i < g1.battlefield@.len() ==> (#[trigger] g1.battlefield@[i]).owner < 2
        && g1.battlefield@[i].controller < 2
    &&& forall|i: int| 0 <= i < g1.battlefield@.len() ==> fresh_small(#[trigger] g1.battlefield@[i])
        || exists|j: int| 0 <= j < g0.battlefield@.len() && perm_step(g1.battlefield@[i], #[trigger] g0.battlefield@[j])
}

/// One action uses up one step of room.
pub proof fn lemma_one_step(g0: GameState, g1: GameState, k: int)
    requires
        1 <= k,
        g0.within(k),
        one_step(g0, g1),
    ensures
        g1.within(k - 1),
{
    let n0 = g0.battlefield@.len() as int;
    let n1 = g1.battlefield@.len() as int;
    let c0 = stat_cap(k) - n0;
    let c1 = stat_cap(k - 1) - n1;
    assert(c1 >= c0 + 200);
    if n0 > 0 {
        assert(g0.battlefield@[0].stats_within(k, n0));
    }
    assert(c1 >= stat_step());
    assert forall|i: int| 0 <= i < n1 implies #[trigger] g1.battlefield@[i].stats_within(k - 1, n1) by {
        let a = g1.battlefield@[i];
        if !fresh_small(a) {
            let j = choose|j: int| 0 <= j < n0 && perm_step(a, #[trigger] g0.battlefield@[j]);
            assert(g0.battlefield@[j].stats_within(k, n0));
        }
    }
    assert forall|i: int| 0 <= i < g1.players@.len() implies #[trigger] g1.players@[i].stats_within(k - 1) by {
        assert(g0.players@[i].stats_within(k));
        assert(player_step(g1.players@[i], g0.players@[i]));
    }
}

/// A battlefield that did not change meets the permanent part of `one_step`.
pub proof fn lemma_same_battlefield_step(g0: GameState, g1: GameState)
    requires
        g1.battlefield@ == g0.battlefield@,
        forall|i: int| 0 <= i < g0.battlefield@.len() ==> (#[trigger] g0.battlefield@[i]).owner < 2
            && g0.battlefield@[i].controller < 2,
    ensures
        forall|i: int| 0 <= i < g1.battlefield@.len() ==> fresh_small(#[trigger] g1.battlefield@[i])
            || exists|j: int| 0 <= j < g0.battlefield@.len() && perm_step(g1.battlefield@[i], #[trigger] g0.battlefield@[j]),
        forall|i: int| 0 <= i < g1.battlefield@.len() ==> (#[trigger] g1.battlefield@[i]).owner < 2
            && g1.battlefield@[i].controller < 2,
{
    assert forall|i: int| 0 <= i < g1.battlefield@.len() implies fresh_small(#[trigger] g1.battlefield@[i])
        || exists|j: int| 0 <= j < g0.battlefield@.len() && perm_step(g1.battlefield@[i], #[trigger] g0.battlefield@[j]) by {
        assert(perm_step(g1.battlefield@[i], g0.battlefield@[i]));
    }
    assert forall|i: int| 0 <= i < g1.battlefield@.len() implies (#[trigger] g1.battlefield@[i]).owner < 2
        && g1.battlefield@[i].controller < 2 by {
        assert(g0.battlefield@[i].owner < 2);
    }
}

/// Room for `k` steps is also room for fewer.
pub proof fn lemma_within_mono(g: GameState, k: int, j: int)
    requires
        g.within(k),
        0 <= j <= k,
    ensures
        g.within(j),
{
    let n = g.battlefield@.len() as int;
    assert forall|i: int| 0 <= i < n implies #[trigger] g.battlefield@[i].stats_within(j, n) by {
        assert(g.battlefield@[i].stats_within(k, n));
    }
    assert forall|i: int| 0 <= i < g.players@.len() implies #[trigger] g.players@[i].stats_within(j) by {
        assert(g.players@[i].stats_within(k));
    }
}

} // verus!

verus! {

/// Changes that keep the battlefield, the id counter, the turn, the storm count and every
/// player's life and counts keep the state within its bounds.
pub proof fn lemma_stats_kept(g0: GameState, g1: GameState, k: int)
    requires
        g0.within(k),
        g1.battlefield@ == g0.battlefield@,
        g1.next_object_id == g0.next_object_id,
        g1.turn_number == g0.turn_number,
        g1.storm_count == g0.storm_count,
        crate::game::same_player_stats(g1.players@, g0.players@),
    ensures
        g1.within(k),
{
    assert forall|i: int| 0 <= i < g1.players@.len() implies #[trigger] g1.players@[i].stats_within(k) by {
        assert(g0.players@[i].stats_within(k));
    }
    assert forall|i: int| 0 <= i < g1.battlefield@.len() implies #[trigger] g1.battlefield@[i].stats_within(k, g1.battlefield@.len() as int) by {
        assert(g0.battlefield@[i].stats_within(k, g0.battlefield@.len() as int));
    }
    assert forall|i: int| 0 <= i < g1.battlefield@.len() implies (#[trigger] g1.battlefield@[i]).owner < 2
        && g1.battlefield@[i].controller < 2 by {
        assert(g0.battlefield@[i].owner < 2);
    }
}

} // verus!

verus! {

/// `g1` keeps everything of `g0` that `wf` and `within` look at.
pub open spec fn stats_frame(g0: GameState, g1: GameState) -> bool {
    &&& g1.battlefield@ == g0.battlefield@
    &&& g1.next_object_id == g0.next_object_id
    &&& g1.turn_number == g0.turn_number
    &&& g1.storm_count == g0.storm_count
    &&& crate::game::same_player_stats(g1.players@, g0.players@)
    &&& g1.num_players == g0.num_players
    &&& g1.passed_priority@.len() == g0.passed_priority@.len()
    &&& g1.active_player == g0.active_player
    &&& g1.priority_player == g0.priority_player
}

/// A change inside `stats_frame` keeps well-formedness and every bound.
pub proof fn lemma_frame_kept(g0: GameState, g1: GameState)
    requires
        stats_frame(g0, g1),
    ensures
        g0.wf() ==> g1.wf(),
        forall|k: int| #[trigger] g0.within(k) ==> g1.within(k),
{
    assert forall|k: int| #[trigger] g0.within(k) implies g1.within(k) by {
        lemma_stats_kept(g0, g1, k);
    }
}

} // verus!
