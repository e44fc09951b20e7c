//! Player state: life, zones, per-turn counters.
use vstd::prelude::*;
use crate::mana::{ManaPool, empty_pool};
use crate::types::{ObjectId, PlayerId};

verus! {

/// Starting life total.
pub const STARTING_LIFE: i32 = 20;

/// A player.
#[derive(Debug, Clone)]
pub struct Player {
    pub id: PlayerId,
    pub life: i32,
    pub hand: Vec<ObjectId>,
    /// The top of the library is the last element.
    pub library: Vec<ObjectId>,
    pub graveyard: Vec<ObjectId>,
    pub mana_pool: ManaPool,
    /// Companion card kept outside the game.
    pub companion: Option<ObjectId>,
    pub extra_turns: u32,
    pub has_lost: bool,
    pub land_plays_remaining: u8,
    pub draws_this_turn: u32,
    pub has_drawn_this_turn: bool,
    pub cards_discarded_this_turn: u32,
    pub spells_cast_this_turn: u32,
    /// Damage to this player is prevented (until their next turn).
    pub protection_from_everything: bool,
    /// Yawgmoth's Will resolved for this player.
    pub yawgmoth_will_active: bool,
    /// Veil of Summer resolved for this player.
    pub veil_of_summer_active: bool,
}

impl Player {
    /// A player at the start of the game: 20 life, empty zones, one land play.
    pub fn new(id: PlayerId) -> (r: Player)
        ensures
            r.id == id,
            r.life == STARTING_LIFE,
            r.hand@.len() == 0,
            r.library@.len() == 0,
            r.graveyard@.len() == 0,
            r.mana_pool == empty_pool(),
            r.companion is None,
            r.extra_turns == 0,
            !r.has_lost,
            r.land_plays_remaining == 1,
            r.draws_this_turn == 0,
            !r.has_drawn_this_turn,
            r.cards_discarded_this_turn == 0,
            r.spells_cast_this_turn == 0,
            !r.protection_from_everything,
            !r.yawgmoth_will_active,
            !r.veil_of_summer_active,
    {
        Player {
            id,
            life: STARTING_LIFE,
            hand: Vec::new(),
            library: Vec::new(),
            graveyard: Vec::new(),
            mana_pool: ManaPool::new(),
            companion: None,
            extra_turns: 0,
            has_lost: false,
            land_plays_remaining: 1,
            draws_this_turn: 0,
            has_drawn_this_turn: false,
            cards_discarded_this_turn: 0,
            spells_cast_this_turn: 0,
            protection_from_everything: false,
            yawgmoth_will_active: false,
            veil_of_summer_active: false,
        }
    }

    /// Reset the per-turn state at the start of this player's turn.
    pub fn reset_for_turn(&mut self)
        ensures
            *final(self) == (Player {
                land_plays_remaining: 1,
                draws_this_turn: 0,
                has_drawn_this_turn: false,
                cards_discarded_this_turn: 0,
                spells_cast_this_turn: 0,
                protection_from_everything: false,
                ..*old(self)
            }),
    {
        self.land_plays_remaining = 1;
        self.draws_this_turn = 0;
        self.has_drawn_this_turn = false;
        self.cards_discarded_this_turn = 0;
        self.spells_cast_this_turn = 0;
        self.protection_from_everything = false;
    }

    /// Remove the first copy of `card_id` from the hand; returns whether it was there.
    pub fn remove_from_hand(&mut self, card_id: ObjectId) -> (r: bool)
        ensures
            r == old(self).hand@.contains(card_id),
            r ==> final(self).hand@ == old(self).hand@.remove(
                first_index(old(self).hand@, card_id),
            ),
            !r ==> final(self).hand@ == old(self).hand@,
            *final(self) == (Player { hand: final(self).hand, ..*old(self) }),
    {
        match position_of(&self.hand, card_id) {
            Some(pos) => {
                self.hand.remove(pos);
                true
            },
            None => false,
        }
    }
}

/// Index of the first `x` in `s` at or after `k`, or -1.
pub open spec fn index_from(s: Seq<ObjectId>, x: ObjectId, k: int) -> int
    decreases s.len() - k,
{
    if k < 0 || k >= s.len() {
        -1
    } else if s[k] == x {
        k
    } else {
        index_from(s, x, k + 1)
    }
}

/// Index of the first `x` in `s`, or -1.
pub open spec fn first_index(s: Seq<ObjectId>, x: ObjectId) -> int {
    index_from(s, x, 0)
}

/// `index_from` is -1 exactly when `x` does not occur from `k` on; otherwise it is the
/// first occurrence.
pub proof fn lemma_index_from(s: Seq<ObjectId>, x: ObjectId, k: int)
    requires
        0 <= k,
    ensures
        index_from(s, x, k) == -1 <==> forall|j: int| k <= j < s.len() ==> s[j] != x,
        index_from(s, x, k) != -1 ==> k <= index_from(s, x, k) < s.len() && s[index_from(
            s,
            x,
            k,
        )] == x,
        forall|j: int| k <= j < index_from(s, x, k) ==> s[j] != x,
    decreases s.len() - k,
{
    if k < s.len() && s[k] != x {
        lemma_index_from(s, x, k + 1);
    }
}

/// `first_index` is -1 exactly when `x` is absent; otherwise it is the first occurrence.
pub proof fn lemma_first_index(s: Seq<ObjectId>, x: ObjectId)
    ensures
        first_index(s, x) == -1 <==> !s.contains(x),
        s.contains(x) ==> 0 <= first_index(s, x) < s.len() && s[first_index(s, x)] == x,
        forall|j: int| 0 <= j < first_index(s, x) ==> s[j] != x,
{
    lemma_index_from(s, x, 0);
    if s.contains(x) {
        let w = choose|w: int| 0 <= w < s.len() && s[w] == x;
        assert(s[w] == x);
    }
}

/// Position of the first `x` in `v`.
pub fn position_of(v: &Vec<ObjectId>, x: ObjectId) -> (r: Option<usize>)
    ensures
        r matches Some(i) ==> i == first_index(v@, x) && i < v@.len() && v@[i as int] == x,
        r is None <==> !v@.contains(x),
        r is None ==> first_index(v@, x) == -1,
{
    proof {
        lemma_first_index(v@, x);
    }
    let mut i: usize = 0;
    while i < v.len()
        invariant
            i <= v@.len(),
            first_index(v@, x) == index_from(v@, x, i as int),
            forall|j: int| 0 <= j < i ==> v@[j] != x,
        decreases v@.len() - i,
    {
        if v[i] == x {
            return Some(i);
        }
        i = i + 1;
    }
    None
}

/// Whether `v` holds `x`.
pub fn contains_id(v: &Vec<ObjectId>, x: ObjectId) -> (r: bool)
    ensures
        r == v@.contains(x),
{
    position_of(v, x).is_some()
}

/// A copy of a list of object ids.
pub fn copy_ids(v: &Vec<ObjectId>) -> (r: Vec<ObjectId>)
    ensures
        r@ == v@,
{
    let mut r: Vec<ObjectId> = Vec::new();
    let mut i: usize = 0;
    while i < v.len()
        invariant
            i <= v@.len(),
            r@ == v@.subrange(0, i as int),
        decreases v@.len() - i,
    {
        r.push(v[i]);
        i = i + 1;
    }
    assert(r@ =~= v@);
    r
}

} // verus!
