//! Life from the Loam: land cards back from the graveyard.
use vstd::prelude::*;
use crate::card::{CardDef, find_card, types_contain};
use crate::game::GameState;
use crate::game::board_more::land_card;
use crate::player::Player;
use crate::types::{CardType, ObjectId, PlayerId};

verus! {

/// The first `k` cards of `s` that `f` accepts, in order.
pub open spec fn first_k(s: Seq<ObjectId>, f: spec_fn(ObjectId) -> bool, k: int) -> Seq<ObjectId>
    decreases s.len(),
{
    if s.len() == 0 || k <= 0 {
        Seq::empty()
    } else if f(s[0]) {
        seq![s[0]] + first_k(s.drop_first(), f, k - 1)
    } else {
        first_k(s.drop_first(), f, k)
    }
}

/// `s` without its first `k` cards that `f` accepts.
pub open spec fn without_first_k(s: Seq<ObjectId>, f: spec_fn(ObjectId) -> bool, k: int) -> Seq<ObjectId>
    decreases s.len(),
{
    if s.len() == 0 {
        Seq::empty()
    } else if k > 0 && f(s[0]) {
        without_first_k(s.drop_first(), f, k - 1)
    } else {
        seq![s[0]] + without_first_k(s.drop_first(), f, k)
    }
}

/// Life from the Loam for player `c`: the first three land cards of their graveyard (as
/// many as there are) go to their hand, the one found last first.
pub open spec fn loamed(g0: GameState, g1: GameState, c: PlayerId, db: Seq<CardDef>) -> bool {
    let p0 = g0.players@[c as int];
    let f = land_card(g0.card_registry@, db);
    &&& g1.players@[c as int].hand@ == p0.hand@ + first_k(p0.graveyard@, f, 3).reverse()
    &&& g1.players@[c as int].graveyard@ == without_first_k(p0.graveyard@, f, 3)
    &&& g1.players@ == g0.players@.update(c as int, Player {
        hand: g1.players@[c as int].hand,
        graveyard: g1.players@[c as int].graveyard,
        ..p0
    })
    &&& g1 == (GameState { players: g1.players, ..g0 })
}

impl GameState {
    /// Life from the Loam (see `loamed`).
    pub(crate) fn life_from_the_loam(&mut self, c: PlayerId, db: &[CardDef])
        requires
            c < old(self).players@.len(),
            crate::game::db_ok(db@),
        ensures
            loamed(*old(self), *final(self), c, db@),
            crate::game::bounds::stats_frame(*old(self), *final(self)),
    {
        let pid = c as usize;
        let ghost f = land_card(self.card_registry@, db@);
        let ghost gy = self.players@[pid as int].graveyard@;
        let mut picked: Vec<ObjectId> = Vec::new();
        let mut kept: Vec<ObjectId> = Vec::new();
        let mut i: usize = 0;
        proof {
            assert(gy.subrange(0, gy.len() as int) =~= gy);
            assert(picked@ + first_k(gy, f, 3) =~= first_k(gy, f, 3));
            assert(kept@ + without_first_k(gy, f, 3) =~= without_first_k(gy, f, 3));
        }
        while i < self.players[pid].graveyard.len()
            invariant
                pid < self.players@.len(),
                gy == self.players@[pid as int].graveyard@,
                f == land_card(self.card_registry@, db@),
                crate::game::db_ok(db@),
                i <= gy.len(),
                picked@.len() <= 3,
                picked@ + first_k(gy.subrange(i as int, gy.len() as int), f, 3 - picked@.len()) == first_k(gy, f, 3),
                kept@ + without_first_k(gy.subrange(i as int, gy.len() as int), f, 3 - picked@.len()) == without_first_k(gy, f, 3),
            decreases gy.len() - i,
        {
            let id = self.players[pid].graveyard[i];
            proof {
                let rest = gy.subrange(i as int, gy.len() as int);
                assert(rest[0] == id);
                assert(rest.drop_first() =~= gy.subrange(i as int + 1, gy.len() as int));
            }
            let is_land = match self.card_name_for_id(id) {
                Some(cn) => match find_card(db, cn) {
                    Some(def) => {
                        proof { crate::card::lemma_def_pos_from(db@, cn, 0); }
                        types_contain(&def.card_types, CardType::Land)
                    },
                    None => false,
                },
                None => false,
            };
            proof { assert(is_land == f(id)); }
            if is_land && picked.len() < 3 {
                let ghost p0 = picked@;
                picked.push(id);
                proof {
                    let rest = gy.subrange(i as int, gy.len() as int);
                    assert(picked@ + first_k(rest.drop_first(), f, 3 - picked@.len()) =~= p0 + first_k(rest, f, 3 - p0.len()));
                }
            } else {
                let ghost k0 = kept@;
                kept.push(id);
                proof {
                    let rest = gy.subrange(i as int, gy.len() as int);
                    assert(kept@ + without_first_k(rest.drop_first(), f, 3 - picked@.len()) =~= k0 + without_first_k(rest, f, 3 - picked@.len()));
                }
            }
            i = i + 1;
        }
        proof {
            let rest = gy.subrange(i as int, gy.len() as int);
            assert(rest.len() == 0);
            assert(picked@ =~= first_k(gy, f, 3));
            assert(kept@ =~= without_first_k(gy, f, 3));
        }
        let mut hand = crate::player::copy_ids(&self.players[pid].hand);
        let ghost h0 = hand@;
        let mut j: usize = picked.len();
        while j > 0
            invariant
                j <= picked@.len(),
                hand@ == h0 + picked@.subrange(j as int, picked@.len() as int).reverse(),
            decreases j,
        {
            j = j - 1;
            hand.push(picked[j]);
            proof {
                assert(picked@.subrange(j as int, picked@.len() as int).reverse()
                    =~= picked@.subrange(j as int + 1, picked@.len() as int).reverse().push(picked@[j as int]));
            }
        }
        proof { assert(picked@.subrange(0, picked@.len() as int) =~= picked@); }
        self.players[pid].hand = hand;
        self.players[pid].graveyard = kept;
        proof {
            assert(self.players@ =~= old(self).players@.update(c as int, Player {
                hand: self.players@[c as int].hand,
                graveyard: self.players@[c as int].graveyard,
                ..old(self).players@[c as int]
            }));
        }
    }
}

} // verus!
