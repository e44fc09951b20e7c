//! Dies, leaves-the-battlefield, draw and cast triggers.
use vstd::prelude::*;
use crate::card::CardName;
use crate::game::{GameState, registered_name, perm_pos};
use crate::permanent::Permanent;
use crate::stack::{StackItem, StackItemKind, TriggeredEffect};
use crate::types::{ObjectId, PlayerId, Target};

verus! {

/// Items `start..start + srcs.len()` of `items` are the triggered abilities of the sources
/// `srcs`, in order: source `srcs[j]` named `name`, with effect `eff(srcs[j])`, controlled
/// by the source's controller, with targets `tgt(srcs[j])`.
pub open spec fn trigger_items(
    items: Seq<StackItem>,
    start: int,
    srcs: Seq<Permanent>,
    name: CardName,
    eff: spec_fn(Permanent) -> TriggeredEffect,
    tgt: spec_fn(Permanent) -> Seq<Target>,
) -> bool {
    &&& 0 <= start
    &&& items.len() >= start + srcs.len()
    &&& forall|j: int|
        0 <= j < srcs.len() ==> {
            let it = #[trigger] items[start + j];
            &&& it.kind == StackItemKind::TriggeredAbility {
                source_id: srcs[j].id,
                source_name: srcs[j].card_name,
                effect: eff(srcs[j]),
            }
            &&& it.controller == srcs[j].controller
            &&& it.targets@ == tgt(srcs[j])
            &&& !it.cant_be_countered
            &&& !it.is_copy
        }
}

/// `new` is `old` with exactly one triggered ability pushed on top.
pub open spec fn pushed_one(
    old: Seq<StackItem>,
    new: Seq<StackItem>,
    source_id: ObjectId,
    name: CardName,
    effect: TriggeredEffect,
    controller: PlayerId,
    targets: Seq<Target>,
) -> bool {
    &&& new.len() == old.len() + 1
    &&& new.subrange(0, old.len() as int) == old
    &&& new.last().kind == (StackItemKind::TriggeredAbility { source_id, source_name: name, effect })
    &&& new.last().controller == controller
    &&& new.last().targets@ == targets
    &&& !new.last().cant_be_countered
    &&& !new.last().is_copy
}

/// Triggers recorded in a prefix survive extending the stack.
pub proof fn lemma_items_prefix_keep(
    mid: Seq<StackItem>,
    fin: Seq<StackItem>,
    start: int,
    srcs: Seq<Permanent>,
    name: CardName,
    eff: spec_fn(Permanent) -> TriggeredEffect,
    tgt: spec_fn(Permanent) -> Seq<Target>,
)
    requires
        trigger_items(mid, start, srcs, name, eff, tgt),
        fin.len() >= mid.len(),
        fin.subrange(0, mid.len() as int) == mid,
    ensures
        trigger_items(fin, start, srcs, name, eff, tgt),
{
    assert forall|j: int| 0 <= j < srcs.len() implies #[trigger] fin[start + j] == mid[start + j] by {
        assert(fin.subrange(0, mid.len() as int)[start + j] == fin[start + j]);
    }
}

/// Prefixes compose.
pub proof fn lemma_prefix_trans(a: Seq<StackItem>, b: Seq<StackItem>, c: Seq<StackItem>)
    requires
        b.len() >= a.len(),
        c.len() >= b.len(),
        b.subrange(0, a.len() as int) == a,
        c.subrange(0, b.len() as int) == b,
    ensures
        c.subrange(0, a.len() as int) == a,
{
    assert forall|j: int| 0 <= j < a.len() implies c.subrange(0, a.len() as int)[j] == a[j] by {
        assert(c.subrange(0, b.len() as int)[j] == c[j]);
        assert(b.subrange(0, a.len() as int)[j] == b[j]);
    }
    assert(c.subrange(0, a.len() as int) =~= a);
}

/// No targets.
pub open spec fn no_targets(p: Permanent) -> Seq<Target> {
    Seq::empty()
}

impl GameState {
    /// Push the triggered abilities of every permanent on the battlefield that satisfies
    /// `pred` (given by its selector), in battlefield order.
    fn push_source_triggers(
        &mut self,
        sel: TriggerSel,
        who: PlayerId,
        name: CardName,
    )
        ensures
            ({
                let srcs = old(self).battlefield@.filter(|p: Permanent| sel_pred(sel, who, name, p));
                &&& final(self).stack.items@.len() == old(self).stack.items@.len() + srcs.len()
                &&& final(self).stack.items@.subrange(0, old(self).stack.items@.len() as int)
                    == old(self).stack.items@
                &&& trigger_items(
                    final(self).stack.items@,
                    old(self).stack.items@.len() as int,
                    srcs,
                    name,
                    |p: Permanent| sel_effect(sel, who, p),
                    |p: Permanent| sel_targets(sel, who, p),
                )
            }),
            *final(self) == (GameState { stack: final(self).stack, ..*old(self) }),
    {
        let ghost pred = |p: Permanent| sel_pred(sel, who, name, p);
        let ghost eff = |p: Permanent| sel_effect(sel, who, p);
        let ghost tgt = |p: Permanent| sel_targets(sel, who, p);
        let ghost s0 = self.stack.items@;
        let mut i: usize = 0;
        while i < self.battlefield.len()
            invariant
                i <= self.battlefield@.len(),
                pred == (|p: Permanent| sel_pred(sel, who, name, p)),
                eff == (|p: Permanent| sel_effect(sel, who, p)),
                tgt == (|p: Permanent| sel_targets(sel, who, p)),
                s0 == old(self).stack.items@,
                self.stack.items@.len() == s0.len() + self.battlefield@.subrange(0, i as int).filter(pred).len(),
                self.stack.items@.subrange(0, s0.len() as int) == s0,
                trigger_items(self.stack.items@, s0.len() as int, self.battlefield@.subrange(0, i as int).filter(pred), name, eff, tgt),
                *self == (GameState { stack: self.stack, ..*old(self) }),
            decreases self.battlefield@.len() - i,
        {
            let ghost before = self.stack.items@;
            let ghost prev = self.battlefield@.subrange(0, i as int).filter(pred);
            let p = &self.battlefield[i];
            let ghost pv = *p;
            proof {
                assert(self.battlefield@.subrange(0, i as int + 1) =~= self.battlefield@.subrange(0, i as int).push(pv));
                self.battlefield@.subrange(0, i as int).lemma_filter_push(pv, pred);
            }
            if sel_matches(sel, who, name, p) {
                let id = p.id;
                let pname = p.card_name;
                let ctrl = p.controller;
                let effect = sel_effect_exec(sel, who, p);
                let targets = sel_targets_exec(sel, who, p);
                self.stack.push(
                    StackItemKind::TriggeredAbility { source_id: id, source_name: pname, effect },
                    ctrl,
                    targets,
                );
                proof {
                    let cur = prev.push(pv);
                    assert forall|j: int| 0 <= j < cur.len() implies {
                        let it = #[trigger] self.stack.items@[s0.len() + j];
                        &&& it.kind == StackItemKind::TriggeredAbility {
                            source_id: cur[j].id,
                            source_name: cur[j].card_name,
                            effect: eff(cur[j]),
                        }
                        &&& it.controller == cur[j].controller
                        &&& it.targets@ == tgt(cur[j])
                        &&& !it.cant_be_countered
                        &&& !it.is_copy
                    } by {
                        if j < prev.len() {
                            assert(self.stack.items@[s0.len() + j] == before[s0.len() + j]);
                        }
                    }
                    assert(self.stack.items@.subrange(0, s0.len() as int) =~= s0);
                }
            }
            i = i + 1;
        }
        proof {
            assert(self.battlefield@.subrange(0, i as int) =~= self.battlefield@);
        }
    }
}

/// Which trigger source family `push_source_triggers` looks for.
#[derive(Clone, Copy, PartialEq, Eq, Structural)]
pub enum TriggerSel {
    /// Sheoldred: draws by anyone (`who` = the drawing player).
    Sheoldred,
    /// Orcish Bowmasters controlled by someone other than the drawer `who`.
    Bowmasters,
    /// Young Pyromancer / Monastery Mentor controlled by the caster `who` (`name` given).
    CasterCreature,
    /// A permanent named `name` controlled by an opponent of `who` that counters free spells.
    FreeSpellCounter { spell_id: ObjectId },
    /// Chalice of the Void whose charge counters equal the spell's mana value.
    Chalice { spell_id: ObjectId, cmc: u8 },
    /// Cindervines controlled by an opponent of the caster `who`.
    Cindervines,
    /// Mystic Remora controlled by an opponent of the caster `who`.
    Remora,
    /// Roiling Vortex (any controller); `who` is the caster.
    Vortex,
    /// Eidolon of the Great Revel (any controller); `who` is the caster.
    Eidolon,
}

/// Which permanents a selector picks.
pub open spec fn sel_pred(sel: TriggerSel, who: PlayerId, name: CardName, p: Permanent) -> bool {
    if sel == TriggerSel::CasterCreature {
        (p.card_name == CardName::YoungPyromancer || p.card_name == CardName::MonasteryMentor)
            && p.controller == who
    } else {
        p.card_name == name && match sel {
        TriggerSel::Sheoldred => true,
        TriggerSel::Bowmasters => p.controller != who,
        TriggerSel::CasterCreature => p.controller == who,
        TriggerSel::FreeSpellCounter { .. } => p.controller != who,
        TriggerSel::Chalice { cmc, .. } => p.counters.charge == cmc as i16,
        TriggerSel::Cindervines => p.controller != who,
        TriggerSel::Remora => p.controller != who,
        TriggerSel::Vortex => true,
        TriggerSel::Eidolon => true,
    }
    }
}

/// Effect of the trigger a selected permanent puts on the stack.
pub open spec fn sel_effect(sel: TriggerSel, who: PlayerId, p: Permanent) -> TriggeredEffect {
    match sel {
        TriggerSel::Sheoldred => if p.controller == who {
            TriggeredEffect::SheoldredDraw
        } else {
            TriggeredEffect::SheoldredOpponentDraw
        },
        TriggerSel::Bowmasters => TriggeredEffect::OrcishBowmastersOpponentDraw,
        TriggerSel::CasterCreature => if p.card_name == CardName::MonasteryMentor {
            TriggeredEffect::MonasteryMentorCast
        } else {
            TriggeredEffect::YoungPyromancerCast
        },
        TriggerSel::FreeSpellCounter { spell_id } => TriggeredEffect::LaviniaCounter { spell_id },
        TriggerSel::Chalice { spell_id, .. } => TriggeredEffect::ChaliceCounter { spell_id },
        TriggerSel::Cindervines => TriggeredEffect::CindervinesDamage { target_player: who },
        TriggerSel::Remora => TriggeredEffect::MysticRemoraOpponentCast,
        TriggerSel::Vortex => TriggeredEffect::RoilingVortexFreeCast { target_player: who },
        TriggerSel::Eidolon => TriggeredEffect::EidolonDamage { target_player: who },
    }
}

/// Targets of the trigger a selected permanent puts on the stack.
pub open spec fn sel_targets(sel: TriggerSel, who: PlayerId, p: Permanent) -> Seq<Target> {
    match sel {
        TriggerSel::Bowmasters => seq![Target::Player(who)],
        TriggerSel::FreeSpellCounter { spell_id } => seq![Target::Object(spell_id)],
        TriggerSel::Chalice { spell_id, .. } => seq![Target::Object(spell_id)],
        TriggerSel::Vortex => seq![Target::Player(who)],
        TriggerSel::Eidolon => seq![Target::Player(who)],
        _ => Seq::empty(),
    }
}

fn sel_matches(sel: TriggerSel, who: PlayerId, name: CardName, p: &Permanent) -> (r: bool)
    ensures
        r == sel_pred(sel, who, name, *p),
{
    if sel == TriggerSel::CasterCreature {
        return (p.card_name == CardName::YoungPyromancer || p.card_name == CardName::MonasteryMentor)
            && p.controller == who;
    }
    p.card_name == name && match sel {
        TriggerSel::Sheoldred => true,
        TriggerSel::Bowmasters => p.controller != who,
        TriggerSel::CasterCreature => p.controller == who,
        TriggerSel::FreeSpellCounter { .. } => p.controller != who,
        TriggerSel::Chalice { cmc, .. } => p.counters.charge == cmc as i16,
        TriggerSel::Cindervines => p.controller != who,
        TriggerSel::Remora => p.controller != who,
        TriggerSel::Vortex => true,
        TriggerSel::Eidolon => true,
    }
}

fn sel_effect_exec(sel: TriggerSel, who: PlayerId, p: &Permanent) -> (r: TriggeredEffect)
    ensures
        r == sel_effect(sel, who, *p),
{
    match sel {
        TriggerSel::Sheoldred => if p.controller == who {
            TriggeredEffect::SheoldredDraw
        } else {
            TriggeredEffect::SheoldredOpponentDraw
        },
        TriggerSel::Bowmasters => TriggeredEffect::OrcishBowmastersOpponentDraw,
        TriggerSel::CasterCreature => if p.card_name == CardName::MonasteryMentor {
            TriggeredEffect::MonasteryMentorCast
        } else {
            TriggeredEffect::YoungPyromancerCast
        },
        TriggerSel::FreeSpellCounter { spell_id } => TriggeredEffect::LaviniaCounter { spell_id },
        TriggerSel::Chalice { spell_id, .. } => TriggeredEffect::ChaliceCounter { spell_id },
        TriggerSel::Cindervines => TriggeredEffect::CindervinesDamage { target_player: who },
        TriggerSel::Remora => TriggeredEffect::MysticRemoraOpponentCast,
        TriggerSel::Vortex => TriggeredEffect::RoilingVortexFreeCast { target_player: who },
        TriggerSel::Eidolon => TriggeredEffect::EidolonDamage { target_player: who },
    }
}

fn sel_targets_exec(sel: TriggerSel, who: PlayerId, p: &Permanent) -> (r: Vec<Target>)
    ensures
        r@ == sel_targets(sel, who, *p),
{
    match sel {
        TriggerSel::Bowmasters => vec![Target::Player(who)],
        TriggerSel::FreeSpellCounter { spell_id } => vec![Target::Object(spell_id)],
        TriggerSel::Chalice { spell_id, .. } => vec![Target::Object(spell_id)],
        TriggerSel::Vortex => vec![Target::Player(who)],
        TriggerSel::Eidolon => vec![Target::Player(who)],
        _ => Vec::new(),
    }
}

} // verus!

verus! {

/// Permanents named `name` on `bf`, in order.
pub open spec fn named(bf: Seq<Permanent>, name: CardName) -> Seq<Permanent> {
    bf.filter(|p: Permanent| p.card_name == name)
}

impl GameState {
    /// Draw triggers: each Sheoldred, the Apocalypse (gain 2 on its controller's draw, the
    /// opponent loses 2 otherwise), then each Orcish Bowmasters whose controller is not the
    /// drawing player (targeting that player).
    pub fn check_draw_triggers(&mut self, drawing_player: PlayerId)
        ensures
            ({
                let s0 = old(self).stack.items@;
                let a = old(self).battlefield@.filter(|p: Permanent| sel_pred(TriggerSel::Sheoldred, drawing_player, CardName::SheoldredTheApocalypse, p));
                let b = old(self).battlefield@.filter(|p: Permanent| sel_pred(TriggerSel::Bowmasters, drawing_player, CardName::OrcishBowmasters, p));
                &&& final(self).stack.items@.len() == s0.len() + a.len() + b.len()
                &&& final(self).stack.items@.subrange(0, s0.len() as int) == s0
                &&& trigger_items(final(self).stack.items@, s0.len() as int, a, CardName::SheoldredTheApocalypse,
                    |p: Permanent| sel_effect(TriggerSel::Sheoldred, drawing_player, p),
                    |p: Permanent| sel_targets(TriggerSel::Sheoldred, drawing_player, p))
                &&& trigger_items(final(self).stack.items@, (s0.len() + a.len()) as int, b, CardName::OrcishBowmasters,
                    |p: Permanent| sel_effect(TriggerSel::Bowmasters, drawing_player, p),
                    |p: Permanent| sel_targets(TriggerSel::Bowmasters, drawing_player, p))
            }),
            *final(self) == (GameState { stack: final(self).stack, ..*old(self) }),
    {
        self.push_source_triggers(TriggerSel::Sheoldred, drawing_player, CardName::SheoldredTheApocalypse);
        let ghost mid = self.stack.items@;
        self.push_source_triggers(TriggerSel::Bowmasters, drawing_player, CardName::OrcishBowmasters);
        proof {
            let s0 = old(self).stack.items@;
            let a = old(self).battlefield@.filter(|p: Permanent| sel_pred(TriggerSel::Sheoldred, drawing_player, CardName::SheoldredTheApocalypse, p));
            lemma_items_prefix_keep(mid, self.stack.items@, s0.len() as int, a, CardName::SheoldredTheApocalypse,
                |p: Permanent| sel_effect(TriggerSel::Sheoldred, drawing_player, p),
                |p: Permanent| sel_targets(TriggerSel::Sheoldred, drawing_player, p));
            lemma_prefix_trans(s0, mid, self.stack.items@);
        }
    }
}

} // verus!

verus! {

/// Sources picked by a selector on `bf`.
pub open spec fn sel_srcs(bf: Seq<Permanent>, sel: TriggerSel, who: PlayerId, name: CardName) -> Seq<Permanent> {
    bf.filter(|p: Permanent| sel_pred(sel, who, name, p))
}

/// The triggers of `sel` for `who` sit at `start..` of `items`.
pub open spec fn sel_items(items: Seq<StackItem>, start: int, bf: Seq<Permanent>, sel: TriggerSel, who: PlayerId, name: CardName) -> bool {
    trigger_items(
        items,
        start,
        sel_srcs(bf, sel, who, name),
        name,
        |p: Permanent| sel_effect(sel, who, p),
        |p: Permanent| sel_targets(sel, who, p),
    )
}

/// `fin` extends `s0` with the triggers of the given selectors, in order.
pub open spec fn pushed_sels3(
    s0: Seq<StackItem>,
    fin: Seq<StackItem>,
    bf: Seq<Permanent>,
    who: PlayerId,
    s1: (TriggerSel, CardName),
    s2: (TriggerSel, CardName),
    s3: (TriggerSel, CardName),
) -> bool {
    let n1 = sel_srcs(bf, s1.0, who, s1.1).len();
    let n2 = sel_srcs(bf, s2.0, who, s2.1).len();
    let n3 = sel_srcs(bf, s3.0, who, s3.1).len();
    &&& fin.len() == s0.len() + n1 + n2 + n3
    &&& fin.subrange(0, s0.len() as int) == s0
    &&& sel_items(fin, s0.len() as int, bf, s1.0, who, s1.1)
    &&& sel_items(fin, (s0.len() + n1) as int, bf, s2.0, who, s2.1)
    &&& sel_items(fin, (s0.len() + n1 + n2) as int, bf, s3.0, who, s3.1)
}

impl GameState {
    /// Push the triggers of three selector families in turn.
    fn push_three(&mut self, who: PlayerId, s1: TriggerSel, n1: CardName, s2: TriggerSel, n2: CardName, s3: TriggerSel, n3: CardName)
        ensures
            pushed_sels3(old(self).stack.items@, final(self).stack.items@, old(self).battlefield@, who, (s1, n1), (s2, n2), (s3, n3)),
            *final(self) == (GameState { stack: final(self).stack, ..*old(self) }),
    {
        let ghost s0 = self.stack.items@;
        let ghost bf = self.battlefield@;
        self.push_source_triggers(s1, who, n1);
        let ghost m1 = self.stack.items@;
        self.push_source_triggers(s2, who, n2);
        let ghost m2 = self.stack.items@;
        self.push_source_triggers(s3, who, n3);
        proof {
            let fin = self.stack.items@;
            lemma_items_prefix_keep(m1, m2, s0.len() as int, sel_srcs(bf, s1, who, n1), n1,
                |p: Permanent| sel_effect(s1, who, p), |p: Permanent| sel_targets(s1, who, p));
            lemma_items_prefix_keep(m2, fin, s0.len() as int, sel_srcs(bf, s1, who, n1), n1,
                |p: Permanent| sel_effect(s1, who, p), |p: Permanent| sel_targets(s1, who, p));
            lemma_items_prefix_keep(m2, fin, m1.len() as int, sel_srcs(bf, s2, who, n2), n2,
                |p: Permanent| sel_effect(s2, who, p), |p: Permanent| sel_targets(s2, who, p));
            lemma_prefix_trans(s0, m1, m2);
            lemma_prefix_trans(s0, m2, fin);
        }
    }

    /// Noncreature-spell cast triggers: the caster's Young Pyromancers and Monastery
    /// Mentors (one token each), then opponents' Cindervines (1 damage to the caster),
    /// then opponents' Mystic Remoras (draw a card).
    pub fn check_noncreature_cast_triggers(&mut self, caster: PlayerId)
        ensures
            pushed_sels3(old(self).stack.items@, final(self).stack.items@, old(self).battlefield@, caster,
                (TriggerSel::CasterCreature, CardName::YoungPyromancer),
                (TriggerSel::Cindervines, CardName::Cindervines),
                (TriggerSel::Remora, CardName::MysticRemora)),
            *final(self) == (GameState { stack: final(self).stack, ..*old(self) }),
    {
        self.push_three(caster, TriggerSel::CasterCreature, CardName::YoungPyromancer,
            TriggerSel::Cindervines, CardName::Cindervines, TriggerSel::Remora, CardName::MysticRemora);
    }

    /// Spells cast without spending mana: opponents' Lavinia and Boromir counter it, and
    /// every Roiling Vortex deals 5 damage to the caster. Nothing happens if mana was spent.
    pub fn check_lavinia_trigger(&mut self, caster: PlayerId, spell_id: ObjectId, mana_spent: bool)
        ensures
            mana_spent ==> *final(self) == *old(self),
            !mana_spent ==> pushed_sels3(old(self).stack.items@, final(self).stack.items@, old(self).battlefield@, caster,
                (TriggerSel::FreeSpellCounter { spell_id }, CardName::LaviniaAzoriusRenegade),
                (TriggerSel::FreeSpellCounter { spell_id }, CardName::BoromirWardenOfTheTower),
                (TriggerSel::Vortex, CardName::RoilingVortex)),
            *final(self) == (GameState { stack: final(self).stack, ..*old(self) }),
    {
        if mana_spent {
            return;
        }
        self.push_three(caster, TriggerSel::FreeSpellCounter { spell_id }, CardName::LaviniaAzoriusRenegade,
            TriggerSel::FreeSpellCounter { spell_id }, CardName::BoromirWardenOfTheTower,
            TriggerSel::Vortex, CardName::RoilingVortex);
    }

    /// Chalice of the Void: each Chalice with as many charge counters as the spell's mana
    /// value counters it.
    pub fn check_chalice_trigger(&mut self, spell_id: ObjectId, spell_cmc: u8)
        ensures
            ({
                let s0 = old(self).stack.items@;
                let sel = TriggerSel::Chalice { spell_id, cmc: spell_cmc };
                &&& final(self).stack.items@.len() == s0.len() + sel_srcs(old(self).battlefield@, sel, 0, CardName::ChaliceOfTheVoid).len()
                &&& final(self).stack.items@.subrange(0, s0.len() as int) == s0
                &&& sel_items(final(self).stack.items@, s0.len() as int, old(self).battlefield@, sel, 0, CardName::ChaliceOfTheVoid)
            }),
            *final(self) == (GameState { stack: final(self).stack, ..*old(self) }),
    {
        self.push_source_triggers(TriggerSel::Chalice { spell_id, cmc: spell_cmc }, 0, CardName::ChaliceOfTheVoid);
    }

    /// Eidolon of the Great Revel: each Eidolon deals 2 damage to the caster of a spell
    /// with mana value 3 or less.
    pub fn check_eidolon_trigger(&mut self, caster: PlayerId, spell_cmc: u8)
        ensures
            spell_cmc > 3 ==> *final(self) == *old(self),
            spell_cmc <= 3 ==> ({
                let s0 = old(self).stack.items@;
                &&& final(self).stack.items@.len() == s0.len() + sel_srcs(old(self).battlefield@, TriggerSel::Eidolon, caster, CardName::EidolonOfTheGreatRevel).len()
                &&& final(self).stack.items@.subrange(0, s0.len() as int) == s0
                &&& sel_items(final(self).stack.items@, s0.len() as int, old(self).battlefield@, TriggerSel::Eidolon, caster, CardName::EidolonOfTheGreatRevel)
            }),
            *final(self) == (GameState { stack: final(self).stack, ..*old(self) }),
    {
        if spell_cmc > 3 {
            return;
        }
        self.push_source_triggers(TriggerSel::Eidolon, caster, CardName::EidolonOfTheGreatRevel);
    }
}

} // verus!

verus! {

/// Whether `g`'s graveyard for `controller` holds a registered card other than `died_id`.
pub open spec fn other_registered_in_graveyard(g: GameState, controller: PlayerId, died_id: ObjectId) -> bool {
    exists|j: int|
        0 <= j < g.players@[controller as int].graveyard@.len() && g.players@[controller as int].graveyard@[j] != died_id
            && #[trigger] registered_name(g.card_registry@, g.players@[controller as int].graveyard@[j]) is Some
}

/// Owner of exiled card `card_id` (the first exile entry with that id), or `default`.
pub open spec fn exile_owner_from(exile: Seq<(ObjectId, CardName, PlayerId)>, card_id: ObjectId, default: PlayerId, k: int) -> PlayerId
    decreases exile.len() - k,
{
    if k < 0 || k >= exile.len() {
        default
    } else if exile[k].0 == card_id {
        exile[k].2
    } else {
        exile_owner_from(exile, card_id, default, k + 1)
    }
}

/// The cards linked to exiler `left_id`, in link order.
pub open spec fn linked_cards(links: Seq<(ObjectId, ObjectId)>, left_id: ObjectId) -> Seq<(ObjectId, ObjectId)> {
    links.filter(link_hit(left_id))
}

/// Links made by exiler `left_id`.
pub open spec fn link_hit(left_id: ObjectId) -> spec_fn((ObjectId, ObjectId)) -> bool {
    |e: (ObjectId, ObjectId)| e.0 == left_id
}

/// Links made by other exilers.
pub open spec fn link_keep(left_id: ObjectId) -> spec_fn((ObjectId, ObjectId)) -> bool {
    |e: (ObjectId, ObjectId)| e.0 != left_id
}

/// Skyclave records of other permanents.
pub open spec fn sky_keep(left_id: ObjectId) -> spec_fn((ObjectId, u32)) -> bool {
    |e: (ObjectId, u32)| e.0 != left_id
}

/// Index of the first Skyclave entry at or after `k` for `id`, or -1.
pub open spec fn sky_pos_from(s: Seq<(ObjectId, u32)>, id: ObjectId, k: int) -> int
    decreases s.len() - k,
{
    if k < 0 || k >= s.len() {
        -1
    } else if s[k].0 == id {
        k
    } else {
        sky_pos_from(s, id, k + 1)
    }
}

impl GameState {
    /// Dies triggers of the permanent that just died: Wurmcoil Engine makes two tokens (an
    /// object id is used up), Myr Retriever returns an artifact if its controller's
    /// graveyard holds another registered card.
    pub fn check_dies_triggers(&mut self, died_id: ObjectId, died_name: CardName, controller: PlayerId, is_artifact: bool)
        requires
            controller < old(self).players@.len(),
            old(self).next_object_id < u32::MAX,
        ensures
            died_name == CardName::WurmcoilEngine ==> pushed_one(old(self).stack.items@, final(self).stack.items@,
                died_id, died_name, TriggeredEffect::WurmcoilDeath, controller, Seq::empty())
                && final(self).next_object_id == old(self).next_object_id + 1,
            died_name == CardName::MyrRetriever && other_registered_in_graveyard(*old(self), controller, died_id)
                ==> pushed_one(old(self).stack.items@, final(self).stack.items@,
                died_id, died_name, TriggeredEffect::MyrRetrieverDeath, controller, Seq::empty()),
            died_name != CardName::WurmcoilEngine && !(died_name == CardName::MyrRetriever
                && other_registered_in_graveyard(*old(self), controller, died_id)) ==> *final(self) == *old(self),
            died_name != CardName::WurmcoilEngine ==> final(self).next_object_id == old(self).next_object_id,
            *final(self) == (GameState {
                stack: final(self).stack,
                next_object_id: final(self).next_object_id,
                ..*old(self)
            }),
    {
        let ghost s0 = self.stack.items@;
        match died_name {
            CardName::WurmcoilEngine => {
                let _trigger_id = self.new_object_id();
                self.stack.push(
                    StackItemKind::TriggeredAbility {
                        source_id: died_id,
                        source_name: died_name,
                        effect: TriggeredEffect::WurmcoilDeath,
                    },
                    controller,
                    Vec::new(),
                );
                proof { assert(self.stack.items@.subrange(0, s0.len() as int) =~= s0); }
            },
            CardName::MyrRetriever => {
                let pid = controller as usize;
                let mut found = false;
                let mut i: usize = 0;
                while i < self.players[pid].graveyard.len()
                    invariant
                        pid == controller,
                        pid < self.players@.len(),
                        i <= self.players@[pid as int].graveyard@.len(),
                        found <==> exists|j: int|
                            0 <= j < i && self.players@[pid as int].graveyard@[j] != died_id
                                && #[trigger] registered_name(self.card_registry@, self.players@[pid as int].graveyard@[j]) is Some,
                    decreases self.players@[pid as int].graveyard@.len() - i,
                {
                    let id = self.players[pid].graveyard[i];
                    if id != died_id && self.card_name_for_id(id).is_some() {
                        found = true;
                    }
                    i = i + 1;
                }
                if found {
                    self.stack.push(
                        StackItemKind::TriggeredAbility {
                            source_id: died_id,
                            source_name: died_name,
                            effect: TriggeredEffect::MyrRetrieverDeath,
                        },
                        controller,
                        Vec::new(),
                    );
                    proof { assert(self.stack.items@.subrange(0, s0.len() as int) =~= s0); }
                }
            },
            _ => {},
        }
        let _ = is_artifact;
    }

    /// Leaves-the-battlefield triggers: every card exiled "until this leaves" by the
    /// leaving permanent returns (one trigger each, controlled by the card's owner, in link
    /// order) and its links are dropped; a leaving Skyclave Apparition gives its recorded
    /// mana value to a token for the opponent.
    pub fn check_leaves_triggers(&mut self, left_id: ObjectId, left_name: CardName, controller: PlayerId)
        requires
            controller <= 1,
        ensures
            ({
                let s0 = old(self).stack.items@;
                let links = linked_cards(old(self).exile_linked@, left_id);
                let sp = sky_pos_from(old(self).skyclave_token_mv@, left_id, 0);
                let n_sky: int = if sp >= 0 { 1 } else { 0 };
                &&& final(self).exile_linked@ == old(self).exile_linked@.filter(link_keep(left_id))
                &&& final(self).stack.items@.len() == s0.len() + links.len() + n_sky
                &&& final(self).stack.items@.subrange(0, s0.len() as int) == s0
                &&& forall|j: int| 0 <= j < links.len() ==> {
                    let it = #[trigger] final(self).stack.items@[s0.len() + j];
                    let owner = exile_owner_from(old(self).exile@, links[j].1, controller, 0);
                    &&& it.kind == StackItemKind::TriggeredAbility {
                        source_id: left_id,
                        source_name: left_name,
                        effect: TriggeredEffect::ExileLinkedReturn { card_id: links[j].1, card_owner: owner },
                    }
                    &&& it.controller == owner
                    &&& it.targets@.len() == 0
                }
                &&& sp >= 0 ==> {
                    let it = final(self).stack.items@.last();
                    let opp = (1 - controller) as PlayerId;
                    &&& final(self).skyclave_token_mv@ == old(self).skyclave_token_mv@.filter(sky_keep(left_id))
                    &&& it.kind == StackItemKind::TriggeredAbility {
                        source_id: left_id,
                        source_name: left_name,
                        effect: TriggeredEffect::SkyclaveApparitionLeaves {
                            apparition_id: left_id,
                            token_mv: old(self).skyclave_token_mv@[sp].1,
                            opponent: opp,
                        },
                    }
                    &&& it.controller == opp
                    &&& it.targets@.len() == 0
                }
                &&& sp < 0 ==> final(self).skyclave_token_mv@ == old(self).skyclave_token_mv@
            }),
            *final(self) == (GameState {
                stack: final(self).stack,
                exile_linked: final(self).exile_linked,
                skyclave_token_mv: final(self).skyclave_token_mv,
                ..*old(self)
            }),
    {
        let ghost s0 = self.stack.items@;
        let ghost links0 = self.exile_linked@;
        let ghost keep = link_keep(left_id);
        let ghost hit = link_hit(left_id);
        let mut linked: Vec<ObjectId> = Vec::new();
        let mut kept: Vec<(ObjectId, ObjectId)> = Vec::new();
        let mut i: usize = 0;
        while i < self.exile_linked.len()
            invariant
                i <= links0.len(),
                links0 == self.exile_linked@,
                keep == link_keep(left_id),
                hit == link_hit(left_id),
                kept@ == links0.subrange(0, i as int).filter(keep),
                linked@.len() == links0.subrange(0, i as int).filter(hit).len(),
                forall|j: int| 0 <= j < linked@.len() ==> #[trigger] linked@[j] == links0.subrange(0, i as int).filter(hit)[j].1,
            decreases links0.len() - i,
        {
            let e = self.exile_linked[i];
            proof {
                assert(links0.subrange(0, i as int + 1) =~= links0.subrange(0, i as int).push(e));
                links0.subrange(0, i as int).lemma_filter_push(e, keep);
                links0.subrange(0, i as int).lemma_filter_push(e, hit);
            }
            if e.0 == left_id {
                linked.push(e.1);
            } else {
                kept.push(e);
            }
            i = i + 1;
        }
        proof {
            assert(links0.subrange(0, i as int) =~= links0);
        }
        if linked.len() > 0 {
            self.exile_linked = kept;
            let mut j: usize = 0;
            while j < linked.len()
                invariant
                    j <= linked@.len(),
                    linked@.len() == linked_cards(links0, left_id).len(),
                    hit == link_hit(left_id),
                    links0 == old(self).exile_linked@,
                    self.exile_linked@ == links0.filter(link_keep(left_id)),
                    forall|q: int| 0 <= q < linked@.len() ==> #[trigger] linked@[q] == linked_cards(links0, left_id)[q].1,
                    self.stack.items@.len() == s0.len() + j,
                    self.stack.items@.subrange(0, s0.len() as int) == s0,
                    s0 == old(self).stack.items@,
                    forall|q: int| 0 <= q < j ==> {
                        let it = #[trigger] self.stack.items@[s0.len() + q];
                        let owner = exile_owner_from(old(self).exile@, linked@[q], controller, 0);
                        &&& it.kind == StackItemKind::TriggeredAbility {
                            source_id: left_id,
                            source_name: left_name,
                            effect: TriggeredEffect::ExileLinkedReturn { card_id: linked@[q], card_owner: owner },
                        }
                        &&& it.controller == owner
                        &&& it.targets@.len() == 0
                    },
                    *self == (GameState { stack: self.stack, exile_linked: self.exile_linked, ..*old(self) }),
                decreases linked@.len() - j,
            {
                let card_id = linked[j];
                let card_owner = self.exile_owner(card_id, controller);
                let ghost before = self.stack.items@;
                self.stack.push(
                    StackItemKind::TriggeredAbility {
                        source_id: left_id,
                        source_name: left_name,
                        effect: TriggeredEffect::ExileLinkedReturn { card_id, card_owner },
                    },
                    card_owner,
                    Vec::new(),
                );
                proof {
                    assert forall|q: int| 0 <= q < j + 1 implies {
                        let it = #[trigger] self.stack.items@[s0.len() + q];
                        let owner = exile_owner_from(old(self).exile@, linked@[q], controller, 0);
                        &&& it.kind == StackItemKind::TriggeredAbility {
                            source_id: left_id,
                            source_name: left_name,
                            effect: TriggeredEffect::ExileLinkedReturn { card_id: linked@[q], card_owner: owner },
                        }
                        &&& it.controller == owner
                        &&& it.targets@.len() == 0
                    } by {
                        if q < j {
                            assert(self.stack.items@[s0.len() + q] == before[s0.len() + q]);
                        }
                    }
                    assert(self.stack.items@.subrange(0, s0.len() as int) =~= s0);
                }
                j = j + 1;
            }
        } else {
            proof {
                lemma_filter_all_keep(links0, left_id);
                assert(self.stack.items@.subrange(0, s0.len() as int) =~= s0);
            }
        }
        let ghost s1 = self.stack.items@;
        let ghost sky0 = self.skyclave_token_mv@;
        proof {
            lemma_sky_pos_from(sky0, left_id, 0);
        }
        if let Some(pos) = self.sky_index(left_id) {
            let token_mv = self.skyclave_token_mv[pos].1;
            let mut kept_sky: Vec<(ObjectId, u32)> = Vec::new();
            let ghost keep_s = sky_keep(left_id);
            let mut q: usize = 0;
            while q < self.skyclave_token_mv.len()
                invariant
                    q <= sky0.len(),
                    sky0 == self.skyclave_token_mv@,
                    keep_s == sky_keep(left_id),
                    kept_sky@ == sky0.subrange(0, q as int).filter(keep_s),
                decreases sky0.len() - q,
            {
                let e = self.skyclave_token_mv[q];
                proof {
                    assert(sky0.subrange(0, q as int + 1) =~= sky0.subrange(0, q as int).push(e));
                    sky0.subrange(0, q as int).lemma_filter_push(e, keep_s);
                }
                if e.0 != left_id {
                    kept_sky.push(e);
                }
                q = q + 1;
            }
            proof {
                assert(sky0.subrange(0, q as int) =~= sky0);
            }
            self.skyclave_token_mv = kept_sky;
            let opponent = self.opponent(controller);
            self.stack.push(
                StackItemKind::TriggeredAbility {
                    source_id: left_id,
                    source_name: left_name,
                    effect: TriggeredEffect::SkyclaveApparitionLeaves { apparition_id: left_id, token_mv, opponent },
                },
                opponent,
                Vec::new(),
            );
            proof {
                let fin = self.stack.items@;
                assert(fin.subrange(0, s1.len() as int) =~= s1);
                lemma_prefix_trans(s0, s1, fin);
                let links = linked_cards(old(self).exile_linked@, left_id);
                assert(s1.len() == s0.len() + links.len());
                assert forall|j: int| 0 <= j < links.len() implies #[trigger] fin[s0.len() + j] == s1[s0.len() + j] by {
                    assert(fin.subrange(0, s1.len() as int)[s0.len() + j] == fin[s0.len() + j]);
                }
                assert(fin.len() == s0.len() + links.len() + 1);
                assert(self.skyclave_token_mv@ == sky0.filter(sky_keep(left_id)));
                assert(sky0[pos as int].1 == token_mv);
            }
        } else {
            proof {
                assert(self.stack.items@.len() == s0.len() + linked_cards(old(self).exile_linked@, left_id).len());
            }
        }
    }

    /// Position of the first Skyclave Apparition record for `id`.
    fn sky_index(&self, id: ObjectId) -> (r: Option<usize>)
        ensures
            r matches Some(i) ==> i == sky_pos_from(self.skyclave_token_mv@, id, 0) && i < self.skyclave_token_mv@.len(),
            r is None ==> sky_pos_from(self.skyclave_token_mv@, id, 0) == -1,
    {
        let mut i: usize = 0;
        while i < self.skyclave_token_mv.len()
            invariant
                i <= self.skyclave_token_mv@.len(),
                sky_pos_from(self.skyclave_token_mv@, id, 0) == sky_pos_from(self.skyclave_token_mv@, id, i as int),
            decreases self.skyclave_token_mv@.len() - i,
        {
            if self.skyclave_token_mv[i].0 == id {
                return Some(i);
            }
            i = i + 1;
        }
        None
    }

    /// Owner of exiled card `card_id` (the first exile entry), or `default`.
    fn exile_owner(&self, card_id: ObjectId, default: PlayerId) -> (r: PlayerId)
        ensures
            r == exile_owner_from(self.exile@, card_id, default, 0),
    {
        let mut i: usize = 0;
        while i < self.exile.len()
            invariant
                i <= self.exile@.len(),
                exile_owner_from(self.exile@, card_id, default, 0) == exile_owner_from(self.exile@, card_id, default, i as int),
            decreases self.exile@.len() - i,
        {
            if self.exile[i].0 == card_id {
                return self.exile[i].2;
            }
            i = i + 1;
        }
        default
    }
}

/// `sky_pos_from` is -1 or a valid index holding `id`.
pub proof fn lemma_sky_pos_from(s: Seq<(ObjectId, u32)>, id: ObjectId, k: int)
    requires
        0 <= k,
    ensures
        sky_pos_from(s, id, k) == -1 || (k <= sky_pos_from(s, id, k) < s.len() && s[sky_pos_from(s, id, k)].0 == id),
    decreases s.len() - k,
{
    if k < s.len() && s[k].0 != id {
        lemma_sky_pos_from(s, id, k + 1);
    }
}

/// When no link names `left_id`, filtering keeps every link and finds none.
proof fn lemma_filter_all_keep(links: Seq<(ObjectId, ObjectId)>, left_id: ObjectId)
    requires
        linked_cards(links, left_id).len() == 0,
    ensures
        links.filter(link_keep(left_id)) == links,
    decreases links.len(),
{
    let keep = link_keep(left_id);
    let hit = link_hit(left_id);
    if links.len() > 0 {
        let t = links.drop_last();
        assert(links =~= t.push(links.last()));
        t.lemma_filter_push(links.last(), keep);
        t.lemma_filter_push(links.last(), hit);
        lemma_filter_all_keep(t, left_id);
    } else {
        reveal(Seq::filter);
        assert(links.filter(keep) =~= links);
    }
}

} // verus!

verus! {

/// Every Nadu trigger record counts at most two triggers.
pub open spec fn nadu_counts_ok(v: Seq<(ObjectId, u8)>) -> bool {
    forall|i: int| 0 <= i < v.len() ==> (#[trigger] v[i]).1 <= 2
}

/// `it` is a Nadu trigger of some Nadu on `bf`, controlled by that Nadu's controller.
pub open spec fn is_nadu_item(it: StackItem, bf: Seq<Permanent>) -> bool {
    exists|k: int|
        0 <= k < bf.len() && #[trigger] bf[k].card_name == CardName::NaduWingedWisdom && it.kind
            == (StackItemKind::TriggeredAbility {
            source_id: bf[k].id,
            source_name: CardName::NaduWingedWisdom,
            effect: TriggeredEffect::NaduTrigger,
        }) && it.controller == bf[k].controller && it.targets@.len() == 0
}

/// Index of the first Nadu record for `id` at or after `k`, or -1.
pub open spec fn nadu_pos_from(v: Seq<(ObjectId, u8)>, id: ObjectId, k: int) -> int
    decreases v.len() - k,
{
    if k < 0 || k >= v.len() {
        -1
    } else if v[k].0 == id {
        k
    } else {
        nadu_pos_from(v, id, k + 1)
    }
}

/// `nadu_pos_from` is -1 or a valid index holding `id`.
pub proof fn lemma_nadu_pos_from(v: Seq<(ObjectId, u8)>, id: ObjectId, k: int)
    requires
        0 <= k,
    ensures
        nadu_pos_from(v, id, k) == -1 || (k <= nadu_pos_from(v, id, k) < v.len() && v[nadu_pos_from(v, id, k)].0 == id),
    decreases v.len() - k,
{
    if k < v.len() && v[k].0 != id {
        lemma_nadu_pos_from(v, id, k + 1);
    }
}

impl GameState {
    /// Whether `creature_id` is a creature on the battlefield controlled by `controller`.
    fn is_own_creature(&self, creature_id: ObjectId, controller: PlayerId) -> (r: bool)
        ensures
            r == exists|i: int| 0 <= i < self.battlefield@.len() && #[trigger] self.battlefield@[i].id == creature_id
                && self.battlefield@[i].controller == controller && self.battlefield@[i].has_card_type(crate::types::CardType::Creature),
    {
        let mut i: usize = 0;
        while i < self.battlefield.len()
            invariant
                i <= self.battlefield@.len(),
                forall|j: int| 0 <= j < i ==> !(#[trigger] self.battlefield@[j].id == creature_id
                    && self.battlefield@[j].controller == controller && self.battlefield@[j].has_card_type(crate::types::CardType::Creature)),
            decreases self.battlefield@.len() - i,
        {
            if self.battlefield[i].id == creature_id && self.battlefield[i].controller == controller
                && self.battlefield[i].is_creature() {
                return true;
            }
            i = i + 1;
        }
        false
    }

    /// Position of the first Nadu record for `id`.
    fn nadu_index(&self, id: ObjectId) -> (r: Option<usize>)
        ensures
            r matches Some(i) ==> i == nadu_pos_from(self.nadu_triggers_this_turn@, id, 0) && i < self.nadu_triggers_this_turn@.len(),
            r is None ==> nadu_pos_from(self.nadu_triggers_this_turn@, id, 0) == -1,
    {
        let mut i: usize = 0;
        while i < self.nadu_triggers_this_turn.len()
            invariant
                i <= self.nadu_triggers_this_turn@.len(),
                nadu_pos_from(self.nadu_triggers_this_turn@, id, 0) == nadu_pos_from(self.nadu_triggers_this_turn@, id, i as int),
            decreases self.nadu_triggers_this_turn@.len() - i,
        {
            if self.nadu_triggers_this_turn[i].0 == id {
                return Some(i);
            }
            i = i + 1;
        }
        None
    }

    /// Nadu, Winged Wisdom: for each Nadu and each targeted creature its controller
    /// controls, a trigger goes on the stack, at most twice per creature per turn.
    pub fn check_nadu_targeting_triggers(&mut self, targeted_creature_ids: &[ObjectId])
        requires
            nadu_counts_ok(old(self).nadu_triggers_this_turn@),
        ensures
            nadu_counts_ok(final(self).nadu_triggers_this_turn@),
            final(self).stack.items@.len() >= old(self).stack.items@.len(),
            final(self).stack.items@.subrange(0, old(self).stack.items@.len() as int) == old(self).stack.items@,
            forall|j: int| old(self).stack.items@.len() <= j < final(self).stack.items@.len() ==> is_nadu_item(
                #[trigger] final(self).stack.items@[j],
                old(self).battlefield@,
            ),
            *final(self) == (GameState {
                stack: final(self).stack,
                nadu_triggers_this_turn: final(self).nadu_triggers_this_turn,
                ..*old(self)
            }),
    {
        let ghost s0 = self.stack.items@;
        let mut n: usize = 0;
        while n < self.battlefield.len()
            invariant
                n <= self.battlefield@.len(),
                nadu_counts_ok(self.nadu_triggers_this_turn@),
                self.stack.items@.len() >= s0.len(),
                self.stack.items@.subrange(0, s0.len() as int) == s0,
                s0 == old(self).stack.items@,
                forall|j: int| s0.len() <= j < self.stack.items@.len() ==> is_nadu_item(#[trigger] self.stack.items@[j], old(self).battlefield@),
                *self == (GameState {
                    stack: self.stack,
                    nadu_triggers_this_turn: self.nadu_triggers_this_turn,
                    ..*old(self)
                }),
            decreases self.battlefield@.len() - n,
        {
            if self.battlefield[n].card_name == CardName::NaduWingedWisdom {
                let nadu_id = self.battlefield[n].id;
                let nadu_controller = self.battlefield[n].controller;
                let mut t: usize = 0;
                while t < targeted_creature_ids.len()
                    invariant
                        n < self.battlefield@.len(),
                        self.battlefield@[n as int].card_name == CardName::NaduWingedWisdom,
                        nadu_id == self.battlefield@[n as int].id,
                        nadu_controller == self.battlefield@[n as int].controller,
                        t <= targeted_creature_ids@.len(),
                        nadu_counts_ok(self.nadu_triggers_this_turn@),
                        self.stack.items@.len() >= s0.len(),
                        self.stack.items@.subrange(0, s0.len() as int) == s0,
                        s0 == old(self).stack.items@,
                        forall|j: int| s0.len() <= j < self.stack.items@.len() ==> is_nadu_item(#[trigger] self.stack.items@[j], old(self).battlefield@),
                        *self == (GameState {
                            stack: self.stack,
                            nadu_triggers_this_turn: self.nadu_triggers_this_turn,
                            ..*old(self)
                        }),
                    decreases targeted_creature_ids@.len() - t,
                {
                    let creature_id = targeted_creature_ids[t];
                    t = t + 1;
                    if !self.is_own_creature(creature_id, nadu_controller) {
                        continue;
                    }
                    proof {
                        lemma_nadu_pos_from(self.nadu_triggers_this_turn@, creature_id, 0);
                    }
                    let idx = self.nadu_index(creature_id);
                    let count: u8 = match idx {
                        Some(i) => self.nadu_triggers_this_turn[i].1,
                        None => 0,
                    };
                    if count >= 2 {
                        continue;
                    }
                    match idx {
                        Some(i) => {
                            let e = self.nadu_triggers_this_turn[i];
                            self.nadu_triggers_this_turn.set(i, (e.0, e.1 + 1));
                        },
                        None => {
                            self.nadu_triggers_this_turn.push((creature_id, 1));
                        },
                    }
                    let ghost before = self.stack.items@;
                    self.stack.push(
                        StackItemKind::TriggeredAbility {
                            source_id: nadu_id,
                            source_name: CardName::NaduWingedWisdom,
                            effect: TriggeredEffect::NaduTrigger,
                        },
                        nadu_controller,
                        Vec::new(),
                    );
                    proof {
                        assert(is_nadu_item(self.stack.items@.last(), old(self).battlefield@));
                        assert forall|j: int| s0.len() <= j < self.stack.items@.len() implies is_nadu_item(
                            #[trigger] self.stack.items@[j],
                            old(self).battlefield@,
                        ) by {
                            if j < before.len() {
                                assert(self.stack.items@[j] == before[j]);
                            }
                        }
                        assert(self.stack.items@.subrange(0, s0.len() as int) =~= s0) by {
                            assert forall|q: int| 0 <= q < s0.len() implies self.stack.items@[q] == s0[q] by {
                                assert(before.subrange(0, s0.len() as int)[q] == before[q]);
                            }
                        }
                    }
                }
            }
            n = n + 1;
        }
    }
}

} // verus!
