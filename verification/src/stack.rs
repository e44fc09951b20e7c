//! The stack: spells and abilities waiting to resolve. The top is the last item.
use vstd::prelude::*;
use crate::card::CardName;
use crate::types::{ObjectId, PlayerId, Target};

verus! {

/// Effects of triggered abilities.
#[derive(Debug, Clone, Copy, PartialEq, Eq, Structural)]
pub enum TriggeredEffect {
    ManaCryptUpkeep,
    DelverUpkeep { delver_id: ObjectId },
    DealDamage(u16),
    DrawCards(u8),
    GainLife(i32),
    LoseLife(i32),
    SheoldredDraw,
    SheoldredOpponentDraw,
    YoungPyromancerCast,
    MonasteryMentorCast,
    OrcishBowmastersOpponentDraw,
    WurmcoilDeath,
    SkullclampDeath,
    MyrRetrieverDeath,
    GainControlOfPermanent,
    EvokeSacrifice { permanent_id: ObjectId },
    ExileLinkedReturn { card_id: ObjectId, card_owner: PlayerId },
    SkyclaveApparitionLeaves { apparition_id: ObjectId, token_mv: u32, opponent: PlayerId },
    MonarchEndStep,
    EmrakulCast,
    CindervinesDamage { target_player: PlayerId },
    LaviniaCounter { spell_id: ObjectId },
    ChaliceCounter { spell_id: ObjectId },
    EidolonDamage { target_player: PlayerId },
    MysticRemoraOpponentCast,
    RoilingVortexFreeCast { target_player: PlayerId },
    NaduTrigger,
    ScrawlingCrawlerCombatDamage,
    ChromaticStarDeath,
    DressDownETB,
    CovetedJewelETB,
    HarshMentorDamage { target_player: PlayerId },
    AvalancheDamage { target_player: PlayerId },
    MagebaneLizardDamage { target_player: PlayerId, damage: u8 },
    GildedDrakeExchange { drake_id: ObjectId },
    OkoExchange,
    SacrificeTarget { permanent_id: ObjectId },
    DressDownSacrifice { permanent_id: ObjectId },
    TheOneRingETB { ring_id: ObjectId },
    RagavanCombatDamage,
    LeovoldTargetDraw,
    RazorkinNeedleheadOpponentDraw,
    BonecrusherGiantTargeted { target_player: PlayerId },
    DarkConfidantUpkeep,
}

/// Effects of activated (non-mana) abilities.
#[derive(Debug, Clone, Copy, PartialEq, Eq, Structural)]
pub enum ActivatedEffect {
    SacrificeForMana { amount: u8 },
    GriselbrandDraw,
    JaceBrainstorm,
    JaceBounce,
    JaceFateseal,
    TeferiBounce,
    DrawCards(u8),
    TopLook,
    UntapArtifact,
    KarakasBounce,
    NarsetMinus,
    WrennPing,
    KarnAnimate,
    KarnWish,
    CyclingDraw,
    DackSteal,
    TezzeretDraw,
    WalkingBallistaAddCounter { ballista_id: ObjectId },
    WalkingBallistaPing { ballista_id: ObjectId },
    TimeVaultExtraTurn,
    TimeVaultUntap { vault_id: ObjectId },
    KrarkClanIronworksSacrifice,
    NecropotencePayLife,
    MysticForgeExile,
    UntapArtifactOrCreature,
    EmryCastArtifact,
    AetherSpellbombBounce,
    AetherSpellbombDraw,
    CryogenRelicStun,
    TormodsCryptExile,
    SoulGuideLanternExile,
    SoulGuideLanternDraw,
    HaywireMiteExile,
    OutlandLiberatorDestroy,
    TopDraw,
    TheOneRingDraw { ring_id: ObjectId },
    DackUltimate,
    WrennUltimate,
    TezzeretUltimate,
    GideonEmblem,
}

/// What a stack item is.
#[derive(Debug, Clone, Copy, PartialEq, Eq, Structural)]
pub enum StackItemKind {
    Spell { card_name: CardName, card_id: ObjectId, cast_via_evoke: bool },
    TriggeredAbility { source_id: ObjectId, source_name: CardName, effect: TriggeredEffect },
    ActivatedAbility { source_id: ObjectId, source_name: CardName, effect: ActivatedEffect },
}

/// An item on the stack.
#[derive(Debug, Clone)]
pub struct StackItem {
    pub id: ObjectId,
    pub kind: StackItemKind,
    pub controller: PlayerId,
    pub targets: Vec<Target>,
    pub cant_be_countered: bool,
    pub x_value: u8,
    pub cast_from_graveyard: bool,
    pub cast_as_adventure: bool,
    pub modes: Vec<u8>,
    pub is_copy: bool,
}

/// The stack, with its own counter for item ids.
#[derive(Debug, Clone)]
pub struct GameStack {
    pub items: Vec<StackItem>,
    pub next_id: ObjectId,
}

/// Index of the first item at or after `k` with id `id`, or -1.
pub open spec fn item_pos_from(s: Seq<StackItem>, id: ObjectId, k: int) -> int
    decreases s.len() - k,
{
    if k < 0 || k >= s.len() {
        -1
    } else if s[k].id == id {
        k
    } else {
        item_pos_from(s, id, k + 1)
    }
}

/// Index of the first item with id `id`, or -1.
pub open spec fn item_pos(s: Seq<StackItem>, id: ObjectId) -> int {
    item_pos_from(s, id, 0)
}

/// `item_pos_from` is -1 (no item from `k` on has the id) or the first such index.
pub proof fn lemma_item_pos_from(s: Seq<StackItem>, id: ObjectId, k: int)
    requires
        0 <= k,
    ensures
        item_pos_from(s, id, k) == -1 <==> forall|j: int| k <= j < s.len() ==> s[j].id != id,
        item_pos_from(s, id, k) != -1 ==> k <= item_pos_from(s, id, k) < s.len()
            && s[item_pos_from(s, id, k)].id == id,
    decreases s.len() - k,
{
    if k < s.len() && s[k].id != id {
        lemma_item_pos_from(s, id, k + 1);
    }
}

impl GameStack {
    /// An empty stack whose first item gets id `start_id`.
    pub fn new(start_id: ObjectId) -> (r: GameStack)
        ensures
            r.items@.len() == 0,
            r.next_id == start_id,
    {
        GameStack { items: Vec::new(), next_id: start_id }
    }

    /// Whether the stack is empty.
    pub fn is_empty(&self) -> (r: bool)
        ensures
            r == (self.items@.len() == 0),
    {
        self.items.len() == 0
    }

    /// Number of items on the stack.
    pub fn len(&self) -> (r: usize)
        ensures
            r == self.items@.len(),
    {
        self.items.len()
    }

    /// All items, bottom first.
    pub fn items(&self) -> (r: &Vec<StackItem>)
        ensures
            r@ == self.items@,
    {
        &self.items
    }

    /// Push a new item with default flags; returns its id. Ids wrap around at `u32::MAX`.
    pub fn push(&mut self, kind: StackItemKind, controller: PlayerId, targets: Vec<Target>) -> (r:
        ObjectId)
        ensures
            r == old(self).next_id,
            final(self).next_id == old(self).next_id.wrapping_add(1),
            final(self).items@ == old(self).items@.push(
                StackItem {
                    id: r,
                    kind,
                    controller,
                    targets,
                    cant_be_countered: false,
                    x_value: 0,
                    cast_from_graveyard: false,
                    cast_as_adventure: false,
                    modes: final(self).items@.last().modes,
                    is_copy: false,
                },
            ),
            final(self).items@.last().modes@.len() == 0,
    {
        let id = self.next_id;
        self.next_id = self.next_id.wrapping_add(1);
        self.items.push(
            StackItem {
                id,
                kind,
                controller,
                targets,
                cant_be_countered: false,
                x_value: 0,
                cast_from_graveyard: false,
                cast_as_adventure: false,
                modes: Vec::new(),
                is_copy: false,
            },
        );
        id
    }

    /// Push an item with explicit flags; returns its id.
    pub fn push_with_flags(
        &mut self,
        kind: StackItemKind,
        controller: PlayerId,
        targets: Vec<Target>,
        cant_be_countered: bool,
        x_value: u8,
        cast_from_graveyard: bool,
        modes: Vec<u8>,
    ) -> (r: ObjectId)
        ensures
            r == old(self).next_id,
            final(self).next_id == old(self).next_id.wrapping_add(1),
            final(self).items@ == old(self).items@.push(
                StackItem {
                    id: r,
                    kind,
                    controller,
                    targets,
                    cant_be_countered,
                    x_value,
                    cast_from_graveyard,
                    cast_as_adventure: false,
                    modes,
                    is_copy: false,
                },
            ),
    {
        let id = self.next_id;
        self.next_id = self.next_id.wrapping_add(1);
        self.items.push(
            StackItem {
                id,
                kind,
                controller,
                targets,
                cant_be_countered,
                x_value,
                cast_from_graveyard,
                cast_as_adventure: false,
                modes,
                is_copy: false,
            },
        );
        id
    }

    /// Pop the top item.
    pub fn pop(&mut self) -> (r: Option<StackItem>)
        ensures
            old(self).items@.len() > 0 ==> r == Some(old(self).items@.last())
                && final(self).items@ == old(self).items@.drop_last(),
            old(self).items@.len() == 0 ==> r is None && final(self).items@ == old(self).items@,
            final(self).next_id == old(self).next_id,
    {
        self.items.pop()
    }

    /// Index of the first item with id `id`.
    pub fn position(&self, id: ObjectId) -> (r: Option<usize>)
        ensures
            r matches Some(i) ==> i == item_pos(self.items@, id),
            r is None ==> item_pos(self.items@, id) == -1,
    {
        let mut i: usize = 0;
        while i < self.items.len()
            invariant
                i <= self.items@.len(),
                item_pos(self.items@, id) == item_pos_from(self.items@, id, i as int),
            decreases self.items@.len() - i,
        {
            if self.items[i].id == id {
                return Some(i);
            }
            i = i + 1;
        }
        None
    }

    /// Remove the first item with id `id`, if any, and return it.
    pub fn remove(&mut self, id: ObjectId) -> (r: Option<StackItem>)
        ensures
            item_pos(old(self).items@, id) == -1 ==> r is None && final(self).items@ == old(
                self,
            ).items@,
            item_pos(old(self).items@, id) != -1 ==> r == Some(
                old(self).items@[item_pos(old(self).items@, id)],
            ) && final(self).items@ == old(self).items@.remove(item_pos(old(self).items@, id)),
            final(self).next_id == old(self).next_id,
    {
        proof {
            lemma_item_pos_from(self.items@, id, 0);
        }
        match self.position(id) {
            Some(i) => Some(self.items.remove(i)),
            None => None,
        }
    }

    /// Push a copy of `template` (a new id, marked as a copy).
    pub fn push_copy(&mut self, template: &StackItem) -> (r: ObjectId)
        ensures
            r == old(self).next_id,
            final(self).next_id == old(self).next_id.wrapping_add(1),
            final(self).items@.len() == old(self).items@.len() + 1,
            forall|i: int| 0 <= i < old(self).items@.len() ==> final(self).items@[i] == old(
                self,
            ).items@[i],
            final(self).items@.last().id == r,
            final(self).items@.last().kind == template.kind,
            final(self).items@.last().controller == template.controller,
            final(self).items@.last().targets@ == template.targets@,
            final(self).items@.last().is_copy,
    {
        let id = self.next_id;
        self.next_id = self.next_id.wrapping_add(1);
        self.items.push(
            StackItem {
                id,
                kind: template.kind,
                controller: template.controller,
                targets: copy_targets(&template.targets),
                cant_be_countered: template.cant_be_countered,
                x_value: template.x_value,
                cast_from_graveyard: template.cast_from_graveyard,
                cast_as_adventure: template.cast_as_adventure,
                modes: copy_modes(&template.modes),
                is_copy: true,
            },
        );
        id
    }
}

/// A copy of a target list.
pub fn copy_targets(v: &Vec<Target>) -> (r: Vec<Target>)
    ensures
        r@ == v@,
{
    let mut r: Vec<Target> = Vec::new();
    let mut i: usize = 0;
    while i < v.len()
        invariant
            i <= v@.len(),
            r@ == v@.subrange(0, i as int),
        decreases v@.len() - i,
    {
        r.push(v[i]);
        i = i + 1;
    }
    assert(r@ =~= v@);
    r
}

/// A copy of a mode list.
pub fn copy_modes(v: &Vec<u8>) -> (r: Vec<u8>)
    ensures
        r@ == v@,
{
    let mut r: Vec<u8> = Vec::new();
    let mut i: usize = 0;
    while i < v.len()
        invariant
            i <= v@.len(),
            r@ == v@.subrange(0, i as int),
        decreases v@.len() - i,
    {
        r.push(v[i]);
        i = i + 1;
    }
    assert(r@ =~= v@);
    r
}

} // verus!
