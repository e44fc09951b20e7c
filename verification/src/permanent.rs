//! Runtime state of a permanent on the battlefield.
use vstd::prelude::*;
use crate::card::{CardName, CreatureType, types_contain};
use crate::types::{CardType, Color, CounterType, Counters, Keyword, Keywords, ObjectId, PlayerId};

verus! {

/// A permanent on the battlefield.
#[derive(Debug, Clone)]
pub struct Permanent {
    pub id: ObjectId,
    pub card_name: CardName,
    pub owner: PlayerId,
    pub controller: PlayerId,
    pub tapped: bool,
    /// Entered the battlefield since its controller's last cleanup (summoning sickness).
    pub entered_this_turn: bool,
    pub damage: i16,
    pub base_power: i16,
    pub base_toughness: i16,
    /// Until-end-of-turn and equipment modifications.
    pub power_mod: i16,
    pub toughness_mod: i16,
    pub loyalty: i16,
    pub counters: Counters,
    pub keywords: Keywords,
    pub card_types: Vec<CardType>,
    pub creature_types: Vec<CreatureType>,
    pub colors: Vec<Color>,
    pub is_token: bool,
    /// For equipment: the creature it is attached to.
    pub attached_to: Option<ObjectId>,
    /// For creatures: the equipment attached to it.
    pub attachments: Vec<ObjectId>,
    /// Does not untap during its controller's untap step.
    pub doesnt_untap: bool,
    /// Showing its back face.
    pub transformed: bool,
    pub attacked_this_turn: bool,
    pub loyalty_activated_this_turn: bool,
}

impl Permanent {
    /// Whether the permanent has card type `t`.
    pub open spec fn has_card_type(self, t: CardType) -> bool {
        self.card_types@.contains(t)
    }

    /// Power: base power plus modifications plus +1/+1 counters minus -1/-1 counters.
    pub open spec fn power_value(self) -> int {
        self.base_power + self.power_mod + self.counters.plus_one - self.counters.minus_one
    }

    /// Toughness: base toughness plus modifications plus +1/+1 counters minus -1/-1 counters.
    pub open spec fn toughness_value(self) -> int {
        self.base_toughness + self.toughness_mod + self.counters.plus_one
            - self.counters.minus_one
    }

    /// A new permanent as it enters the battlefield: untapped, undamaged, summoning-sick,
    /// no counters, base stats from the given values (missing values count as 0).
    pub fn new(
        id: ObjectId,
        card_name: CardName,
        owner: PlayerId,
        controller: PlayerId,
        power: Option<i16>,
        toughness: Option<i16>,
        loyalty: Option<i16>,
        keywords: Keywords,
        card_types: &[CardType],
    ) -> (r: Permanent)
        ensures
            r.id == id,
            r.card_name == card_name,
            r.owner == owner,
            r.controller == controller,
            !r.tapped,
            r.entered_this_turn,
            r.damage == 0,
            r.base_power == (match power { Some(p) => p, None => 0 }),
            r.base_toughness == (match toughness { Some(t) => t, None => 0 }),
            r.power_mod == 0,
            r.toughness_mod == 0,
            r.loyalty == (match loyalty { Some(l) => l, None => 0 }),
            forall|c: CounterType| #[trigger] r.counters.count(c) == 0,
            r.keywords == keywords,
            r.card_types@ == card_types@,
            r.creature_types@.len() == 0,
            r.colors@.len() == 0,
            !r.is_token,
            r.attached_to is None,
            r.attachments@.len() == 0,
            !r.doesnt_untap,
            !r.transformed,
            !r.attacked_this_turn,
            !r.loyalty_activated_this_turn,
    {
        Permanent {
            id,
            card_name,
            owner,
            controller,
            tapped: false,
            entered_this_turn: true,
            damage: 0,
            base_power: match power {
                Some(p) => p,
                None => 0,
            },
            base_toughness: match toughness {
                Some(t) => t,
                None => 0,
            },
            power_mod: 0,
            toughness_mod: 0,
            loyalty: match loyalty {
                Some(l) => l,
                None => 0,
            },
            counters: Counters::new(),
            keywords,
            card_types: vstd::slice::slice_to_vec(card_types),
            creature_types: Vec::new(),
            colors: Vec::new(),
            is_token: false,
            attached_to: None,
            attachments: Vec::new(),
            doesnt_untap: false,
            transformed: false,
            attacked_this_turn: false,
            loyalty_activated_this_turn: false,
        }
    }

    /// Whether the permanent has card type `t`.
    pub fn has_type(&self, t: CardType) -> (r: bool)
        ensures
            r == self.has_card_type(t),
    {
        types_contain(&self.card_types, t)
    }

    pub fn is_creature(&self) -> (r: bool)
        ensures
            r == self.has_card_type(CardType::Creature),
    {
        self.has_type(CardType::Creature)
    }

    pub fn is_land(&self) -> (r: bool)
        ensures
            r == self.has_card_type(CardType::Land),
    {
        self.has_type(CardType::Land)
    }

    pub fn is_artifact(&self) -> (r: bool)
        ensures
            r == self.has_card_type(CardType::Artifact),
    {
        self.has_type(CardType::Artifact)
    }

    pub fn is_enchantment(&self) -> (r: bool)
        ensures
            r == self.has_card_type(CardType::Enchantment),
    {
        self.has_type(CardType::Enchantment)
    }

    pub fn is_planeswalker(&self) -> (r: bool)
        ensures
            r == self.has_card_type(CardType::Planeswalker),
    {
        self.has_type(CardType::Planeswalker)
    }

    /// Current power.
    pub fn power(&self) -> (r: i16)
        requires
            i16::MIN <= self.power_value() <= i16::MAX,
            i16::MIN <= self.base_power + self.power_mod <= i16::MAX,
            i16::MIN <= self.base_power + self.power_mod + self.counters.plus_one <= i16::MAX,
        ensures
            r == self.power_value(),
    {
        self.base_power + self.power_mod + self.counters.get(CounterType::PlusOnePlusOne)
            - self.counters.get(CounterType::MinusOneMinusOne)
    }

    /// Current toughness.
    pub fn toughness(&self) -> (r: i16)
        requires
            i16::MIN <= self.toughness_value() <= i16::MAX,
            i16::MIN <= self.base_toughness + self.toughness_mod <= i16::MAX,
            i16::MIN <= self.base_toughness + self.toughness_mod + self.counters.plus_one
                <= i16::MAX,
        ensures
            r == self.toughness_value(),
    {
        self.base_toughness + self.toughness_mod + self.counters.get(
            CounterType::PlusOnePlusOne,
        ) - self.counters.get(CounterType::MinusOneMinusOne)
    }

    /// End-of-turn cleanup: damage wears off and per-turn flags reset.
    pub fn end_of_turn_cleanup(&mut self)
        ensures
            *final(self) == (Permanent {
                damage: 0,
                entered_this_turn: false,
                attacked_this_turn: false,
                loyalty_activated_this_turn: false,
                ..*old(self)
            }),
    {
        self.damage = 0;
        self.entered_this_turn = false;
        self.attacked_this_turn = false;
        self.loyalty_activated_this_turn = false;
    }

    /// Whether it may be declared as an attacker.
    pub open spec fn may_attack(self) -> bool {
        &&& self.has_card_type(CardType::Creature)
        &&& !self.tapped
        &&& (!self.entered_this_turn || self.keywords.holds(Keyword::Haste))
        &&& !self.keywords.holds(Keyword::Defender)
    }

    /// An untapped creature that is not summoning-sick (or has haste) and has no defender.
    pub fn can_attack(&self) -> (r: bool)
        ensures
            r == self.may_attack(),
    {
        self.is_creature() && !self.tapped && (!self.entered_this_turn || self.keywords.has(
            Keyword::Haste,
        )) && !self.keywords.has(Keyword::Defender)
    }

    /// An untapped creature can block.
    pub fn can_block(&self) -> (r: bool)
        ensures
            r == (self.has_card_type(CardType::Creature) && !self.tapped),
    {
        self.is_creature() && !self.tapped
    }

    /// Only creatures with flying or reach can block a flyer.
    pub fn can_block_flyer(&self) -> (r: bool)
        ensures
            r == (self.keywords.holds(Keyword::Flying) || self.keywords.holds(Keyword::Reach)),
    {
        self.keywords.has(Keyword::Flying) || self.keywords.has(Keyword::Reach)
    }
}

} // verus!
