//! Player actions and continuous-effect records.
use vstd::prelude::*;
use crate::stack::TriggeredEffect;
use crate::types::{Color, Keyword, Keywords, ObjectId, PlayerId, Target};

verus! {

/// What kind of decision the priority player is making.
#[derive(Debug, Clone, Copy, PartialEq, Eq, Structural)]
pub enum ActionContext {
    Priority,
    DeclareAttackers,
    DeclareBlockers,
    MakingChoice,
}

/// An action a player can take.
#[derive(Debug, Clone, PartialEq, Eq)]
pub enum Action {
    PassPriority,
    Concede,
    PlayLand(ObjectId),
    CastSpell { card_id: ObjectId, targets: Vec<Target> },
    ActivateManaAbility { permanent_id: ObjectId, color_choice: Option<Color> },
    ActivateAbility { permanent_id: ObjectId, ability_index: u8, targets: Vec<Target> },
    DeclareAttacker { creature_id: ObjectId },
    ConfirmAttackers,
    DeclareBlocker { blocker_id: ObjectId, attacker_id: ObjectId },
    ConfirmBlockers,
    ChooseCard(ObjectId),
    ChooseColor(Color),
    ChooseNumber(u32),
}

/// An until-end-of-turn effect, recorded so that cleanup can undo it.
#[derive(Debug, Clone, Copy, PartialEq, Eq, Structural)]
pub enum TemporaryEffect {
    ModifyPT { target: ObjectId, power: i16, toughness: i16 },
    GrantKeyword { target: ObjectId, keyword: Keyword },
    RemoveAllAbilities { target: ObjectId, saved_keywords: Keywords },
}

/// When a delayed trigger fires.
#[derive(Debug, Clone, Copy, PartialEq, Eq, Structural)]
pub enum DelayedTriggerCondition {
    AtBeginningOfEndStep { player: PlayerId },
    AtBeginningOfUpkeep { player: PlayerId },
    AtBeginningOfNextEndStep,
    AtBeginningOfNextUpkeep,
}

/// A triggered ability set up to fire later.
#[derive(Debug, Clone, Copy, PartialEq, Eq, Structural)]
pub struct DelayedTrigger {
    pub condition: DelayedTriggerCondition,
    pub effect: TriggeredEffect,
    pub controller: PlayerId,
    pub fires_once: bool,
}

} // verus!
