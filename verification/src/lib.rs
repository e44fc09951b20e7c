//! A Magic: The Gathering rules engine with verified game logic.
//!
//! - `types`: shared identifiers and small enums (players, objects, colors, phases)
//! - `mana`: mana pools, mana costs and payment
//! - `card`: card names and the static card database
//! - `permanent`: runtime state of a permanent on the battlefield
//! - `player`: player state (life, hand, library, graveyard)
//! - `stack`: the stack of spells and abilities
//! - `action`: legal actions and continuous-effect records
//! - `game`: the central game state, turn structure, triggers, resolution
//! - `movegen`: legal-action generation
//! - `apply`: applying an action to the game state
pub mod types;
pub mod mana;
pub mod card;
pub mod permanent;
pub mod player;
pub mod stack;
pub mod action;
pub mod game;
pub mod movegen;
pub mod apply;
