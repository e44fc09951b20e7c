# engine_rust

A game engine for Magic: The Gathering built around a Vintage cube, written in Verus.
The rules engine (mana, casting, the stack, priority, turn structure, state-based
actions, triggers and the effects of cards) lives in `src/` and every function there is
verified against its contract; there is no unverified application code.

## Coverage

The card pool is covered in part. Cards, triggered effects and activated effects whose
names are in `CardName`, `TriggeredEffect` and `ActivatedEffect` are modelled; a card in
`CardName` whose resolution is not modelled resolves with no effect, and its contract
(`spell_effect`, `trigger_effect`, `activated_effect`, `etb_handled`) says exactly that.
Move generation does not offer an instant or sorcery whose resolution is not modelled.

## Numeric room

Overflow is ruled out by `GameState::within(k)`: room for `k` (at most 4) more steps of
play. Power, toughness, damage, loyalty and counters are `i16` and power and toughness are
sums of four of them, so each stays within 8000; one step moves a stat by at most
`stat_step()` (1000), which also bounds card definitions' stats and one hit of damage to a
permanent. Life totals and per-turn counts have room of 2^30, one step moving them by at
most 2^27.
Cards of the cube that are not in `CardName` at all cannot be put into a game.

## Layout

- `src/mana.rs`: mana pools, costs and the cost parser.
- `src/card.rs`, `src/permanent.rs`, `src/player.rs`, `src/stack.rs`, `src/types.rs`,
  `src/action.rs`: the data model.
- `src/game/`: the game state and its rules, one module per area (resolution of spells
  and abilities, state-based actions, triggers, zones, equipment, entering the
  battlefield, bounds used to rule out overflow).
- `src/movegen.rs`: the legal actions of a state.
- `src/apply.rs`: applying an action.
- `tests/`: executable tests.
