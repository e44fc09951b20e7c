//! Move generation: the legal actions of the priority player, and applying an action.
use vstd::prelude::*;
use crate::card::{CardDef, CardName, types_contain, lookup, has_type, find_card, colors_contain};
use crate::game::registered_name;
use crate::game::{ChoiceKind, GameState, PendingChoice, perm_pos, lemma_perm_pos};
use crate::action::Action;
use crate::game::queries::name_on_battlefield;
use crate::mana::{ManaCost, ManaPool};
use crate::permanent::Permanent;
use crate::player::Player;
use crate::stack::{StackItem, copy_targets};
use crate::types::{CardType, Color, Keyword, ObjectId, Phase, PlayerId, Target};

verus! {

/// Whether `name` is a basic land.
pub open spec fn basic_land(name: CardName) -> bool {
    match name {
        CardName::Plains | CardName::Island | CardName::Swamp | CardName::Mountain | CardName::Forest => true,
        _ => false,
    }
}

/// Whether the fetch land `fetch` can find a land named `target`.
pub open spec fn fetchable(fetch: CardName, target: CardName) -> bool {
    match fetch {
        CardName::FloodedStrand => match target {
            CardName::Plains | CardName::Island | CardName::Tundra | CardName::Savannah | CardName::Scrubland
            | CardName::UndergroundSea | CardName::VolcanicIsland | CardName::TropicalIsland => true,
            _ => false,
        },
        CardName::PollutedDelta => match target {
            CardName::Island | CardName::Swamp | CardName::UndergroundSea | CardName::TropicalIsland
            | CardName::VolcanicIsland | CardName::Badlands | CardName::Bayou | CardName::Tundra => true,
            _ => false,
        },
        CardName::BloodstainedMire => match target {
            CardName::Swamp | CardName::Mountain | CardName::Badlands | CardName::UndergroundSea | CardName::Bayou
            | CardName::VolcanicIsland | CardName::Plateau | CardName::Taiga => true,
            _ => false,
        },
        CardName::WoodedFoothills => match target {
            CardName::Mountain | CardName::Forest | CardName::Taiga | CardName::VolcanicIsland | CardName::Plateau
            | CardName::Badlands | CardName::Bayou | CardName::Savannah | CardName::TropicalIsland => true,
            _ => false,
        },
        CardName::WindsweptHeath => match target {
            CardName::Forest | CardName::Plains | CardName::Savannah | CardName::TropicalIsland | CardName::Bayou
            | CardName::Taiga | CardName::Tundra | CardName::Plateau | CardName::Scrubland => true,
            _ => false,
        },
        CardName::MistyRainforest => match target {
            CardName::Forest | CardName::Island | CardName::TropicalIsland | CardName::Bayou | CardName::Savannah
            | CardName::Taiga | CardName::UndergroundSea | CardName::VolcanicIsland | CardName::Tundra => true,
            _ => false,
        },
        CardName::ScaldingTarn => match target {
            CardName::Island | CardName::Mountain | CardName::VolcanicIsland | CardName::UndergroundSea
            | CardName::TropicalIsland | CardName::Tundra | CardName::Badlands | CardName::Plateau | CardName::Taiga => true,
            _ => false,
        },
        CardName::VerdantCatacombs => match target {
            CardName::Swamp | CardName::Forest | CardName::Bayou | CardName::UndergroundSea | CardName::Badlands
            | CardName::TropicalIsland | CardName::Savannah | CardName::Taiga => true,
            _ => false,
        },
        CardName::AridMesa => match target {
            CardName::Mountain | CardName::Plains | CardName::Plateau | CardName::VolcanicIsland | CardName::Badlands
            | CardName::Taiga | CardName::Tundra | CardName::Savannah | CardName::Scrubland => true,
            _ => false,
        },
        CardName::MarshFlats => match target {
            CardName::Plains | CardName::Swamp | CardName::Scrubland | CardName::Tundra | CardName::Savannah
            | CardName::Plateau | CardName::UndergroundSea | CardName::Badlands | CardName::Bayou => true,
            _ => false,
        },
        _ => false,
    }
}

/// Whether an opponent of `controller` controls a permanent named `name`.
pub open spec fn opponent_has(bf: Seq<Permanent>, name: CardName, controller: PlayerId) -> bool {
    exists|i: int| 0 <= i < bf.len() && #[trigger] bf[i].card_name == name && bf[i].controller != controller
}

/// Whether an untapped Trinisphere is on the battlefield.
pub open spec fn trinisphere_on(bf: Seq<Permanent>) -> bool {
    exists|i: int| 0 <= i < bf.len() && #[trigger] bf[i].card_name == CardName::Trinisphere && !bf[i].tapped
}

/// The cost of casting a card with definition `def` for `controller`: an opponent's Thalia
/// taxes noncreature spells {1}, an opponent's Lodestone Golem taxes nonartifact spells
/// {1}, and an untapped Trinisphere raises the total to 3.
pub open spec fn cost_with_taxes(bf: Seq<Permanent>, def: CardDef, controller: PlayerId) -> ManaCost {
    let c0 = def.mana_cost;
    let c1 = if opponent_has(bf, CardName::ThaliaGuardianOfThraben, controller)
        && !def.card_types@.contains(CardType::Creature) {
        ManaCost { generic: (c0.generic + 1) as u8, ..c0 }
    } else {
        c0
    };
    let c2 = if opponent_has(bf, CardName::LodestoneGolem, controller) && !def.card_types@.contains(CardType::Artifact) {
        ManaCost { generic: (c1.generic + 1) as u8, ..c1 }
    } else {
        c1
    };
    if trinisphere_on(bf) && c2.value() < 3 {
        ManaCost { generic: (3 - (c2.value() - c2.generic)) as u8, ..c2 }
    } else {
        c2
    }
}

/// Number of artifacts `player` controls.
pub open spec fn artifact_count(bf: Seq<Permanent>, player: PlayerId) -> nat {
    bf.filter(|p: Permanent| p.controller == player && p.has_card_type(CardType::Artifact)).len()
}

/// The mana choices a permanent's mana ability offers.
pub open spec fn mana_options(bf: Seq<Permanent>, p: Permanent) -> Seq<Option<Color>> {
    match p.card_name {
        CardName::Plains => seq![Some(Color::White)],
        CardName::Island => seq![Some(Color::Blue)],
        CardName::Swamp => seq![Some(Color::Black)],
        CardName::Mountain => seq![Some(Color::Red)],
        CardName::Forest => seq![Some(Color::Green)],
        CardName::UndergroundSea => seq![Some(Color::Blue), Some(Color::Black)],
        CardName::VolcanicIsland => seq![Some(Color::Blue), Some(Color::Red)],
        CardName::Tundra => seq![Some(Color::White), Some(Color::Blue)],
        CardName::TropicalIsland => seq![Some(Color::Blue), Some(Color::Green)],
        CardName::Badlands => seq![Some(Color::Black), Some(Color::Red)],
        CardName::Bayou => seq![Some(Color::Black), Some(Color::Green)],
        CardName::Plateau => seq![Some(Color::Red), Some(Color::White)],
        CardName::Savannah => seq![Some(Color::Green), Some(Color::White)],
        CardName::Scrubland => seq![Some(Color::White), Some(Color::Black)],
        CardName::Taiga => seq![Some(Color::Red), Some(Color::Green)],
        CardName::MoxPearl => seq![Some(Color::White)],
        CardName::MoxSapphire => seq![Some(Color::Blue)],
        CardName::MoxJet => seq![Some(Color::Black)],
        CardName::MoxRuby => seq![Some(Color::Red)],
        CardName::MoxEmerald => seq![Some(Color::Green)],
        CardName::SolRing | CardName::ManaCrypt | CardName::AncientTomb | CardName::ManaVault | CardName::GrimMonolith
        | CardName::LibraryOfAlexandria | CardName::StripMine | CardName::Wasteland | CardName::MishrasWorkshop => seq![None],
        CardName::BirdsOfParadise => seq![Some(Color::White), Some(Color::Blue), Some(Color::Black), Some(Color::Red), Some(Color::Green)],
        CardName::TolarianAcademy => if artifact_count(bf, p.controller) > 0 { seq![Some(Color::Blue)] } else { Seq::empty() },
        _ => Seq::empty(),
    }
}

/// What tapping permanent `p` for mana gives: (kind of mana, amount, life paid), or `None`
/// when it has no such ability (or Tolarian Academy counts no artifacts).
pub open spec fn mana_yield(bf: Seq<Permanent>, p: Permanent, color: Option<Color>) -> Option<(Option<Color>, int, int)> {
    match p.card_name {
        CardName::Plains | CardName::Island | CardName::Swamp | CardName::Mountain | CardName::Forest
        | CardName::UndergroundSea | CardName::VolcanicIsland | CardName::Tundra | CardName::TropicalIsland
        | CardName::Badlands | CardName::Bayou | CardName::Plateau | CardName::Savannah | CardName::Scrubland
        | CardName::Taiga | CardName::MoxPearl | CardName::MoxSapphire | CardName::MoxJet | CardName::MoxRuby
        | CardName::MoxEmerald | CardName::BirdsOfParadise => Some((color, 1int, 0int)),
        CardName::SolRing | CardName::ManaCrypt => Some((None, 2int, 0int)),
        CardName::ManaVault | CardName::GrimMonolith | CardName::MishrasWorkshop => Some((None, 3int, 0int)),
        CardName::AncientTomb => Some((None, 2int, 2int)),
        CardName::StripMine | CardName::Wasteland | CardName::LibraryOfAlexandria => Some((None, 1int, 0int)),
        CardName::TolarianAcademy => {
            let n = (artifact_count(bf, p.controller) as u8) as int;
            if n == 0 { None } else { Some((Some(Color::Blue), n, 0int)) }
        },
        _ => None,
    }
}

/// Whether a mana ability of permanent `id` can be used now: it is there, untapped, and
/// not an artifact while Collector Ouphe is on the battlefield.
pub open spec fn mana_usable(bf: Seq<Permanent>, id: ObjectId) -> bool {
    let i = perm_pos(bf, id);
    &&& i >= 0
    &&& !bf[i].tapped
    &&& !(bf[i].has_card_type(CardType::Artifact) && name_on_battlefield(bf, CardName::CollectorOuphe))
}

/// `g1` is `g0` after tapping permanent `id` for mana (see `activate_mana_ability`); `r`
/// tells whether it happened.
pub open spec fn mana_tapped(g0: GameState, g1: GameState, id: ObjectId, color: Option<Color>, r: bool) -> bool {
    let bf = g0.battlefield@;
    let i = perm_pos(bf, id);
    if !mana_usable(bf, id) || mana_yield(bf, bf[i], color) is None {
        !r && g1 == g0
    } else {
        let (kind, n, loss) = mana_yield(bf, bf[i], color)->0;
        let c = bf[i].controller as int;
        let p0 = g0.players@[c];
        &&& r
        &&& g1.battlefield@ == bf.update(i, Permanent { tapped: true, ..bf[i] })
        &&& g1.players@ == g0.players@.update(c, Player {
            mana_pool: p0.mana_pool.with_amount(kind, (p0.mana_pool.amount(kind) + n) as u8),
            life: (p0.life - loss) as i32,
            ..p0
        })
        &&& g1 == (GameState { battlefield: g1.battlefield, players: g1.players, ..g0 })
    }
}

/// The mana a mana ability of `id` would add fits in the pool, and the life it costs fits.
pub open spec fn mana_fits(g: GameState, id: ObjectId, color: Option<Color>) -> bool {
    let bf = g.battlefield@;
    let i = perm_pos(bf, id);
    mana_usable(bf, id) && mana_yield(bf, bf[i], color) is Some ==> {
        let (kind, n, loss) = mana_yield(bf, bf[i], color)->0;
        let p = g.players@[bf[i].controller as int];
        &&& bf[i].controller < g.players@.len()
        &&& p.mana_pool.amount(kind) + n <= u8::MAX
        &&& p.life - loss >= i32::MIN
    }
}

impl GameState {
    /// Whether a permanent is a basic land.
    pub fn is_basic_land(&self, perm: &Permanent) -> (r: bool)
        ensures
            r == basic_land(perm.card_name),
    {
        match perm.card_name {
            CardName::Plains | CardName::Island | CardName::Swamp | CardName::Mountain | CardName::Forest => true,
            _ => false,
        }
    }

    /// Whether the fetch land `fetch` can find a land named `target`.
    pub fn is_fetchable(&self, fetch: CardName, target: CardName) -> (r: bool)
        ensures
            r == fetchable(fetch, target),
    {
        match fetch {
            CardName::FloodedStrand => match target {
                CardName::Plains | CardName::Island | CardName::Tundra | CardName::Savannah | CardName::Scrubland
                | CardName::UndergroundSea | CardName::VolcanicIsland | CardName::TropicalIsland => true,
                _ => false,
            },
            CardName::PollutedDelta => match target {
                CardName::Island | CardName::Swamp | CardName::UndergroundSea | CardName::TropicalIsland
                | CardName::VolcanicIsland | CardName::Badlands | CardName::Bayou | CardName::Tundra => true,
                _ => false,
            },
            CardName::BloodstainedMire => match target {
                CardName::Swamp | CardName::Mountain | CardName::Badlands | CardName::UndergroundSea | CardName::Bayou
                | CardName::VolcanicIsland | CardName::Plateau | CardName::Taiga => true,
                _ => false,
            },
            CardName::WoodedFoothills => match target {
                CardName::Mountain | CardName::Forest | CardName::Taiga | CardName::VolcanicIsland | CardName::Plateau
                | CardName::Badlands | CardName::Bayou | CardName::Savannah | CardName::TropicalIsland => true,
                _ => false,
            },
            CardName::WindsweptHeath => match target {
                CardName::Forest | CardName::Plains | CardName::Savannah | CardName::TropicalIsland | CardName::Bayou
                | CardName::Taiga | CardName::Tundra | CardName::Plateau | CardName::Scrubland => true,
                _ => false,
            },
            CardName::MistyRainforest => match target {
                CardName::Forest | CardName::Island | CardName::TropicalIsland | CardName::Bayou | CardName::Savannah
                | CardName::Taiga | CardName::UndergroundSea | CardName::VolcanicIsland | CardName::Tundra => true,
                _ => false,
            },
            CardName::ScaldingTarn => match target {
                CardName::Island | CardName::Mountain | CardName::VolcanicIsland | CardName::UndergroundSea
                | CardName::TropicalIsland | CardName::Tundra | CardName::Badlands | CardName::Plateau | CardName::Taiga => true,
                _ => false,
            },
            CardName::VerdantCatacombs => match target {
                CardName::Swamp | CardName::Forest | CardName::Bayou | CardName::UndergroundSea | CardName::Badlands
                | CardName::TropicalIsland | CardName::Savannah | CardName::Taiga => true,
                _ => false,
            },
            CardName::AridMesa => match target {
                CardName::Mountain | CardName::Plains | CardName::Plateau | CardName::VolcanicIsland | CardName::Badlands
                | CardName::Taiga | CardName::Tundra | CardName::Savannah | CardName::Scrubland => true,
                _ => false,
            },
            CardName::MarshFlats => match target {
                CardName::Plains | CardName::Swamp | CardName::Scrubland | CardName::Tundra | CardName::Savannah
                | CardName::Plateau | CardName::UndergroundSea | CardName::Badlands | CardName::Bayou => true,
                _ => false,
            },
            _ => false,
        }
    }

    /// Whether an opponent of `controller` controls a permanent named `name`.
    fn opponent_controls(&self, name: CardName, controller: PlayerId) -> (r: bool)
        ensures
            r == opponent_has(self.battlefield@, name, controller),
    {
        let mut i: usize = 0;
        while i < self.battlefield.len()
            invariant
                i <= self.battlefield@.len(),
                forall|j: int| 0 <= j < i ==> !(#[trigger] self.battlefield@[j].card_name == name && self.battlefield@[j].controller != controller),
            decreases self.battlefield@.len() - i,
        {
            if self.battlefield[i].card_name == name && self.battlefield[i].controller != controller {
                return true;
            }
            i = i + 1;
        }
        false
    }

    /// Whether an untapped Trinisphere is on the battlefield.
    fn untapped_trinisphere(&self) -> (r: bool)
        ensures
            r == trinisphere_on(self.battlefield@),
    {
        let mut i: usize = 0;
        while i < self.battlefield.len()
            invariant
                i <= self.battlefield@.len(),
                forall|j: int| 0 <= j < i ==> !(#[trigger] self.battlefield@[j].card_name == CardName::Trinisphere && !self.battlefield@[j].tapped),
            decreases self.battlefield@.len() - i,
        {
            if self.battlefield[i].card_name == CardName::Trinisphere && !self.battlefield[i].tapped {
                return true;
            }
            i = i + 1;
        }
        false
    }

    /// The cost of casting `def` for `controller` after taxes (see `cost_with_taxes`).
    pub fn effective_cost(&self, def: &CardDef, controller: PlayerId) -> (cost: ManaCost)
        requires
            def.mana_cost.value() <= 253,
        ensures
            cost == cost_with_taxes(self.battlefield@, *def, controller),
    {
        let mut cost = def.mana_cost;
        let thalia_active = self.opponent_controls(CardName::ThaliaGuardianOfThraben, controller);
        if thalia_active && !types_contain(&def.card_types, CardType::Creature) {
            cost.generic = cost.generic + 1;
        }
        let lodestone_active = self.opponent_controls(CardName::LodestoneGolem, controller);
        if lodestone_active && !types_contain(&def.card_types, CardType::Artifact) {
            cost.generic = cost.generic + 1;
        }
        let trinisphere_active = self.untapped_trinisphere();
        if trinisphere_active && cost.cmc() < 3 {
            cost.generic = 3 - (cost.cmc() - cost.generic);
        }
        cost
    }

    /// The mana choices a permanent's mana ability offers.
    pub fn mana_ability_options(&self, perm: &Permanent) -> (r: Vec<Option<Color>>)
        ensures
            r@ == mana_options(self.battlefield@, *perm),
    {
        let r = match perm.card_name {
            CardName::Plains => vec![Some(Color::White)],
            CardName::Island => vec![Some(Color::Blue)],
            CardName::Swamp => vec![Some(Color::Black)],
            CardName::Mountain => vec![Some(Color::Red)],
            CardName::Forest => vec![Some(Color::Green)],
            CardName::UndergroundSea => vec![Some(Color::Blue), Some(Color::Black)],
            CardName::VolcanicIsland => vec![Some(Color::Blue), Some(Color::Red)],
            CardName::Tundra => vec![Some(Color::White), Some(Color::Blue)],
            CardName::TropicalIsland => vec![Some(Color::Blue), Some(Color::Green)],
            CardName::Badlands => vec![Some(Color::Black), Some(Color::Red)],
            CardName::Bayou => vec![Some(Color::Black), Some(Color::Green)],
            CardName::Plateau => vec![Some(Color::Red), Some(Color::White)],
            CardName::Savannah => vec![Some(Color::Green), Some(Color::White)],
            CardName::Scrubland => vec![Some(Color::White), Some(Color::Black)],
            CardName::Taiga => vec![Some(Color::Red), Some(Color::Green)],
            CardName::MoxPearl => vec![Some(Color::White)],
            CardName::MoxSapphire => vec![Some(Color::Blue)],
            CardName::MoxJet => vec![Some(Color::Black)],
            CardName::MoxRuby => vec![Some(Color::Red)],
            CardName::MoxEmerald => vec![Some(Color::Green)],
            CardName::SolRing | CardName::ManaCrypt | CardName::AncientTomb | CardName::ManaVault | CardName::GrimMonolith
            | CardName::LibraryOfAlexandria | CardName::StripMine | CardName::Wasteland | CardName::MishrasWorkshop => vec![None],
            CardName::BirdsOfParadise => vec![Some(Color::White), Some(Color::Blue), Some(Color::Black), Some(Color::Red), Some(Color::Green)],
            CardName::TolarianAcademy => {
                if self.artifacts_controlled_by(perm.controller).len() > 0 {
                    vec![Some(Color::Blue)]
                } else {
                    Vec::new()
                }
            },
            _ => Vec::new(),
        };
        proof { assert(r@ =~= mana_options(self.battlefield@, *perm)); }
        r
    }

    /// Tap a permanent for mana (see `mana_tapped`); returns whether it happened.
    #[verifier::rlimit(50)]
    pub fn activate_mana_ability(&mut self, permanent_id: ObjectId, color_choice: Option<Color>) -> (r: bool)
        requires
            mana_fits(*old(self), permanent_id, color_choice),
        ensures
            mana_tapped(*old(self), *final(self), permanent_id, color_choice, r),
    {
        let ghost g0 = *self;
        proof { lemma_perm_pos(self.battlefield@, permanent_id); }
        let i = match self.perm_index(permanent_id) {
            Some(i) => i,
            None => return false,
        };
        if self.battlefield[i].tapped {
            return false;
        }
        let controller = self.battlefield[i].controller;
        let card_name = self.battlefield[i].card_name;
        if self.battlefield[i].is_artifact() {
            if self.any_named(CardName::CollectorOuphe) {
                return false;
            }
        }
        let ghost p = self.battlefield@[i as int];
        let (kind, n, loss): (Option<Color>, u8, i32) = match card_name {
            CardName::Plains | CardName::Island | CardName::Swamp | CardName::Mountain | CardName::Forest
            | CardName::UndergroundSea | CardName::VolcanicIsland | CardName::Tundra | CardName::TropicalIsland
            | CardName::Badlands | CardName::Bayou | CardName::Plateau | CardName::Savannah | CardName::Scrubland
            | CardName::Taiga | CardName::MoxPearl | CardName::MoxSapphire | CardName::MoxJet | CardName::MoxRuby
            | CardName::MoxEmerald | CardName::BirdsOfParadise => (color_choice, 1, 0),
            CardName::SolRing | CardName::ManaCrypt => (None, 2, 0),
            CardName::ManaVault | CardName::GrimMonolith | CardName::MishrasWorkshop => (None, 3, 0),
            CardName::AncientTomb => (None, 2, 2),
            CardName::StripMine | CardName::Wasteland | CardName::LibraryOfAlexandria => (None, 1, 0),
            CardName::TolarianAcademy => {
                let artifact_count = self.artifacts_controlled_by(controller).len() as u8;
                if artifact_count == 0 {
                    return false;
                }
                (Some(Color::Blue), artifact_count, 0)
            },
            _ => return false,
        };
        proof {
            assert(mana_yield(g0.battlefield@, p, color_choice) == Some((kind, n as int, loss as int)));
        }
        self.battlefield[i].tapped = true;
        let ghost g1 = *self;
        self.players[controller as usize].mana_pool.add(kind, n);
        if loss != 0 {
            let l = self.players[controller as usize].life - loss;
            self.players[controller as usize].life = l;
        }
        proof {
            let c = controller as int;
            let p0 = g0.players@[c];
            assert(self.battlefield@ =~= g0.battlefield@.update(i as int, Permanent { tapped: true, ..p }));
            assert(self.players@ =~= g0.players@.update(c, Player {
                mana_pool: p0.mana_pool.with_amount(kind, (p0.mana_pool.amount(kind) + n) as u8),
                life: (p0.life - loss) as i32,
                ..p0
            }));
        }
        true
    }
}

} // verus!

verus! {

/// Which permanents an ability or spell may target, by a small selector.
pub open spec fn selected(sel: u8, t: Permanent, src: Permanent) -> bool {
    match sel {
        0 => t.has_card_type(CardType::Land) && t.id != src.id,
        1 => t.has_card_type(CardType::Land) && !basic_land(t.card_name) && t.id != src.id,
        2 => t.has_card_type(CardType::Creature),
        3 => t.has_card_type(CardType::Artifact) || t.has_card_type(CardType::Creature) || t.has_card_type(CardType::Enchantment),
        4 => t.has_card_type(CardType::Artifact) && t.controller != src.controller,
        5 => t.has_card_type(CardType::Artifact) || t.has_card_type(CardType::Enchantment),
        _ => true,
    }
}

/// One ability entry `(index, [that permanent])` per permanent of `bf` the selector allows.
pub open spec fn object_abilities(bf: Seq<Permanent>, sel: u8, src: Permanent, idx: u8) -> Seq<(u8, Seq<Target>)> {
    bf.filter(|t: Permanent| selected(sel, t, src)).map_values(|t: Permanent| (idx, seq![Target::Object(t.id)]))
}

/// Whether `name` is a fetch land.
pub open spec fn fetch_land(name: CardName) -> bool {
    match name {
        CardName::FloodedStrand | CardName::PollutedDelta | CardName::BloodstainedMire | CardName::WoodedFoothills
        | CardName::WindsweptHeath | CardName::MistyRainforest | CardName::ScaldingTarn | CardName::VerdantCatacombs
        | CardName::AridMesa | CardName::MarshFlats => true,
        _ => false,
    }
}

/// The sacrifice abilities of `p` (Black Lotus once per color, Lotus Petal, Lion's Eye
/// Diamond) and a fetch land's ability, when untapped.
pub open spec fn sacrifice_abilities(p: Permanent) -> Seq<(u8, Seq<Target>)> {
    if p.tapped {
        Seq::empty()
    } else if p.card_name == CardName::BlackLotus {
        Seq::new(5, |i: int| (0u8, seq![Target::Player(p.controller)]))
    } else if p.card_name == CardName::LotusPetal || p.card_name == CardName::LionEyeDiamond || fetch_land(p.card_name) {
        seq![(0u8, Seq::<Target>::empty())]
    } else {
        Seq::empty()
    }
}

/// The land-destroying abilities of an untapped Strip Mine or Wasteland.
pub open spec fn land_abilities(bf: Seq<Permanent>, p: Permanent) -> Seq<(u8, Seq<Target>)> {
    if p.tapped {
        Seq::empty()
    } else if p.card_name == CardName::StripMine {
        object_abilities(bf, 0, p, 1)
    } else if p.card_name == CardName::Wasteland {
        object_abilities(bf, 1, p, 1)
    } else {
        Seq::empty()
    }
}

/// The loyalty abilities of planeswalker `p`, at sorcery speed and once per turn.
pub open spec fn loyalty_abilities(bf: Seq<Permanent>, p: Permanent, sorcery_speed: bool) -> Seq<(u8, Seq<Target>)> {
    if !(sorcery_speed && p.has_card_type(CardType::Planeswalker) && !p.loyalty_activated_this_turn) {
        Seq::empty()
    } else if p.card_name == CardName::JaceTheMindSculptor {
        (if p.loyalty >= 0 { seq![(0u8, seq![Target::Player((1 - p.controller) as PlayerId)])] } else { Seq::empty() })
            + seq![(1u8, Seq::<Target>::empty())]
            + (if p.loyalty >= 1 { object_abilities(bf, 2, p, 2) } else { Seq::empty() })
    } else if p.card_name == CardName::TeferiTimeRaveler {
        seq![(0u8, Seq::<Target>::empty())] + (if p.loyalty >= 3 { object_abilities(bf, 3, p, 1) } else { Seq::empty() })
    } else if p.card_name == CardName::DackFayden {
        seq![(0u8, seq![Target::Player(p.controller)])] + (if p.loyalty >= 2 { object_abilities(bf, 4, p, 1) } else { Seq::empty() })
    } else {
        Seq::empty()
    }
}

/// The non-mana activated abilities available on `p`, as (ability index, targets).
pub open spec fn abilities_of(bf: Seq<Permanent>, p: Permanent, sorcery_speed: bool) -> Seq<(u8, Seq<Target>)> {
    sacrifice_abilities(p) + land_abilities(bf, p) + loyalty_abilities(bf, p, sorcery_speed)
}

/// The views of a list of (index, targets) pairs.
pub open spec fn pair_views(v: Seq<(u8, Vec<Target>)>) -> Seq<(u8, Seq<Target>)> {
    v.map_values(|e: (u8, Vec<Target>)| (e.0, e.1@))
}

impl GameState {
    /// Append one entry `(idx, [t])` per permanent the selector allows.
    fn push_object_abilities(&self, out: &mut Vec<(u8, Vec<Target>)>, sel: u8, src: &Permanent, idx: u8)
        ensures
            pair_views(final(out)@) == pair_views(old(out)@) + object_abilities(self.battlefield@, sel, *src, idx),
    {
        let ghost f = |t: Permanent| selected(sel, t, *src);
        let ghost m = |t: Permanent| (idx, seq![Target::Object(t.id)]);
        let ghost start = pair_views(out@);
        let mut i: usize = 0;
        while i < self.battlefield.len()
            invariant
                i <= self.battlefield@.len(),
                f == (|t: Permanent| selected(sel, t, *src)),
                m == (|t: Permanent| (idx, seq![Target::Object(t.id)])),
                pair_views(out@) == start + self.battlefield@.subrange(0, i as int).filter(f).map_values(m),
            decreases self.battlefield@.len() - i,
        {
            let t = &self.battlefield[i];
            proof {
                assert(self.battlefield@.subrange(0, i as int + 1) =~= self.battlefield@.subrange(0, i as int).push(*t));
                self.battlefield@.subrange(0, i as int).lemma_filter_push(*t, f);
            }
            let ok = match sel {
                0 => t.is_land() && t.id != src.id,
                1 => t.is_land() && !self.is_basic_land(t) && t.id != src.id,
                2 => t.is_creature(),
                3 => t.is_artifact() || t.is_creature() || t.is_enchantment(),
                4 => t.is_artifact() && t.controller != src.controller,
                5 => t.is_artifact() || t.is_enchantment(),
                _ => true,
            };
            if ok {
                let ghost before = out@;
                out.push((idx, vec![Target::Object(t.id)]));
                proof {
                    let s0 = self.battlefield@.subrange(0, i as int).filter(f);
                    assert(pair_views(out@) =~~= pair_views(before).push((idx, seq![Target::Object(t.id)])));
                    assert(s0.push(*t).map_values(m) =~= s0.map_values(m).push(m(*t)));
                }
            }
            i = i + 1;
        }
        proof {
            assert(self.battlefield@.subrange(0, i as int) =~= self.battlefield@);
        }
    }

    /// The non-mana activated abilities available on `perm` (see `abilities_of`).
    pub fn activatable_abilities(&self, perm: &Permanent, sorcery_speed: bool, db: &[CardDef]) -> (r: Vec<(u8, Vec<Target>)>)
        requires
            perm.controller < 2,
        ensures
            pair_views(r@) == abilities_of(self.battlefield@, *perm, sorcery_speed),
    {
        let _ = db;
        let mut abilities: Vec<(u8, Vec<Target>)> = Vec::new();
        if !perm.tapped {
            match perm.card_name {
                CardName::BlackLotus => {
                    let mut k: usize = 0;
                    while k < 5
                        invariant
                            k <= 5,
                            pair_views(abilities@) == Seq::new(k as nat, |i: int| (0u8, seq![Target::Player(perm.controller)])),
                        decreases 5 - k,
                    {
                        let ghost before = abilities@;
                        abilities.push((0, vec![Target::Player(perm.controller)]));
                        proof {
                            let e = (0u8, seq![Target::Player(perm.controller)]);
                            assert(pair_views(abilities@) =~~= pair_views(before).push(e));
                            assert(Seq::new((k + 1) as nat, |i: int| (0u8, seq![Target::Player(perm.controller)]))
                                =~= Seq::new(k as nat, |i: int| (0u8, seq![Target::Player(perm.controller)])).push(e));
                        }
                        k = k + 1;
                    }
                },
                CardName::LotusPetal | CardName::LionEyeDiamond | CardName::FloodedStrand | CardName::PollutedDelta
                | CardName::BloodstainedMire | CardName::WoodedFoothills | CardName::WindsweptHeath
                | CardName::MistyRainforest | CardName::ScaldingTarn | CardName::VerdantCatacombs | CardName::AridMesa
                | CardName::MarshFlats => {
                    abilities.push((0, Vec::new()));
                    proof { assert(pair_views(abilities@) =~~= seq![(0u8, Seq::<Target>::empty())]); }
                },
                _ => {},
            }
        }
        proof { assert(pair_views(abilities@) =~= sacrifice_abilities(*perm)); }
        let ghost a1 = pair_views(abilities@);
        if !perm.tapped && perm.card_name == CardName::StripMine {
            self.push_object_abilities(&mut abilities, 0, perm, 1);
        } else if !perm.tapped && perm.card_name == CardName::Wasteland {
            self.push_object_abilities(&mut abilities, 1, perm, 1);
        }
        proof { assert(pair_views(abilities@) =~= a1 + land_abilities(self.battlefield@, *perm)); }
        let ghost a2 = pair_views(abilities@);
        if sorcery_speed && perm.is_planeswalker() && !perm.loyalty_activated_this_turn {
            match perm.card_name {
                CardName::JaceTheMindSculptor => {
                    if perm.loyalty >= 0 {
                        abilities.push((0, vec![Target::Player(self.opponent(perm.controller))]));
                    }
                    abilities.push((1, Vec::new()));
                    if perm.loyalty >= 1 {
                        self.push_object_abilities(&mut abilities, 2, perm, 2);
                    }
                },
                CardName::TeferiTimeRaveler => {
                    abilities.push((0, Vec::new()));
                    if perm.loyalty >= 3 {
                        self.push_object_abilities(&mut abilities, 3, perm, 1);
                    }
                },
                CardName::DackFayden => {
                    abilities.push((0, vec![Target::Player(perm.controller)]));
                    if perm.loyalty >= 2 {
                        self.push_object_abilities(&mut abilities, 4, perm, 1);
                    }
                },
                _ => {},
            }
        }
        proof {
            assert(pair_views(abilities@) =~~= a2 + loyalty_abilities(self.battlefield@, *perm, sorcery_speed));
            assert(abilities_of(self.battlefield@, *perm, sorcery_speed) =~= a1 + land_abilities(self.battlefield@, *perm)
                + loyalty_abilities(self.battlefield@, *perm, sorcery_speed));
        }
        abilities
    }
}

} // verus!

verus! {

/// The views of a list of target lists.
pub open spec fn target_views(v: Seq<Vec<Target>>) -> Seq<Seq<Target>> {
    v.map_values(|t: Vec<Target>| t@)
}

/// One target list per player `0..n`.
pub open spec fn player_targets(n: int) -> Seq<Seq<Target>> {
    Seq::new(n as nat, |p: int| seq![Target::Player(p as PlayerId)])
}

/// One target list per permanent the selector allows.
pub open spec fn permanent_targets(bf: Seq<Permanent>, sel: u8, src: Permanent) -> Seq<Seq<Target>> {
    bf.filter(|t: Permanent| selected(sel, t, src)).map_values(|t: Permanent| seq![Target::Object(t.id)])
}

/// One target list per card id.
pub open spec fn id_targets(ids: Seq<ObjectId>) -> Seq<Seq<Target>> {
    ids.map_values(|id: ObjectId| seq![Target::Object(id)])
}

/// One target list per stack item.
pub open spec fn stack_targets(items: Seq<StackItem>) -> Seq<Seq<Target>> {
    items.map_values(|it: StackItem| seq![Target::Object(it.id)])
}

/// One target list per permanent of a kind (the selectors that ignore the source).
pub open spec fn kind_targets(bf: Seq<Permanent>, sel: u8) -> Seq<Seq<Target>> {
    bf.filter(|t: Permanent| selected(sel, t, t)).map_values(|t: Permanent| seq![Target::Object(t.id)])
}

/// The target choices offered when casting `card_name` for `controller`.
pub open spec fn targets_for(g: GameState, card_name: CardName, controller: PlayerId) -> Seq<Seq<Target>> {
    let bf = g.battlefield@;
    let opp = seq![seq![Target::Player((1 - controller) as PlayerId)]];
    match card_name {
        CardName::LightningBolt | CardName::ChainLightning => player_targets(g.num_players as int) + kind_targets(bf, 2),
        CardName::SwordsToPlowshares | CardName::PathToExile => kind_targets(bf, 2),
        CardName::Counterspell | CardName::ManaDrain | CardName::MentalMisstep => stack_targets(g.stack.items@),
        CardName::AncestralRecall => player_targets(g.num_players as int),
        CardName::Thoughtseize | CardName::HymnToTourach | CardName::TendrilsOfAgony => opp,
        CardName::Disenchant => kind_targets(bf, 5),
        CardName::Regrowth => id_targets(g.players@[controller as int].graveyard@),
        CardName::Pyroblast | CardName::RedElementalBlast => kind_targets(bf, 6) + stack_targets(g.stack.items@),
        _ => Seq::empty(),
    }
}

impl GameState {
    /// Append one target list per permanent the selector allows.
    fn push_permanent_targets(&self, out: &mut Vec<Vec<Target>>, sel: u8, src: &Permanent)
        ensures
            target_views(final(out)@) == target_views(old(out)@) + permanent_targets(self.battlefield@, sel, *src),
    {
        let ghost f = |t: Permanent| selected(sel, t, *src);
        let ghost m = |t: Permanent| seq![Target::Object(t.id)];
        let ghost start = target_views(out@);
        let mut i: usize = 0;
        while i < self.battlefield.len()
            invariant
                i <= self.battlefield@.len(),
                f == (|t: Permanent| selected(sel, t, *src)),
                m == (|t: Permanent| seq![Target::Object(t.id)]),
                target_views(out@) == start + self.battlefield@.subrange(0, i as int).filter(f).map_values(m),
            decreases self.battlefield@.len() - i,
        {
            let t = &self.battlefield[i];
            proof {
                assert(self.battlefield@.subrange(0, i as int + 1) =~= self.battlefield@.subrange(0, i as int).push(*t));
                self.battlefield@.subrange(0, i as int).lemma_filter_push(*t, f);
            }
            let ok = match sel {
                0 => t.is_land() && t.id != src.id,
                1 => t.is_land() && !self.is_basic_land(t) && t.id != src.id,
                2 => t.is_creature(),
                3 => t.is_artifact() || t.is_creature() || t.is_enchantment(),
                4 => t.is_artifact() && t.controller != src.controller,
                5 => t.is_artifact() || t.is_enchantment(),
                _ => true,
            };
            if ok {
                let ghost before = out@;
                out.push(vec![Target::Object(t.id)]);
                proof {
                    let s0 = self.battlefield@.subrange(0, i as int).filter(f);
                    assert(target_views(out@) =~~= target_views(before).push(seq![Target::Object(t.id)]));
                    assert(s0.push(*t).map_values(m) =~= s0.map_values(m).push(m(*t)));
                }
            }
            i = i + 1;
        }
        proof { assert(self.battlefield@.subrange(0, i as int) =~= self.battlefield@); }
    }

    /// Append one target list per card of `ids`.
    fn push_id_targets(out: &mut Vec<Vec<Target>>, ids: &Vec<ObjectId>)
        ensures
            target_views(final(out)@) == target_views(old(out)@) + id_targets(ids@),
    {
        let ghost start = target_views(out@);
        let mut i: usize = 0;
        while i < ids.len()
            invariant
                i <= ids@.len(),
                target_views(out@) == start + id_targets(ids@.subrange(0, i as int)),
            decreases ids@.len() - i,
        {
            let ghost before = out@;
            out.push(vec![Target::Object(ids[i])]);
            proof {
                assert(target_views(out@) =~~= target_views(before).push(seq![Target::Object(ids@[i as int])]));
                assert(id_targets(ids@.subrange(0, i as int + 1)) =~~= id_targets(ids@.subrange(0, i as int)).push(seq![Target::Object(ids@[i as int])]));
            }
            i = i + 1;
        }
        proof { assert(ids@.subrange(0, i as int) =~= ids@); }
    }

    /// Append one target list per stack item.
    fn push_stack_targets(&self, out: &mut Vec<Vec<Target>>)
        ensures
            target_views(final(out)@) == target_views(old(out)@) + stack_targets(self.stack.items@),
    {
        let ghost start = target_views(out@);
        let mut i: usize = 0;
        while i < self.stack.items.len()
            invariant
                i <= self.stack.items@.len(),
                target_views(out@) == start + stack_targets(self.stack.items@.subrange(0, i as int)),
            decreases self.stack.items@.len() - i,
        {
            let ghost before = out@;
            out.push(vec![Target::Object(self.stack.items[i].id)]);
            proof {
                let s = self.stack.items@;
                assert(target_views(out@) =~~= target_views(before).push(seq![Target::Object(s[i as int].id)]));
                assert(stack_targets(s.subrange(0, i as int + 1)) =~~= stack_targets(s.subrange(0, i as int)).push(seq![Target::Object(s[i as int].id)]));
            }
            i = i + 1;
        }
        proof { assert(self.stack.items@.subrange(0, i as int) =~= self.stack.items@); }
    }

    /// Append one target list per player `0..n`.
    fn push_player_targets(out: &mut Vec<Vec<Target>>, n: u8)
        ensures
            target_views(final(out)@) == target_views(old(out)@) + player_targets(n as int),
    {
        let ghost start = target_views(out@);
        let mut p: u8 = 0;
        while p < n
            invariant
                p <= n,
                target_views(out@) == start + player_targets(p as int),
            decreases n - p,
        {
            let ghost before = out@;
            out.push(vec![Target::Player(p)]);
            proof {
                assert(target_views(out@) =~~= target_views(before).push(seq![Target::Player(p)]));
                assert(player_targets(p as int + 1) =~~= player_targets(p as int).push(seq![Target::Player(p)]));
            }
            p = p + 1;
        }
    }

    /// The target choices offered when casting `card_name` (see `targets_for`).
    pub fn generate_targets(&self, card_name: CardName, controller: PlayerId, db: &[CardDef]) -> (r: Vec<Vec<Target>>)
        requires
            self.wf(),
            controller < 2,
        ensures
            target_views(r@) == targets_for(*self, card_name, controller),
    {
        let _ = db;
        let no_types: [CardType; 0] = [];
        let src_perm = Permanent::new(0, CardName::Plains, 0, 0, None, None, None, crate::types::Keywords::empty(), &no_types);
        let src = &src_perm;
        proof {
            let bf = self.battlefield@;
            assert((|t: Permanent| selected(2, t, *src)) =~= (|t: Permanent| selected(2, t, t)));
            assert((|t: Permanent| selected(5, t, *src)) =~= (|t: Permanent| selected(5, t, t)));
            assert((|t: Permanent| selected(6, t, *src)) =~= (|t: Permanent| selected(6, t, t)));
            assert(permanent_targets(bf, 2, *src) == kind_targets(bf, 2));
            assert(permanent_targets(bf, 5, *src) == kind_targets(bf, 5));
            assert(permanent_targets(bf, 6, *src) == kind_targets(bf, 6));
        }
        let mut out: Vec<Vec<Target>> = Vec::new();
        proof { assert(target_views(out@) =~= Seq::<Seq<Target>>::empty()); }
        match card_name {
            CardName::LightningBolt | CardName::ChainLightning => {
                Self::push_player_targets(&mut out, self.num_players);
                self.push_permanent_targets(&mut out, 2, src);
            },
            CardName::SwordsToPlowshares | CardName::PathToExile => {
                self.push_permanent_targets(&mut out, 2, src);
            },
            CardName::Counterspell | CardName::ManaDrain | CardName::MentalMisstep => {
                self.push_stack_targets(&mut out);
            },
            CardName::AncestralRecall => {
                Self::push_player_targets(&mut out, self.num_players);
            },
            CardName::Thoughtseize | CardName::HymnToTourach | CardName::TendrilsOfAgony => {
                out.push(vec![Target::Player(self.opponent(controller))]);
                proof { assert(target_views(out@) =~~= seq![seq![Target::Player((1 - controller) as PlayerId)]]); }
            },
            CardName::Disenchant => {
                self.push_permanent_targets(&mut out, 5, src);
            },
            CardName::Regrowth => {
                Self::push_id_targets(&mut out, &self.players[controller as usize].graveyard);
            },
            CardName::Pyroblast | CardName::RedElementalBlast => {
                self.push_permanent_targets(&mut out, 6, src);
                self.push_stack_targets(&mut out);
            },
            _ => {},
        }
        proof { assert(target_views(out@) =~~= targets_for(*self, card_name, controller)); }
        out
    }
}

} // verus!

verus! {

/// A plain view of an action: (kind, first id or number, second id or index, color, targets).
pub open spec fn act_view(a: Action) -> (u8, int, int, Option<Color>, Seq<Target>) {
    match a {
        Action::PassPriority => (0u8, 0int, 0int, None, Seq::empty()),
        Action::Concede => (1u8, 0int, 0int, None, Seq::empty()),
        Action::PlayLand(id) => (2u8, id as int, 0int, None, Seq::empty()),
        Action::CastSpell { card_id, targets } => (3u8, card_id as int, 0int, None, targets@),
        Action::ActivateManaAbility { permanent_id, color_choice } => (4u8, permanent_id as int, 0int, color_choice, Seq::empty()),
        Action::ActivateAbility { permanent_id, ability_index, targets } => (5u8, permanent_id as int, ability_index as int, None, targets@),
        Action::DeclareAttacker { creature_id } => (6u8, creature_id as int, 0int, None, Seq::empty()),
        Action::ConfirmAttackers => (7u8, 0int, 0int, None, Seq::empty()),
        Action::DeclareBlocker { blocker_id, attacker_id } => (8u8, blocker_id as int, attacker_id as int, None, Seq::empty()),
        Action::ConfirmBlockers => (9u8, 0int, 0int, None, Seq::empty()),
        Action::ChooseCard(id) => (10u8, id as int, 0int, None, Seq::empty()),
        Action::ChooseColor(c) => (11u8, 0int, 0int, Some(c), Seq::empty()),
        Action::ChooseNumber(n) => (12u8, n as int, 0int, None, Seq::empty()),
    }
}

/// The views of a list of actions.
pub open spec fn act_views(v: Seq<Action>) -> Seq<(u8, int, int, Option<Color>, Seq<Target>)> {
    v.map_values(|a: Action| act_view(a))
}

/// View of a simple action with one id (or number).
pub open spec fn v1(kind: u8, x: int) -> (u8, int, int, Option<Color>, Seq<Target>) {
    (kind, x, 0int, None, Seq::empty())
}

/// The numbers `n, n + step, ...` up to `max`.
pub open spec fn numbers_from(n: int, max: int, step: int) -> Seq<int>
    decreases (if n <= max { max - n + 1 } else { 0 }),
{
    if step <= 0 || n > max {
        Seq::empty()
    } else {
        seq![n].add(numbers_from(n + step, max, step))
    }
}

/// The step between offered numbers: one, or a tenth of a range wider than 20.
pub open spec fn number_step(min: u32, max: u32) -> int {
    if max - min > 20 { (max - min) / 10 } else { 1 }
}

/// The numbers offered for a choice in `min..=max`: evenly spaced from `min`, and always `max`.
pub open spec fn number_options(min: u32, max: u32) -> Seq<int> {
    let ns = numbers_from(min as int, max as int, number_step(min, max));
    if ns.len() > 0 && ns.last() == max { ns } else { ns.push(max as int) }
}

/// The actions that answer a pending choice.
pub open spec fn choice_actions(kind: ChoiceKind) -> Seq<(u8, int, int, Option<Color>, Seq<Target>)> {
    match kind {
        ChoiceKind::ChooseFromList { options, .. } => options@.map_values(|id: ObjectId| v1(10, id as int)),
        ChoiceKind::ChooseColor { .. } => seq![Color::White, Color::Blue, Color::Black, Color::Red, Color::Green]
            .map_values(|c: Color| (11u8, 0int, 0int, Some(c), Seq::<Target>::empty())),
        ChoiceKind::ChooseNumber { min, max, .. } => number_options(min, max).map_values(|n: int| v1(12, n)),
    }
}

/// Whether creature `id` is already declared as an attacker.
pub open spec fn attacking(attackers: Seq<(ObjectId, PlayerId)>, id: ObjectId) -> bool {
    exists|j: int| 0 <= j < attackers.len() && #[trigger] attackers[j].0 == id
}

/// The attack declarations available, after confirming.
pub open spec fn attacker_actions(g: GameState) -> Seq<(u8, int, int, Option<Color>, Seq<Target>)> {
    seq![v1(7, 0)] + g.battlefield@.filter(|p: Permanent| p.controller == g.active_player && p.may_attack()
        && !attacking(g.attackers@, p.id)).map_values(|p: Permanent| v1(6, p.id as int))
}

/// Whether creature `id` is already blocking.
pub open spec fn blocking(blockers: Seq<(ObjectId, ObjectId)>, id: ObjectId) -> bool {
    exists|j: int| 0 <= j < blockers.len() && #[trigger] blockers[j].0 == id
}

/// Whether `p` may block the attacker `a` on `bf`: the attacker is there, and a flyer
/// needs a blocker with flying or reach.
pub open spec fn may_block(bf: Seq<Permanent>, p: Permanent, a: ObjectId) -> bool {
    let i = perm_pos(bf, a);
    i >= 0 && (bf[i].keywords.holds(Keyword::Flying) ==> p.keywords.holds(Keyword::Flying) || p.keywords.holds(Keyword::Reach))
}

/// The block declarations of permanent `p`.
pub open spec fn blocks_by(g: GameState, p: Permanent) -> Seq<(u8, int, int, Option<Color>, Seq<Target>)> {
    if p.controller == (1 - g.active_player) && p.has_card_type(CardType::Creature) && !p.tapped && !blocking(g.blockers@, p.id) {
        g.attackers@.filter(|a: (ObjectId, PlayerId)| may_block(g.battlefield@, p, a.0))
            .map_values(|a: (ObjectId, PlayerId)| (8u8, p.id as int, a.0 as int, None, Seq::<Target>::empty()))
    } else {
        Seq::empty()
    }
}

/// The block declarations of the first `n` permanents.
pub open spec fn blocks_upto(g: GameState, n: int) -> Seq<(u8, int, int, Option<Color>, Seq<Target>)>
    decreases n,
{
    if n <= 0 { Seq::empty() } else { blocks_upto(g, n - 1) + blocks_by(g, g.battlefield@[n - 1]) }
}

/// The block declarations available, after confirming.
pub open spec fn blocker_actions(g: GameState) -> Seq<(u8, int, int, Option<Color>, Seq<Target>)> {
    seq![v1(9, 0)] + blocks_upto(g, g.battlefield@.len() as int)
}

impl GameState {
    /// The actions that answer a pending choice (see `choice_actions`).
    pub fn generate_choice_actions(&self, choice: &PendingChoice) -> (r: Vec<Action>)
        requires
            choice.kind matches ChoiceKind::ChooseNumber { min, max, .. } ==> min <= max
                && max + number_step(min, max) <= u32::MAX,
        ensures
            act_views(r@) == choice_actions(choice.kind),
    {
        let mut actions: Vec<Action> = Vec::new();
        match &choice.kind {
            ChoiceKind::ChooseFromList { options, .. } => {
                let mut i: usize = 0;
                while i < options.len()
                    invariant
                        i <= options@.len(),
                        act_views(actions@) == options@.subrange(0, i as int).map_values(|id: ObjectId| v1(10, id as int)),
                    decreases options@.len() - i,
                {
                    let ghost before = actions@;
                    actions.push(Action::ChooseCard(options[i]));
                    proof {
                        assert(act_views(actions@) =~= act_views(before).push(v1(10, options@[i as int] as int)));
                        assert(options@.subrange(0, i as int + 1).map_values(|id: ObjectId| v1(10, id as int))
                            =~= options@.subrange(0, i as int).map_values(|id: ObjectId| v1(10, id as int)).push(v1(10, options@[i as int] as int)));
                    }
                    i = i + 1;
                }
                proof { assert(options@.subrange(0, i as int) =~= options@); }
            },
            ChoiceKind::ChooseColor { .. } => {
                actions.push(Action::ChooseColor(Color::White));
                actions.push(Action::ChooseColor(Color::Blue));
                actions.push(Action::ChooseColor(Color::Black));
                actions.push(Action::ChooseColor(Color::Red));
                actions.push(Action::ChooseColor(Color::Green));
                proof {
                    assert(act_views(actions@) =~= seq![Color::White, Color::Blue, Color::Black, Color::Red, Color::Green]
                        .map_values(|c: Color| (11u8, 0int, 0int, Some(c), Seq::<Target>::empty())));
                }
            },
            ChoiceKind::ChooseNumber { min, max, .. } => {
                let min = *min;
                let max = *max;
                let step: u32 = if max - min > 20 { (max - min) / 10 } else { 1 };
                let ghost all = numbers_from(min as int, max as int, step as int);
                let mut n: u32 = min;
                while n <= max
                    invariant
                        min <= n,
                        max + step <= u32::MAX,
                        step >= 1,
                        step == number_step(min, max),
                        all == numbers_from(min as int, max as int, step as int),
                        act_views(actions@).map_values(|v: (u8, int, int, Option<Color>, Seq<Target>)| v.1)
                            + numbers_from(n as int, max as int, step as int) == all,
                        forall|j: int| 0 <= j < actions@.len() ==> (#[trigger] act_views(actions@)[j]).0 == 12u8
                            && act_views(actions@)[j].2 == 0 && act_views(actions@)[j].3 is None && act_views(actions@)[j].4 == Seq::<Target>::empty(),
                        actions@.len() > 0 ==> actions@.last() == Action::ChooseNumber((n - step) as u32),
                    decreases max + step - n,
                {
                    let ghost before = actions@;
                    actions.push(Action::ChooseNumber(n));
                    proof {
                        let f = |v: (u8, int, int, Option<Color>, Seq<Target>)| v.1;
                        assert(act_views(actions@) =~= act_views(before).push(v1(12, n as int)));
                        assert(act_views(actions@).map_values(f) =~= act_views(before).map_values(f).push(n as int));
                        assert(numbers_from(n as int, max as int, step as int) =~= seq![n as int].add(numbers_from(n + step, max as int, step as int)));
                    }
                    n = n + step;
                }
                let ghost views = act_views(actions@);
                proof {
                    let f = |v: (u8, int, int, Option<Color>, Seq<Target>)| v.1;
                    assert(numbers_from(n as int, max as int, step as int) =~= Seq::<int>::empty());
                    assert(views.map_values(f) =~= all);
                    assert(views =~= all.map_values(|k: int| v1(12, k))) by {
                        assert forall|j: int| 0 <= j < views.len() implies views[j] == all.map_values(|k: int| v1(12, k))[j] by {
                            assert(views[j].0 == 12u8);
                            assert(views.map_values(f)[j] == views[j].1);
                        }
                    }
                }
                let last_is_max = match actions.last() {
                    Some(Action::ChooseNumber(x)) => *x == max,
                    _ => false,
                };
                if !last_is_max {
                    actions.push(Action::ChooseNumber(max));
                    proof {
                        assert(act_views(actions@) =~= views.push(v1(12, max as int)));
                    }
                }
                proof {
                    if last_is_max {
                        assert(all.len() > 0 && all.last() == max);
                    } else {
                        if all.len() > 0 {
                            assert(all.last() == views.last().1);
                        }
                    }
                    assert(act_views(actions@) =~= number_options(min, max).map_values(|k: int| v1(12, k)));
                }
            },
        }
        actions
    }
}

} // verus!

verus! {

impl GameState {
    /// Whether creature `id` is already an attacker.
    fn is_attacking(&self, id: ObjectId) -> (r: bool)
        ensures
            r == attacking(self.attackers@, id),
    {
        let mut j: usize = 0;
        while j < self.attackers.len()
            invariant
                j <= self.attackers@.len(),
                forall|k: int| 0 <= k < j ==> (#[trigger] self.attackers@[k]).0 != id,
            decreases self.attackers@.len() - j,
        {
            if self.attackers[j].0 == id {
                return true;
            }
            j = j + 1;
        }
        false
    }

    /// Whether creature `id` is already a blocker.
    fn is_blocking(&self, id: ObjectId) -> (r: bool)
        ensures
            r == blocking(self.blockers@, id),
    {
        let mut j: usize = 0;
        while j < self.blockers.len()
            invariant
                j <= self.blockers@.len(),
                forall|k: int| 0 <= k < j ==> (#[trigger] self.blockers@[k]).0 != id,
            decreases self.blockers@.len() - j,
        {
            if self.blockers[j].0 == id {
                return true;
            }
            j = j + 1;
        }
        false
    }

    /// Confirming, and declaring each eligible creature of the active player that is not
    /// attacking yet (see `attacker_actions`).
    pub fn generate_attacker_actions(&self) -> (r: Vec<Action>)
        ensures
            act_views(r@) == attacker_actions(*self),
    {
        let ghost f = |p: Permanent| p.controller == self.active_player && p.may_attack() && !attacking(self.attackers@, p.id);
        let ghost m = |p: Permanent| v1(6, p.id as int);
        let mut actions: Vec<Action> = Vec::new();
        actions.push(Action::ConfirmAttackers);
        let mut i: usize = 0;
        while i < self.battlefield.len()
            invariant
                i <= self.battlefield@.len(),
                f == (|p: Permanent| p.controller == self.active_player && p.may_attack() && !attacking(self.attackers@, p.id)),
                m == (|p: Permanent| v1(6, p.id as int)),
                act_views(actions@) == seq![v1(7, 0)] + self.battlefield@.subrange(0, i as int).filter(f).map_values(m),
            decreases self.battlefield@.len() - i,
        {
            let p = &self.battlefield[i];
            proof {
                assert(self.battlefield@.subrange(0, i as int + 1) =~= self.battlefield@.subrange(0, i as int).push(*p));
                self.battlefield@.subrange(0, i as int).lemma_filter_push(*p, f);
            }
            if p.controller == self.active_player && p.can_attack() && !self.is_attacking(p.id) {
                let ghost before = actions@;
                actions.push(Action::DeclareAttacker { creature_id: p.id });
                proof {
                    let s0 = self.battlefield@.subrange(0, i as int).filter(f);
                    assert(act_views(actions@) =~= act_views(before).push(v1(6, p.id as int)));
                    assert(s0.push(*p).map_values(m) =~= s0.map_values(m).push(m(*p)));
                }
            }
            i = i + 1;
        }
        proof { assert(self.battlefield@.subrange(0, i as int) =~= self.battlefield@); }
        actions
    }

    /// The block declarations of permanent `p` (see `blocks_by`), appended to `out`.
    fn push_blocks(&self, out: &mut Vec<Action>, p: &Permanent)
        requires
            self.active_player < 2,
        ensures
            act_views(final(out)@) == act_views(old(out)@) + blocks_by(*self, *p),
    {
        let ghost start = act_views(out@);
        if !(p.controller == 1 - self.active_player && p.can_block() && !self.is_blocking(p.id)) {
            proof { assert(act_views(out@) =~= start + blocks_by(*self, *p)); }
            return;
        }
        let ghost f = |a: (ObjectId, PlayerId)| may_block(self.battlefield@, *p, a.0);
        let ghost m = |a: (ObjectId, PlayerId)| (8u8, p.id as int, a.0 as int, None::<Color>, Seq::<Target>::empty());
        let mut j: usize = 0;
        while j < self.attackers.len()
            invariant
                j <= self.attackers@.len(),
                f == (|a: (ObjectId, PlayerId)| may_block(self.battlefield@, *p, a.0)),
                m == (|a: (ObjectId, PlayerId)| (8u8, p.id as int, a.0 as int, None::<Color>, Seq::<Target>::empty())),
                act_views(out@) == start + self.attackers@.subrange(0, j as int).filter(f).map_values(m),
            decreases self.attackers@.len() - j,
        {
            let a = self.attackers[j];
            proof {
                assert(self.attackers@.subrange(0, j as int + 1) =~= self.attackers@.subrange(0, j as int).push(a));
                self.attackers@.subrange(0, j as int).lemma_filter_push(a, f);
                lemma_perm_pos(self.battlefield@, a.0);
            }
            match self.find_permanent(a.0) {
                Some(attacker) => {
                    let can_block = if attacker.keywords.has(Keyword::Flying) { p.can_block_flyer() } else { true };
                    if can_block {
                        let ghost before = out@;
                        out.push(Action::DeclareBlocker { blocker_id: p.id, attacker_id: a.0 });
                        proof {
                            let s0 = self.attackers@.subrange(0, j as int).filter(f);
                            assert(act_views(out@) =~= act_views(before).push(m(a)));
                            assert(s0.push(a).map_values(m) =~= s0.map_values(m).push(m(a)));
                        }
                    }
                },
                None => {},
            }
            j = j + 1;
        }
        proof { assert(self.attackers@.subrange(0, j as int) =~= self.attackers@); }
    }

    /// Confirming, and each block the defending player can still declare (see
    /// `blocker_actions`).
    pub fn generate_blocker_actions(&self) -> (r: Vec<Action>)
        requires
            self.active_player < 2,
        ensures
            act_views(r@) == blocker_actions(*self),
    {
        let mut actions: Vec<Action> = Vec::new();
        actions.push(Action::ConfirmBlockers);
        let mut i: usize = 0;
        while i < self.battlefield.len()
            invariant
                i <= self.battlefield@.len(),
                self.active_player < 2,
                act_views(actions@) == seq![v1(9, 0)] + blocks_upto(*self, i as int),
            decreases self.battlefield@.len() - i,
        {
            self.push_blocks(&mut actions, &self.battlefield[i]);
            proof {
                assert(seq![v1(9, 0)] + blocks_upto(*self, i as int + 1)
                    =~= seq![v1(9, 0)] + blocks_upto(*self, i as int) + blocks_by(*self, self.battlefield@[i as int]));
            }
            i = i + 1;
        }
        actions
    }
}

} // verus!

verus! {

/// The play of land card `id` from hand, if it is a known land.
pub open spec fn land_play(g: GameState, db: Seq<CardDef>, id: ObjectId) -> Seq<(u8, int, int, Option<Color>, Seq<Target>)> {
    match registered_name(g.card_registry@, id) {
        Some(cn) => match lookup(db, cn) {
            Some(d) => if has_type(d.card_types@, CardType::Land) { seq![v1(2, id as int)] } else { Seq::empty() },
            None => Seq::empty(),
        },
        None => Seq::empty(),
    }
}

/// The land plays among the first `n` cards of `hand`.
pub open spec fn lands_upto(g: GameState, db: Seq<CardDef>, hand: Seq<ObjectId>, n: int) -> Seq<(u8, int, int, Option<Color>, Seq<Target>)>
    decreases n,
{
    if n <= 0 { Seq::empty() } else { lands_upto(g, db, hand, n - 1) + land_play(g, db, hand[n - 1]) }
}

/// The ways `pid` can cast card `id` from hand now: a known nonland card at the right speed
/// whose cost after taxes the pool covers, once per target choice (once with no targets
/// when there are none).
pub open spec fn cast_options(g: GameState, db: Seq<CardDef>, pid: PlayerId, id: ObjectId, sorcery_speed: bool) -> Seq<(u8, int, int, Option<Color>, Seq<Target>)> {
    match registered_name(g.card_registry@, id) {
        Some(cn) => match lookup(db, cn) {
            Some(d) => {
                let instant = has_type(d.card_types@, CardType::Instant) || d.keywords.holds(Keyword::Flash);
                if has_type(d.card_types@, CardType::Land) || !(instant || sorcery_speed)
                    || ((has_type(d.card_types@, CardType::Instant) || has_type(d.card_types@, CardType::Sorcery))
                        && !crate::game::resolution::is_modelled_spell(cn))
                    || !g.players@[pid as int].mana_pool.covers(cost_with_taxes(g.battlefield@, d, pid)) {
                    Seq::empty()
                } else {
                    let ts = targets_for(g, cn, pid);
                    if ts.len() == 0 {
                        seq![(3u8, id as int, 0int, None::<Color>, Seq::<Target>::empty())]
                    } else {
                        ts.map_values(|t: Seq<Target>| (3u8, id as int, 0int, None::<Color>, t))
                    }
                }
            },
            None => Seq::empty(),
        },
        None => Seq::empty(),
    }
}

/// The casts among the first `n` cards of `hand`.
pub open spec fn casts_upto(g: GameState, db: Seq<CardDef>, pid: PlayerId, hand: Seq<ObjectId>, sorcery_speed: bool, n: int) -> Seq<(u8, int, int, Option<Color>, Seq<Target>)>
    decreases n,
{
    if n <= 0 { Seq::empty() } else { casts_upto(g, db, pid, hand, sorcery_speed, n - 1) + cast_options(g, db, pid, hand[n - 1], sorcery_speed) }
}

/// Whether card `id` is known and blue.
pub open spec fn blue_card(g: GameState, db: Seq<CardDef>, id: ObjectId) -> bool {
    match registered_name(g.card_registry@, id) {
        Some(cn) => match lookup(db, cn) {
            Some(d) => d.color_identity@.contains(Color::Blue),
            None => false,
        },
        None => false,
    }
}

/// Force of Will cast by its alternate cost (another blue card and 1 life), once per
/// stack item as its target.
pub open spec fn fow_options(g: GameState, db: Seq<CardDef>, pid: PlayerId, hand: Seq<ObjectId>, id: ObjectId) -> Seq<(u8, int, int, Option<Color>, Seq<Target>)> {
    if registered_name(g.card_registry@, id) == Some(CardName::ForceOfWill) && g.stack.items@.len() > 0
        && (exists|j: int| 0 <= j < hand.len() && hand[j] != id && #[trigger] blue_card(g, db, hand[j]))
        && g.players@[pid as int].life > 1 {
        g.stack.items@.map_values(|it: StackItem| (3u8, id as int, 0int, None::<Color>, seq![Target::Object(it.id)]))
    } else {
        Seq::empty()
    }
}

/// The Force of Will casts among the first `n` cards of `hand`.
pub open spec fn fows_upto(g: GameState, db: Seq<CardDef>, pid: PlayerId, hand: Seq<ObjectId>, n: int) -> Seq<(u8, int, int, Option<Color>, Seq<Target>)>
    decreases n,
{
    if n <= 0 { Seq::empty() } else { fows_upto(g, db, pid, hand, n - 1) + fow_options(g, db, pid, hand, hand[n - 1]) }
}

/// The mana abilities of the first `n` permanents that `pid` can use.
pub open spec fn mana_upto(g: GameState, pid: PlayerId, n: int) -> Seq<(u8, int, int, Option<Color>, Seq<Target>)>
    decreases n,
{
    if n <= 0 {
        Seq::empty()
    } else {
        let p = g.battlefield@[n - 1];
        mana_upto(g, pid, n - 1) + if p.controller == pid && !p.tapped {
            mana_options(g.battlefield@, p).map_values(|c: Option<Color>| (4u8, p.id as int, 0int, c, Seq::<Target>::empty()))
        } else {
            Seq::empty()
        }
    }
}

/// The activated abilities of the first `n` permanents that `pid` controls.
pub open spec fn abilities_upto(g: GameState, pid: PlayerId, sorcery_speed: bool, n: int) -> Seq<(u8, int, int, Option<Color>, Seq<Target>)>
    decreases n,
{
    if n <= 0 {
        Seq::empty()
    } else {
        let p = g.battlefield@[n - 1];
        abilities_upto(g, pid, sorcery_speed, n - 1) + if p.controller == pid {
            abilities_of(g.battlefield@, p, sorcery_speed).map_values(|e: (u8, Seq<Target>)| (5u8, p.id as int, e.0 as int, None::<Color>, e.1))
        } else {
            Seq::empty()
        }
    }
}

/// Whether the priority player acts at sorcery speed: a main phase, an empty stack, their turn.
pub open spec fn at_sorcery_speed(g: GameState) -> bool {
    (g.phase == Phase::PreCombatMain || g.phase == Phase::PostCombatMain) && g.stack.items@.len() == 0
        && g.priority_player == g.active_player
}

/// The actions of the priority player: pass, concede, land plays, casts, Force of Will by
/// its alternate cost, mana abilities, other activated abilities.
pub open spec fn priority_actions(g: GameState, db: Seq<CardDef>) -> Seq<(u8, int, int, Option<Color>, Seq<Target>)> {
    let pid = g.priority_player;
    let p = g.players@[pid as int];
    let hand = p.hand@;
    let sorcery = at_sorcery_speed(g);
    let n = g.battlefield@.len() as int;
    seq![v1(0, 0), v1(1, 0)]
        + (if sorcery && p.land_plays_remaining > 0 { lands_upto(g, db, hand, hand.len() as int) } else { Seq::empty() })
        + casts_upto(g, db, pid, hand, sorcery, hand.len() as int)
        + fows_upto(g, db, pid, hand, hand.len() as int)
        + mana_upto(g, pid, n)
        + abilities_upto(g, pid, sorcery, n)
}

} // verus!

verus! {

impl GameState {
    /// The land plays among the cards of `hand` (see `lands_upto`), appended to `out`.
    fn push_land_plays(&self, out: &mut Vec<Action>, db: &[CardDef], hand: &Vec<ObjectId>)
        ensures
            act_views(final(out)@) == act_views(old(out)@) + lands_upto(*self, db@, hand@, hand@.len() as int),
    {
        let ghost start = act_views(out@);
        let mut i: usize = 0;
        while i < hand.len()
            invariant
                i <= hand@.len(),
                act_views(out@) == start + lands_upto(*self, db@, hand@, i as int),
            decreases hand@.len() - i,
        {
            let card_id = hand[i];
            let ghost before = act_views(out@);
            match self.card_name_for_id(card_id) {
                Some(cn) => match find_card(db, cn) {
                    Some(def) => {
                        if types_contain(&def.card_types, CardType::Land) {
                            out.push(Action::PlayLand(card_id));
                            proof { assert(act_views(out@) =~= before.push(v1(2, card_id as int))); }
                        }
                    },
                    None => {},
                },
                None => {},
            }
            proof {
                assert(act_views(out@) =~= before + land_play(*self, db@, card_id));
                assert(start + lands_upto(*self, db@, hand@, i as int + 1)
                    =~= start + lands_upto(*self, db@, hand@, i as int) + land_play(*self, db@, hand@[i as int]));
            }
            i = i + 1;
        }
    }

    /// The ways `pid` can cast card `card_id` (see `cast_options`), appended to `out`.
    fn push_cast_options(&self, out: &mut Vec<Action>, db: &[CardDef], pid: PlayerId, card_id: ObjectId, sorcery_speed: bool)
        requires
            self.wf(),
            pid < 2,
            crate::game::db_ok(db@),
        ensures
            act_views(final(out)@) == act_views(old(out)@) + cast_options(*self, db@, pid, card_id, sorcery_speed),
    {
        let ghost start = act_views(out@);
        proof { assert(start + Seq::empty() =~= start); }
        let cn = match self.card_name_for_id(card_id) {
            Some(cn) => cn,
            None => return,
        };
        let def = match find_card(db, cn) {
            Some(d) => d,
            None => return,
        };
        if types_contain(&def.card_types, CardType::Land) {
            return;
        }
        let instant = types_contain(&def.card_types, CardType::Instant) || def.keywords.has(Keyword::Flash);
        if !(instant || sorcery_speed) {
            return;
        }
        if (types_contain(&def.card_types, CardType::Instant) || types_contain(&def.card_types, CardType::Sorcery))
            && !crate::game::resolution::modelled_spell(cn) {
            return;
        }
        proof { crate::game::abilities::lemma_lookup_ok(db@, cn); }
        let cost = self.effective_cost(def, pid);
        if !self.players[pid as usize].mana_pool.can_pay(&cost) {
            return;
        }
        let target_sets = self.generate_targets(cn, pid, db);
        if target_sets.len() == 0 {
            out.push(Action::CastSpell { card_id, targets: Vec::new() });
            proof {
                assert(act_views(out@) =~= start + seq![(3u8, card_id as int, 0int, None::<Color>, Seq::<Target>::empty())]);
            }
        } else {
            let ghost m = |t: Seq<Target>| (3u8, card_id as int, 0int, None::<Color>, t);
            let mut k: usize = 0;
            while k < target_sets.len()
                invariant
                    k <= target_sets@.len(),
                    m == (|t: Seq<Target>| (3u8, card_id as int, 0int, None::<Color>, t)),
                    act_views(out@) == start + target_views(target_sets@).subrange(0, k as int).map_values(m),
                decreases target_sets@.len() - k,
            {
                let ghost before = act_views(out@);
                let targets = copy_targets(&target_sets[k]);
                out.push(Action::CastSpell { card_id, targets });
                proof {
                    let tv = target_views(target_sets@);
                    assert(act_views(out@) =~= before.push(m(tv[k as int])));
                    assert(tv.subrange(0, k as int + 1).map_values(m) =~= tv.subrange(0, k as int).map_values(m).push(m(tv[k as int])));
                }
                k = k + 1;
            }
            proof {
                assert(target_views(target_sets@).subrange(0, k as int) =~= target_views(target_sets@));
            }
        }
    }

    /// The casts among the cards of `hand` (see `casts_upto`), appended to `out`.
    fn push_casts(&self, out: &mut Vec<Action>, db: &[CardDef], pid: PlayerId, hand: &Vec<ObjectId>, sorcery_speed: bool)
        requires
            self.wf(),
            pid < 2,
            crate::game::db_ok(db@),
        ensures
            act_views(final(out)@) == act_views(old(out)@) + casts_upto(*self, db@, pid, hand@, sorcery_speed, hand@.len() as int),
    {
        let ghost start = act_views(out@);
        let mut i: usize = 0;
        while i < hand.len()
            invariant
                i <= hand@.len(),
                self.wf(),
                pid < 2,
                crate::game::db_ok(db@),
                act_views(out@) == start + casts_upto(*self, db@, pid, hand@, sorcery_speed, i as int),
            decreases hand@.len() - i,
        {
            self.push_cast_options(out, db, pid, hand[i], sorcery_speed);
            proof {
                assert(start + casts_upto(*self, db@, pid, hand@, sorcery_speed, i as int + 1)
                    =~= start + casts_upto(*self, db@, pid, hand@, sorcery_speed, i as int)
                    + cast_options(*self, db@, pid, hand@[i as int], sorcery_speed));
            }
            i = i + 1;
        }
    }

    /// Whether card `id` is known and blue.
    fn is_blue_card(&self, db: &[CardDef], id: ObjectId) -> (r: bool)
        ensures
            r == blue_card(*self, db@, id),
    {
        match self.card_name_for_id(id) {
            Some(cn) => match find_card(db, cn) {
                Some(d) => colors_contain(&d.color_identity, Color::Blue),
                None => false,
            },
            None => false,
        }
    }

    /// Whether `hand` holds a blue card other than `id`.
    fn other_blue_card(&self, db: &[CardDef], hand: &Vec<ObjectId>, id: ObjectId) -> (r: bool)
        ensures
            r == exists|j: int| 0 <= j < hand@.len() && hand@[j] != id && #[trigger] blue_card(*self, db@, hand@[j]),
    {
        let mut j: usize = 0;
        while j < hand.len()
            invariant
                j <= hand@.len(),
                forall|k: int| 0 <= k < j ==> !(hand@[k] != id && #[trigger] blue_card(*self, db@, hand@[k])),
            decreases hand@.len() - j,
        {
            if hand[j] != id && self.is_blue_card(db, hand[j]) {
                return true;
            }
            j = j + 1;
        }
        false
    }

    /// Force of Will by its alternate cost, for card `card_id` (see `fow_options`), appended to `out`.
    fn push_fow_options(&self, out: &mut Vec<Action>, db: &[CardDef], pid: PlayerId, hand: &Vec<ObjectId>, card_id: ObjectId)
        requires
            self.wf(),
            pid < 2,
        ensures
            act_views(final(out)@) == act_views(old(out)@) + fow_options(*self, db@, pid, hand@, card_id),
    {
        let ghost start = act_views(out@);
        proof { assert(start + Seq::empty() =~= start); }
        match self.card_name_for_id(card_id) {
            Some(CardName::ForceOfWill) => {},
            _ => return,
        }
        if self.stack.is_empty() {
            return;
        }
        if !(self.other_blue_card(db, hand, card_id) && self.players[pid as usize].life > 1) {
            return;
        }
        let items = self.stack.items();
        let ghost m = |it: StackItem| (3u8, card_id as int, 0int, None::<Color>, seq![Target::Object(it.id)]);
        let mut k: usize = 0;
        while k < items.len()
            invariant
                k <= items@.len(),
                items@ == self.stack.items@,
                m == (|it: StackItem| (3u8, card_id as int, 0int, None::<Color>, seq![Target::Object(it.id)])),
                act_views(out@) == start + items@.subrange(0, k as int).map_values(m),
            decreases items@.len() - k,
        {
            let ghost before = act_views(out@);
            let mut targets: Vec<Target> = Vec::new();
            targets.push(Target::Object(items[k].id));
            out.push(Action::CastSpell { card_id, targets });
            proof {
                assert(act_views(out@) =~= before.push(m(items@[k as int])));
                assert(items@.subrange(0, k as int + 1).map_values(m) =~= items@.subrange(0, k as int).map_values(m).push(m(items@[k as int])));
            }
            k = k + 1;
        }
        proof { assert(items@.subrange(0, k as int) =~= items@); }
    }

    /// The Force of Will casts among the cards of `hand` (see `fows_upto`), appended to `out`.
    fn push_fows(&self, out: &mut Vec<Action>, db: &[CardDef], pid: PlayerId, hand: &Vec<ObjectId>)
        requires
            self.wf(),
            pid < 2,
        ensures
            act_views(final(out)@) == act_views(old(out)@) + fows_upto(*self, db@, pid, hand@, hand@.len() as int),
    {
        let ghost start = act_views(out@);
        let mut i: usize = 0;
        while i < hand.len()
            invariant
                i <= hand@.len(),
                self.wf(),
                pid < 2,
                act_views(out@) == start + fows_upto(*self, db@, pid, hand@, i as int),
            decreases hand@.len() - i,
        {
            self.push_fow_options(out, db, pid, hand, hand[i]);
            proof {
                assert(start + fows_upto(*self, db@, pid, hand@, i as int + 1)
                    =~= start + fows_upto(*self, db@, pid, hand@, i as int) + fow_options(*self, db@, pid, hand@, hand@[i as int]));
            }
            i = i + 1;
        }
    }
}


impl GameState {
    /// The mana abilities `pid` can use (see `mana_upto`), appended to `out`.
    fn push_mana_actions(&self, out: &mut Vec<Action>, pid: PlayerId)
        ensures
            act_views(final(out)@) == act_views(old(out)@) + mana_upto(*self, pid, self.battlefield@.len() as int),
    {
        let ghost start = act_views(out@);
        let mut i: usize = 0;
        while i < self.battlefield.len()
            invariant
                i <= self.battlefield@.len(),
                act_views(out@) == start + mana_upto(*self, pid, i as int),
            decreases self.battlefield@.len() - i,
        {
            let p = &self.battlefield[i];
            let ghost before = act_views(out@);
            let ghost m = |c: Option<Color>| (4u8, p.id as int, 0int, c, Seq::<Target>::empty());
            if p.controller == pid && !p.tapped {
                let opts = self.mana_ability_options(p);
                let mut k: usize = 0;
                while k < opts.len()
                    invariant
                        k <= opts@.len(),
                        m == (|c: Option<Color>| (4u8, p.id as int, 0int, c, Seq::<Target>::empty())),
                        act_views(out@) == before + opts@.subrange(0, k as int).map_values(m),
                    decreases opts@.len() - k,
                {
                    let ghost b2 = act_views(out@);
                    out.push(Action::ActivateManaAbility { permanent_id: p.id, color_choice: opts[k] });
                    proof {
                        assert(act_views(out@) =~= b2.push(m(opts@[k as int])));
                        assert(opts@.subrange(0, k as int + 1).map_values(m) =~= opts@.subrange(0, k as int).map_values(m).push(m(opts@[k as int])));
                    }
                    k = k + 1;
                }
                proof { assert(opts@.subrange(0, k as int) =~= opts@); }
            } else {
                proof { assert(before + Seq::empty() =~= before); }
            }
            proof {
                assert(start + mana_upto(*self, pid, i as int + 1) =~= start + mana_upto(*self, pid, i as int)
                    + (if p.controller == pid && !p.tapped { mana_options(self.battlefield@, *p).map_values(m) } else { Seq::empty() }));
            }
            i = i + 1;
        }
    }

    /// The activated abilities of `pid`'s permanents (see `abilities_upto`), appended to `out`.
    fn push_ability_actions(&self, out: &mut Vec<Action>, pid: PlayerId, sorcery_speed: bool, db: &[CardDef])
        requires
            pid < 2,
        ensures
            act_views(final(out)@) == act_views(old(out)@) + abilities_upto(*self, pid, sorcery_speed, self.battlefield@.len() as int),
    {
        let ghost start = act_views(out@);
        let mut i: usize = 0;
        while i < self.battlefield.len()
            invariant
                i <= self.battlefield@.len(),
                pid < 2,
                act_views(out@) == start + abilities_upto(*self, pid, sorcery_speed, i as int),
            decreases self.battlefield@.len() - i,
        {
            let p = &self.battlefield[i];
            let ghost before = act_views(out@);
            let ghost m = |e: (u8, Seq<Target>)| (5u8, p.id as int, e.0 as int, None::<Color>, e.1);
            if p.controller == pid {
                let abilities = self.activatable_abilities(p, sorcery_speed, db);
                let ghost pv = pair_views(abilities@);
                let mut k: usize = 0;
                while k < abilities.len()
                    invariant
                        k <= abilities@.len(),
                        pv == pair_views(abilities@),
                        m == (|e: (u8, Seq<Target>)| (5u8, p.id as int, e.0 as int, None::<Color>, e.1)),
                        act_views(out@) == before + pv.subrange(0, k as int).map_values(m),
                    decreases abilities@.len() - k,
                {
                    let ghost b2 = act_views(out@);
                    let targets = copy_targets(&abilities[k].1);
                    out.push(Action::ActivateAbility { permanent_id: p.id, ability_index: abilities[k].0, targets });
                    proof {
                        assert(act_views(out@) =~= b2.push(m(pv[k as int])));
                        assert(pv.subrange(0, k as int + 1).map_values(m) =~= pv.subrange(0, k as int).map_values(m).push(m(pv[k as int])));
                    }
                    k = k + 1;
                }
                proof { assert(pv.subrange(0, k as int) =~= pv); }
            } else {
                proof { assert(before + Seq::empty() =~= before); }
            }
            proof {
                assert(start + abilities_upto(*self, pid, sorcery_speed, i as int + 1) =~= start + abilities_upto(*self, pid, sorcery_speed, i as int)
                    + (if p.controller == pid { abilities_of(self.battlefield@, *p, sorcery_speed).map_values(m) } else { Seq::empty() }));
            }
            i = i + 1;
        }
    }

    /// Every action the priority player may take (see `priority_actions`).
    pub fn generate_priority_actions(&self, db: &[CardDef]) -> (r: Vec<Action>)
        requires
            self.wf(),
            crate::game::db_ok(db@),
        ensures
            act_views(r@) == priority_actions(*self, db@),
    {
        let mut actions: Vec<Action> = Vec::new();
        let player_id = self.priority_player;
        let player = &self.players[player_id as usize];
        actions.push(Action::PassPriority);
        actions.push(Action::Concede);
        let is_main_phase = match self.phase {
            Phase::PreCombatMain | Phase::PostCombatMain => true,
            _ => false,
        };
        let sorcery_speed = is_main_phase && self.stack.is_empty() && player_id == self.active_player;
        proof { assert(act_views(actions@) =~= seq![v1(0, 0), v1(1, 0)]); }
        let ghost a0 = act_views(actions@);
        if sorcery_speed && player.land_plays_remaining > 0 {
            self.push_land_plays(&mut actions, db, &player.hand);
        } else {
            proof { assert(a0 + Seq::empty() =~= a0); }
        }
        let ghost a1 = act_views(actions@);
        self.push_casts(&mut actions, db, player_id, &player.hand, sorcery_speed);
        self.push_fows(&mut actions, db, player_id, &player.hand);
        self.push_mana_actions(&mut actions, player_id);
        self.push_ability_actions(&mut actions, player_id, sorcery_speed, db);
        proof {
            assert(sorcery_speed == at_sorcery_speed(*self));
            assert(act_views(actions@) =~= priority_actions(*self, db@));
        }
        actions
    }
}

/// The actions legal in state `g`: none once the game is over; the answers to a pending
/// choice; else those of the current context.
pub open spec fn legal_action_views(g: GameState, db: Seq<CardDef>) -> Seq<(u8, int, int, Option<Color>, Seq<Target>)> {
    if g.result != crate::types::GameResult::InProgress {
        Seq::empty()
    } else {
        match g.pending_choice {
            Some(c) => choice_actions(c.kind),
            None => match g.action_context {
                crate::action::ActionContext::Priority => priority_actions(g, db),
                crate::action::ActionContext::DeclareAttackers => attacker_actions(g),
                crate::action::ActionContext::DeclareBlockers => blocker_actions(g),
                crate::action::ActionContext::MakingChoice => seq![v1(0, 0)],
            },
        }
    }
}

/// A number choice can be listed: its range is not reversed and its last step stays in range.
pub open spec fn choice_listable(c: Option<PendingChoice>) -> bool {
    c matches Some(pc) ==> (pc.kind matches ChoiceKind::ChooseNumber { min, max, .. } ==> min <= max
        && max + number_step(min, max) <= u32::MAX)
}

impl GameState {
    /// All legal actions of the player to act (see `legal_action_views`).
    pub fn legal_actions(&self, db: &[CardDef]) -> (r: Vec<Action>)
        requires
            self.wf(),
            crate::game::db_ok(db@),
            choice_listable(self.pending_choice),
        ensures
            act_views(r@) == legal_action_views(*self, db@),
    {
        if self.is_terminal() {
            let r: Vec<Action> = Vec::new();
            proof { assert(act_views(r@) =~= Seq::empty()); }
            return r;
        }
        match &self.pending_choice {
            Some(choice) => {
                return self.generate_choice_actions(choice);
            },
            None => {},
        }
        match self.action_context {
            crate::action::ActionContext::Priority => self.generate_priority_actions(db),
            crate::action::ActionContext::DeclareAttackers => self.generate_attacker_actions(),
            crate::action::ActionContext::DeclareBlockers => self.generate_blocker_actions(),
            crate::action::ActionContext::MakingChoice => {
                let mut r: Vec<Action> = Vec::new();
                r.push(Action::PassPriority);
                proof { assert(act_views(r@) =~= seq![v1(0, 0)]); }
                r
            },
        }
    }
}

} // verus!

verus! {

/// A finished game offers no action at all.
pub proof fn law_finished_game_offers_nothing(g: GameState, db: Seq<CardDef>)
    requires
        g.result != crate::types::GameResult::InProgress,
    ensures
        legal_action_views(g, db).len() == 0,
{
}

/// With priority and nothing to choose, passing and conceding are always the first two
/// actions offered.
pub proof fn law_priority_offers_pass_and_concede_first(g: GameState, db: Seq<CardDef>)
    requires
        g.result == crate::types::GameResult::InProgress,
        g.pending_choice is None,
        g.action_context == crate::action::ActionContext::Priority,
    ensures
        legal_action_views(g, db).len() >= 2,
        legal_action_views(g, db)[0] == v1(0, 0),
        legal_action_views(g, db)[1] == v1(1, 0),
{
    let pid = g.priority_player;
    let p = g.players@[pid as int];
    let hand = p.hand@;
    let sorcery = at_sorcery_speed(g);
    let n = g.battlefield@.len() as int;
    let rest = (if sorcery && p.land_plays_remaining > 0 { lands_upto(g, db, hand, hand.len() as int) } else { Seq::empty() })
        + casts_upto(g, db, pid, hand, sorcery, hand.len() as int)
        + fows_upto(g, db, pid, hand, hand.len() as int)
        + mana_upto(g, pid, n)
        + abilities_upto(g, pid, sorcery, n);
    assert(priority_actions(g, db) =~= seq![v1(0, 0), v1(1, 0)] + rest);
}

/// The numbers `numbers_from(n, max, step)` run upwards from `n` and stay within `n..=max`.
proof fn lemma_numbers_from(n: int, max: int, step: int)
    requires
        step > 0,
    ensures
        n <= max ==> numbers_from(n, max, step).len() > 0 && numbers_from(n, max, step)[0] == n,
        forall|k: int| 0 <= k < numbers_from(n, max, step).len() ==> n <= #[trigger] numbers_from(n, max, step)[k] <= max,
        forall|k: int, l: int| 0 <= k < l < numbers_from(n, max, step).len()
            ==> numbers_from(n, max, step)[k] < numbers_from(n, max, step)[l],
    decreases (if n <= max { max - n + 1 } else { 0 }),
{
    if n <= max {
        lemma_numbers_from(n + step, max, step);
        let tail = numbers_from(n + step, max, step);
        assert(numbers_from(n, max, step) =~= seq![n].add(tail));
        assert forall|k: int, l: int| 0 <= k < l < numbers_from(n, max, step).len()
            implies numbers_from(n, max, step)[k] < numbers_from(n, max, step)[l] by {
            if k > 0 {
                assert(numbers_from(n, max, step)[k] == tail[k - 1]);
            }
            assert(numbers_from(n, max, step)[l] == tail[l - 1]);
        }
    }
}

/// A number choice offers increasing numbers from `min` to `max`, both included, and
/// nothing outside that range.
pub proof fn law_number_choices_span_the_range(min: u32, max: u32)
    requires
        min <= max,
    ensures
        number_options(min, max).len() > 0,
        number_options(min, max)[0] == min,
        number_options(min, max).last() == max,
        forall|k: int| 0 <= k < number_options(min, max).len() ==> min <= #[trigger] number_options(min, max)[k] <= max,
        forall|k: int, l: int| 0 <= k < l < number_options(min, max).len()
            ==> number_options(min, max)[k] < number_options(min, max)[l],
{
    let step = number_step(min, max);
    assert(step > 0) by {
        if max - min > 20 {
            assert((max - min) / 10 >= 2) by (nonlinear_arith)
                requires max - min > 20;
        }
    }
    lemma_numbers_from(min as int, max as int, step);
    let ns = numbers_from(min as int, max as int, step);
    if !(ns.len() > 0 && ns.last() == max) {
        let r = ns.push(max as int);
        assert forall|k: int, l: int| 0 <= k < l < r.len() implies r[k] < r[l] by {
            if l == r.len() - 1 {
                assert(ns[k] <= max);
                assert(ns[k] != max) by {
                    if ns[k] == max && k < ns.len() - 1 {
                        assert(ns[k] < ns[ns.len() - 1]);
                    }
                }
            }
        }
    }
}

} // verus!

verus! {

/// Tapping a permanent for mana with a color its mana ability offers (Tolarian Academy,
/// which counts artifacts, aside) adds exactly one mana of that color to its controller's
/// pool: every other kind of mana and the controller's life stay as they were.
pub proof fn law_tapping_for_an_offered_color_adds_one_of_it(g0: GameState, g1: GameState, id: ObjectId, color: Color, r: bool, p: Permanent)
    requires
        g0.wf(),
        crate::game::perm_with(g0.battlefield@, id) == Some(p),
        p.controller < 2,
        p.card_name != CardName::TolarianAcademy,
        mana_usable(g0.battlefield@, id),
        mana_options(g0.battlefield@, p).contains(Some(color)),
        mana_fits(g0, id, Some(color)),
        mana_tapped(g0, g1, id, Some(color), r),
    ensures
        r,
        g1.players@[p.controller as int].mana_pool.amount(Some(color)) == g0.players@[p.controller as int].mana_pool.amount(Some(color)) + 1,
        forall|k: Option<Color>| k != Some(color) ==> #[trigger] g1.players@[p.controller as int].mana_pool.amount(k)
            == g0.players@[p.controller as int].mana_pool.amount(k),
        g1.players@[p.controller as int].life == g0.players@[p.controller as int].life,
{
    let bf = g0.battlefield@;
    lemma_perm_pos(bf, id);
    let opts = mana_options(bf, p);
    let j = choose|j: int| 0 <= j < opts.len() && opts[j] == Some(color);
    assert(opts[j] == Some(color));
    assert(mana_yield(bf, p, Some(color)) == Some((Some(color), 1int, 0int)));
}

} // verus!

verus! {

/// An opponent's Lodestone Golem entering a battlefield that had none (and no untapped
/// Trinisphere) makes every spell without the Artifact type cost exactly {1} more generic
/// mana, and leaves the cost of an artifact spell as it was.
pub proof fn law_lodestone_golem_taxes_nonartifact_spells(bf: Seq<Permanent>, golem: Permanent, def: CardDef, controller: PlayerId)
    requires
        golem.card_name == CardName::LodestoneGolem,
        golem.controller != controller,
        !opponent_has(bf, CardName::LodestoneGolem, controller),
        !trinisphere_on(bf),
        def.mana_cost.value() <= 253,
    ensures
        !def.card_types@.contains(CardType::Artifact) ==> cost_with_taxes(bf.push(golem), def, controller)
            == (ManaCost { generic: (cost_with_taxes(bf, def, controller).generic + 1) as u8, ..cost_with_taxes(bf, def, controller) }),
        !def.card_types@.contains(CardType::Artifact) ==> cost_with_taxes(bf.push(golem), def, controller).generic
            == cost_with_taxes(bf, def, controller).generic + 1,
        def.card_types@.contains(CardType::Artifact) ==> cost_with_taxes(bf.push(golem), def, controller)
            == cost_with_taxes(bf, def, controller),
{
    let bg = bf.push(golem);
    let n = bf.len() as int;
    assert(bg[n] == golem);
    assert(opponent_has(bg, CardName::LodestoneGolem, controller));
    assert(opponent_has(bg, CardName::ThaliaGuardianOfThraben, controller) == opponent_has(bf, CardName::ThaliaGuardianOfThraben, controller)) by {
        if opponent_has(bf, CardName::ThaliaGuardianOfThraben, controller) {
            let i = choose|i: int| 0 <= i < bf.len() && #[trigger] bf[i].card_name == CardName::ThaliaGuardianOfThraben && bf[i].controller != controller;
            assert(bg[i] == bf[i]);
        }
        if opponent_has(bg, CardName::ThaliaGuardianOfThraben, controller) {
            let i = choose|i: int| 0 <= i < bg.len() && #[trigger] bg[i].card_name == CardName::ThaliaGuardianOfThraben && bg[i].controller != controller;
            assert(i != n);
            assert(bf[i] == bg[i]);
        }
    }
    assert(!trinisphere_on(bg)) by {
        if trinisphere_on(bg) {
            let i = choose|i: int| 0 <= i < bg.len() && #[trigger] bg[i].card_name == CardName::Trinisphere && !bg[i].tapped;
            assert(i != n);
            assert(bf[i] == bg[i]);
        }
    }
}

/// An opponent's Thalia, Guardian of Thraben entering a battlefield with no opponent's Thalia,
/// Lodestone Golem or untapped Trinisphere makes every spell without the Creature type cost
/// exactly {1} more generic mana, and leaves the cost of a creature spell as it was.
pub proof fn law_thalia_taxes_noncreature_spells(bf: Seq<Permanent>, thalia: Permanent, def: CardDef, controller: PlayerId)
    requires
        thalia.card_name == CardName::ThaliaGuardianOfThraben,
        thalia.controller != controller,
        !opponent_has(bf, CardName::ThaliaGuardianOfThraben, controller),
        !opponent_has(bf, CardName::LodestoneGolem, controller),
        !trinisphere_on(bf),
        def.mana_cost.value() <= 253,
    ensures
        !def.card_types@.contains(CardType::Creature) ==> cost_with_taxes(bf.push(thalia), def, controller)
            == (ManaCost { generic: (def.mana_cost.generic + 1) as u8, ..def.mana_cost }),
        !def.card_types@.contains(CardType::Creature) ==> cost_with_taxes(bf.push(thalia), def, controller).generic
            == def.mana_cost.generic + 1,
        def.card_types@.contains(CardType::Creature) ==> cost_with_taxes(bf.push(thalia), def, controller) == def.mana_cost,
{
    let bg = bf.push(thalia);
    let n = bf.len() as int;
    assert(bg[n] == thalia);
    assert(opponent_has(bg, CardName::ThaliaGuardianOfThraben, controller));
    assert(!opponent_has(bg, CardName::LodestoneGolem, controller)) by {
        if opponent_has(bg, CardName::LodestoneGolem, controller) {
            let i = choose|i: int| 0 <= i < bg.len() && #[trigger] bg[i].card_name == CardName::LodestoneGolem && bg[i].controller != controller;
            assert(i != n);
            assert(bf[i] == bg[i]);
        }
    }
    assert(!trinisphere_on(bg)) by {
        if trinisphere_on(bg) {
            let i = choose|i: int| 0 <= i < bg.len() && #[trigger] bg[i].card_name == CardName::Trinisphere && !bg[i].tapped;
            assert(i != n);
            assert(bf[i] == bg[i]);
        }
    }
}

/// With no tax at all on the battlefield (no opponent's Thalia or Lodestone Golem, no
/// untapped Trinisphere), a spell costs what is printed on it.
pub proof fn law_untaxed_spell_costs_its_printed_cost(bf: Seq<Permanent>, def: CardDef, controller: PlayerId)
    requires
        !opponent_has(bf, CardName::ThaliaGuardianOfThraben, controller),
        !opponent_has(bf, CardName::LodestoneGolem, controller),
        !trinisphere_on(bf),
    ensures
        cost_with_taxes(bf, def, controller) == def.mana_cost,
{
}

} // verus!
