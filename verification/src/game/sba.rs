//! State-based actions and the legend rule.
use vstd::prelude::*;
use crate::card::{CardDef, CardName, types_contain};
use crate::game::{Emblem, GameState, perm_pos, lemma_perm_pos, on_battlefield};
use crate::game::queries::effective_toughness_of;
use crate::game::spells::{destroyed, destroyed_chain, destroyed_each};
use crate::permanent::Permanent;
use crate::player::Player;
use crate::types::{CardType, GameResult, Keyword, ObjectId, PlayerId};

verus! {

/// Whether `p` is a Gideon of the Trials planeswalker controlled by `player`.
pub open spec fn gideon_walker(p: Permanent, player: PlayerId) -> bool {
    p.controller == player && p.has_card_type(CardType::Planeswalker) && p.card_name == CardName::GideonOfTheTrials
}

/// Whether `player` can't lose: a Gideon of the Trials emblem and a Gideon planeswalker.
pub open spec fn gideon_protected(emblems: Seq<(PlayerId, Emblem)>, bf: Seq<Permanent>, player: PlayerId) -> bool {
    &&& emblems.contains((player, Emblem::GideonOfTheTrials))
    &&& exists|i: int| 0 <= i < bf.len() && #[trigger] gideon_walker(bf[i], player)
}

/// Whether player `i` loses now: no life left, not lost yet, not protected.
pub open spec fn should_lose(g: GameState, i: int) -> bool {
    g.players@[i].life <= 0 && !g.players@[i].has_lost && !gideon_protected(g.emblems@, g.battlefield@, i as PlayerId)
}

/// Whether permanent `p` dies as a creature: toughness 0 or less, or lethal damage
/// without indestructible.
pub open spec fn should_die(g: GameState, db: Seq<CardDef>, p: Permanent) -> bool {
    let t = effective_toughness_of(g, db, p.id);
    p.has_card_type(CardType::Creature) && (t <= 0 || (p.damage >= t && !p.keywords.holds(Keyword::Indestructible)))
}

/// The ids of the creatures that die, in battlefield order.
pub open spec fn dying_ids(g: GameState, db: Seq<CardDef>) -> Seq<ObjectId> {
    g.battlefield@.filter(|p: Permanent| should_die(g, db, p)).map_values(|p: Permanent| p.id)
}

/// Whether `p` is a planeswalker with no loyalty left.
pub open spec fn walker_dying(p: Permanent) -> bool {
    p.has_card_type(CardType::Planeswalker) && p.loyalty <= 0
}

/// Whether a card of this name is legendary.
pub open spec fn legendary_name(name: CardName) -> bool {
    match name {
        CardName::MoxOpal | CardName::BolassCitadel | CardName::Shadowspear | CardName::TheOneRing
        | CardName::UnderworldBreach | CardName::TolarianAcademy | CardName::GaeasCradle
        | CardName::UrborgTombOfYawgmoth | CardName::YavimayaCradleOfGrowth | CardName::Karakas
        | CardName::OtawaraSoaringCity | CardName::BoseijuWhoEndures | CardName::TalonGatesOfMadara
        | CardName::ThaliaGuardianOfThraben | CardName::AjaniNacatlPariah | CardName::KatakiWarsWage
        | CardName::OswaldFiddlebender | CardName::PheliaExuberantShepherd | CardName::SamwiseTheStouthearted
        | CardName::BoromirWardenOfTheTower | CardName::LoranOfTheThirdPath
        | CardName::TamiyoInquisitiveStudent | CardName::EmryLurkerOfTheLoch | CardName::PlagonLordOfTheBeach
        | CardName::SheoldredTheApocalypse | CardName::Griselbrand | CardName::MaiScornfulStriker
        | CardName::RagavanNimblePilferer | CardName::ZhaoTheMoonSlayer | CardName::GutTrueSoulZealot
        | CardName::SqueeGoblinNabob | CardName::HogaakArisenNecropolis | CardName::GolosTirelessPilgrim
        | CardName::KarnSilverGolem | CardName::EmrakulTheAeonsTorn | CardName::LaviniaAzoriusRenegade
        | CardName::MakdeeAndItlaSkysnarers | CardName::LurrusOfTheDreamDen | CardName::NaduWingedWisdom
        | CardName::LeovoldEmissaryOfTrest | CardName::AtraxaGrandUnifier | CardName::JaceTheMindSculptor
        | CardName::TeferiTimeRaveler | CardName::DackFayden | CardName::NarsetParterOfVeils
        | CardName::GideonOfTheTrials | CardName::KarnTheGreatCreator | CardName::TezzeretCruelCaptain
        | CardName::WrennAndSix | CardName::MinscAndBooTimelessHeroes | CardName::KayaOrzhovUsurper
        | CardName::OkoThiefOfCrowns | CardName::CometStellarPup | CardName::DovinHandOfControl
        | CardName::FableOfTheMirrorBreaker | CardName::ReflectionOfKikiJiki | CardName::HidetsuguConsumesAll
        | CardName::VesselOfTheAllConsuming => true,
        _ => false,
    }
}

/// Whether the legend rule looks at `p`: a planeswalker or a legendary permanent.
pub open spec fn legend_candidate(p: Permanent) -> bool {
    p.has_card_type(CardType::Planeswalker) || legendary_name(p.card_name)
}

/// Index of the first legend-rule candidate among `bf[k..n]` with the same name and
/// controller as `p`, or -1.
pub open spec fn first_same_legend(bf: Seq<Permanent>, p: Permanent, k: int, n: int) -> int
    decreases n - k,
{
    if k < 0 || k >= n {
        -1
    } else if legend_candidate(bf[k]) && bf[k].card_name == p.card_name && bf[k].controller == p.controller {
        k
    } else {
        first_same_legend(bf, p, k + 1, n)
    }
}

/// The permanents the legend rule removes, looking at `bf[0..n]` in order: each candidate
/// with an earlier candidate of the same name and controller removes the first of those
/// (the newest copy stays).
pub open spec fn legend_removals(bf: Seq<Permanent>, n: int) -> Seq<ObjectId>
    decreases n,
{
    if n <= 0 {
        Seq::empty()
    } else {
        let prev = legend_removals(bf, n - 1);
        let p = bf[n - 1];
        let e = first_same_legend(bf, p, 0, n - 1);
        if legend_candidate(p) && e >= 0 {
            prev.push(bf[e].id)
        } else {
            prev
        }
    }
}

/// Nothing is left for the state-based actions to do.
pub open spec fn sba_stable(g: GameState, db: Seq<CardDef>) -> bool {
    &&& forall|i: int| 0 <= i < g.players@.len() ==> !#[trigger] should_lose(g, i)
    &&& forall|i: int| 0 <= i < g.battlefield@.len() ==> !should_die(g, db, #[trigger] g.battlefield@[i])
    &&& forall|i: int| 0 <= i < g.battlefield@.len() ==> !walker_dying(#[trigger] g.battlefield@[i])
    &&& legend_removals(g.battlefield@, g.battlefield@.len() as int).len() == 0
}

/// The result once players may have lost: a lone survivor wins, nobody left is a draw,
/// otherwise the result stays `prev`.
pub open spec fn game_outcome(players: Seq<Player>, prev: GameResult) -> GameResult {
    let alive = players.filter(|p: Player| !p.has_lost);
    if alive.len() == 1 {
        GameResult::Win(alive[0].id)
    } else if alive.len() == 0 {
        GameResult::Draw
    } else {
        prev
    }
}

/// Number of players still in the game.
pub open spec fn alive_count(players: Seq<Player>) -> nat {
    players.filter(|p: Player| !p.has_lost).len()
}

/// Changing only players' loss flags keeps the state within its bounds.
pub proof fn lemma_within_players_flags(g0: GameState, g1: GameState, k: int)
    requires
        g0.within(k),
        g1 == (GameState { players: g1.players, ..g0 }),
        crate::game::same_player_stats(g1.players@, g0.players@),
    ensures
        g1.within(k),
{
    assert forall|i: int| 0 <= i < g1.players@.len() implies #[trigger] g1.players@[i].stats_within(k) by {
        assert(g0.players@[i].stats_within(k));
    }
}

/// Changing only the result keeps the state within its bounds and leaves nothing new for
/// the state-based actions.
pub proof fn lemma_result_only(g0: GameState, g1: GameState, db: Seq<CardDef>)
    requires
        g1 == (GameState { result: g1.result, ..g0 }),
    ensures
        forall|k: int| g0.within(k) ==> #[trigger] g1.within(k),
        sba_stable(g0, db) ==> sba_stable(g1, db),
{
    assert forall|i: int| 0 <= i < g1.players@.len() implies #[trigger] should_lose(g1, i) == should_lose(g0, i) by {}
    assert forall|p: Permanent| #[trigger] should_die(g1, db, p) == should_die(g0, db, p) by {
        assert(effective_toughness_of(g1, db, p.id) == effective_toughness_of(g0, db, p.id));
    }
}

/// The game's outcome with two players, by their loss flags.
pub proof fn lemma_outcome_two(players: Seq<Player>, prev: GameResult)
    requires
        players.len() == 2,
    ensures
        game_outcome(players, prev) == (if !players[0].has_lost && players[1].has_lost {
            GameResult::Win(players[0].id)
        } else if players[0].has_lost && !players[1].has_lost {
            GameResult::Win(players[1].id)
        } else if players[0].has_lost && players[1].has_lost {
            GameResult::Draw
        } else {
            prev
        }),
{
    let f = |p: Player| !p.has_lost;
    reveal_with_fuel(Seq::filter, 3);
    assert(players.drop_last().drop_last() =~= Seq::<Player>::empty());
    assert(players.drop_last() =~= seq![players[0]]);
}

/// Every removal the legend rule names is a permanent of `bf[0..n]`.
pub proof fn lemma_legend_removals_on(bf: Seq<Permanent>, n: int)
    requires
        0 <= n <= bf.len(),
    ensures
        forall|j: int| 0 <= j < legend_removals(bf, n).len() ==> exists|i: int|
            0 <= i < n && bf[i].id == #[trigger] legend_removals(bf, n)[j],
    decreases n,
{
    if n > 0 {
        lemma_legend_removals_on(bf, n - 1);
        lemma_first_same_legend(bf, bf[n - 1], 0, n - 1);
        let prev = legend_removals(bf, n - 1);
        assert forall|j: int| 0 <= j < legend_removals(bf, n).len() implies exists|i: int|
            0 <= i < n && bf[i].id == #[trigger] legend_removals(bf, n)[j] by {
            if j < prev.len() {
                let i = choose|i: int| 0 <= i < n - 1 && bf[i].id == #[trigger] prev[j];
                assert(bf[i].id == legend_removals(bf, n)[j]);
            } else {
                let e = first_same_legend(bf, bf[n - 1], 0, n - 1);
                assert(bf[e].id == legend_removals(bf, n)[j]);
            }
        }
    }
}

/// `first_same_legend` is -1 or an index in `k..n`.
pub proof fn lemma_first_same_legend(bf: Seq<Permanent>, p: Permanent, k: int, n: int)
    requires
        0 <= k,
    ensures
        first_same_legend(bf, p, k, n) == -1 || k <= first_same_legend(bf, p, k, n) < n,
    decreases n - k,
{
    if k < n {
        lemma_first_same_legend(bf, p, k + 1, n);
    }
}

/// A permanent of `bf` has a position.
pub proof fn lemma_member_on(bf: Seq<Permanent>, i: int)
    requires
        0 <= i < bf.len(),
    ensures
        perm_pos(bf, bf[i].id) >= 0,
{
    lemma_perm_pos(bf, bf[i].id);
}

/// Every id of `bf.filter(f)` mapped to ids belongs to a permanent of `bf`.
pub proof fn lemma_filtered_ids_on(bf: Seq<Permanent>, f: spec_fn(Permanent) -> bool, j: int)
    requires
        0 <= j < bf.filter(f).len(),
    ensures
        perm_pos(bf, bf.filter(f).map_values(|p: Permanent| p.id)[j]) >= 0,
{
    let q = bf.filter(f)[j];
    assert(bf.filter(f).contains(q));
    bf.lemma_filter_contains_rev(f, q);
    let i = choose|i: int| 0 <= i < bf.len() && bf[i] == q;
    lemma_member_on(bf, i);
}

impl GameState {
    /// Whether a permanent is legendary (by its card name).
    pub fn is_legendary(&self, perm: &Permanent) -> (r: bool)
        ensures
            r == legendary_name(perm.card_name),
    {
        match perm.card_name {
        CardName::MoxOpal | CardName::BolassCitadel | CardName::Shadowspear | CardName::TheOneRing
        | CardName::UnderworldBreach | CardName::TolarianAcademy | CardName::GaeasCradle
        | CardName::UrborgTombOfYawgmoth | CardName::YavimayaCradleOfGrowth | CardName::Karakas
        | CardName::OtawaraSoaringCity | CardName::BoseijuWhoEndures | CardName::TalonGatesOfMadara
        | CardName::ThaliaGuardianOfThraben | CardName::AjaniNacatlPariah | CardName::KatakiWarsWage
        | CardName::OswaldFiddlebender | CardName::PheliaExuberantShepherd | CardName::SamwiseTheStouthearted
        | CardName::BoromirWardenOfTheTower | CardName::LoranOfTheThirdPath
        | CardName::TamiyoInquisitiveStudent | CardName::EmryLurkerOfTheLoch | CardName::PlagonLordOfTheBeach
        | CardName::SheoldredTheApocalypse | CardName::Griselbrand | CardName::MaiScornfulStriker
        | CardName::RagavanNimblePilferer | CardName::ZhaoTheMoonSlayer | CardName::GutTrueSoulZealot
        | CardName::SqueeGoblinNabob | CardName::HogaakArisenNecropolis | CardName::GolosTirelessPilgrim
        | CardName::KarnSilverGolem | CardName::EmrakulTheAeonsTorn | CardName::LaviniaAzoriusRenegade
        | CardName::MakdeeAndItlaSkysnarers | CardName::LurrusOfTheDreamDen | CardName::NaduWingedWisdom
        | CardName::LeovoldEmissaryOfTrest | CardName::AtraxaGrandUnifier | CardName::JaceTheMindSculptor
        | CardName::TeferiTimeRaveler | CardName::DackFayden | CardName::NarsetParterOfVeils
        | CardName::GideonOfTheTrials | CardName::KarnTheGreatCreator | CardName::TezzeretCruelCaptain
        | CardName::WrennAndSix | CardName::MinscAndBooTimelessHeroes | CardName::KayaOrzhovUsurper
        | CardName::OkoThiefOfCrowns | CardName::CometStellarPup | CardName::DovinHandOfControl
        | CardName::FableOfTheMirrorBreaker | CardName::ReflectionOfKikiJiki | CardName::HidetsuguConsumesAll
        | CardName::VesselOfTheAllConsuming => true,
            _ => false,
        }
    }

    /// Whether `player` controls a Gideon of the Trials planeswalker.
    fn controls_gideon_walker(&self, player: PlayerId) -> (r: bool)
        ensures
            r == exists|i: int| 0 <= i < self.battlefield@.len() && #[trigger] gideon_walker(self.battlefield@[i], player),
    {
        let mut i: usize = 0;
        while i < self.battlefield.len()
            invariant
                i <= self.battlefield@.len(),
                forall|j: int| 0 <= j < i ==> !#[trigger] gideon_walker(self.battlefield@[j], player),
            decreases self.battlefield@.len() - i,
        {
            let p = &self.battlefield[i];
            if p.controller == player && p.is_planeswalker() && p.card_name == CardName::GideonOfTheTrials {
                proof { assert(gideon_walker(self.battlefield@[i as int], player)); }
                return true;
            }
            i = i + 1;
        }
        false
    }

    /// Players with no life left lose, unless protected by Gideon of the Trials; returns
    /// whether anyone lost.
    fn mark_losers(&mut self) -> (changed: bool)
        requires
            old(self).wf(),
        ensures
            final(self).players@.len() == old(self).players@.len(),
            forall|i: int| 0 <= i < old(self).players@.len() ==> #[trigger] final(self).players@[i] == (if should_lose(*old(self), i) {
                Player { has_lost: true, ..old(self).players@[i] }
            } else {
                old(self).players@[i]
            }),
            changed == exists|i: int| 0 <= i < old(self).players@.len() && #[trigger] should_lose(*old(self), i),
            !changed ==> *final(self) == *old(self),
            *final(self) == (GameState { players: final(self).players, ..*old(self) }),
    {
        let ghost g0 = *self;
        let mut changed = false;
        let n = self.num_players as usize;
        let mut i: usize = 0;
        while i < n
            invariant
                n == g0.players@.len(),
                i <= n,
                self.players@.len() == n,
                forall|j: int| 0 <= j < i ==> #[trigger] self.players@[j] == (if should_lose(g0, j) {
                    Player { has_lost: true, ..g0.players@[j] }
                } else {
                    g0.players@[j]
                }),
                forall|j: int| i <= j < n ==> #[trigger] self.players@[j] == g0.players@[j],
                changed == exists|j: int| 0 <= j < i && #[trigger] should_lose(g0, j),
                !changed ==> *self == g0,
                *self == (GameState { players: self.players, ..g0 }),
            decreases n - i,
        {
            if self.players[i].life <= 0 && !self.players[i].has_lost {
                let pid = i as PlayerId;
                let gideon_protected = self.has_emblem(pid, Emblem::GideonOfTheTrials) && self.controls_gideon_walker(pid);
                proof {
                    assert(gideon_protected == crate::game::sba::gideon_protected(g0.emblems@, g0.battlefield@, i as PlayerId));
                }
                if !gideon_protected {
                    let ghost pb = self.players@;
                    self.players[i].has_lost = true;
                    changed = true;
                    proof {
                        assert(self.players@ =~= pb.update(i as int, Player { has_lost: true, ..g0.players@[i as int] }));
                        assert(should_lose(g0, i as int));
                    }
                } else {
                    proof { assert(!should_lose(g0, i as int)); }
                }
            } else {
                proof { assert(!should_lose(g0, i as int)); }
            }
            i = i + 1;
        }
        changed
    }

    /// The creatures that die to state-based actions, in battlefield order.
    fn dying_creatures(&self, db: &[CardDef]) -> (ids: Vec<ObjectId>)
        requires
            self.within(0),
            self.players@.len() == 2,
        ensures
            ids@ == dying_ids(*self, db@),
    {
        let ghost f = |p: Permanent| should_die(*self, db@, p);
        let ghost m = |p: Permanent| p.id;
        let mut to_die: Vec<ObjectId> = Vec::new();
        let mut i: usize = 0;
        while i < self.battlefield.len()
            invariant
                i <= self.battlefield@.len(),
                self.within(0),
                self.players@.len() == 2,
                f == (|p: Permanent| should_die(*self, db@, p)),
                m == (|p: Permanent| p.id),
                to_die@ == self.battlefield@.subrange(0, i as int).filter(f).map_values(m),
            decreases self.battlefield@.len() - i,
        {
            let perm = &self.battlefield[i];
            proof {
                assert(self.battlefield@.subrange(0, i as int + 1) =~= self.battlefield@.subrange(0, i as int).push(*perm));
                self.battlefield@.subrange(0, i as int).lemma_filter_push(*perm, f);
                assert(self.battlefield@[i as int].stats_within(0, self.battlefield@.len() as int));
            }
            if perm.is_creature() {
                let toughness = self.effective_toughness(perm.id, db);
                let has_lethal = perm.damage >= toughness && !perm.keywords.has(Keyword::Indestructible);
                if toughness <= 0 || has_lethal {
                    to_die.push(perm.id);
                    proof {
                        let s0 = self.battlefield@.subrange(0, i as int).filter(f);
                        assert(f(*perm));
                        assert(s0.push(*perm).map_values(m) =~= s0.map_values(m).push(perm.id));
                    }
                } else {
                    proof { assert(!f(*perm)); }
                }
            } else {
                proof { assert(!f(*perm)); }
            }
            i = i + 1;
        }
        proof {
            assert(self.battlefield@.subrange(0, i as int) =~= self.battlefield@);
        }
        to_die
    }

    /// The planeswalkers with no loyalty left, in battlefield order.
    fn dying_walkers(&self) -> (ids: Vec<ObjectId>)
        ensures
            ids@ == self.battlefield@.filter(|p: Permanent| walker_dying(p)).map_values(|p: Permanent| p.id),
    {
        let ghost f = |p: Permanent| walker_dying(p);
        let ghost m = |p: Permanent| p.id;
        let mut out: Vec<ObjectId> = Vec::new();
        let mut i: usize = 0;
        while i < self.battlefield.len()
            invariant
                i <= self.battlefield@.len(),
                f == (|p: Permanent| walker_dying(p)),
                m == (|p: Permanent| p.id),
                out@ == self.battlefield@.subrange(0, i as int).filter(f).map_values(m),
            decreases self.battlefield@.len() - i,
        {
            let perm = &self.battlefield[i];
            proof {
                assert(self.battlefield@.subrange(0, i as int + 1) =~= self.battlefield@.subrange(0, i as int).push(*perm));
                self.battlefield@.subrange(0, i as int).lemma_filter_push(*perm, f);
            }
            if perm.is_planeswalker() && perm.loyalty <= 0 {
                out.push(perm.id);
                proof {
                    let s0 = self.battlefield@.subrange(0, i as int).filter(f);
                    assert(s0.push(*perm).map_values(m) =~= s0.map_values(m).push(perm.id));
                }
            }
            i = i + 1;
        }
        proof {
            assert(self.battlefield@.subrange(0, i as int) =~= self.battlefield@);
        }
        out
    }

    /// Whether the legend rule looks at permanent `i`.
    fn is_legend_candidate(&self, i: usize) -> (r: bool)
        requires
            i < self.battlefield@.len(),
        ensures
            r == legend_candidate(self.battlefield@[i as int]),
    {
        let perm = &self.battlefield[i];
        types_contain(&perm.card_types, CardType::Planeswalker) || self.is_legendary(perm)
    }

    /// The first legend-rule candidate before position `n` sharing name and controller
    /// with the permanent at `n`.
    fn find_same_legend(&self, n: usize) -> (r: Option<usize>)
        requires
            n < self.battlefield@.len(),
        ensures
            match r {
                Some(k) => k as int == first_same_legend(self.battlefield@, self.battlefield@[n as int], 0, n as int),
                None => first_same_legend(self.battlefield@, self.battlefield@[n as int], 0, n as int) == -1,
            },
    {
        let ghost bf = self.battlefield@;
        let ghost p = bf[n as int];
        let mut k: usize = 0;
        while k < n
            invariant
                n < bf.len(),
                bf == self.battlefield@,
                p == bf[n as int],
                k <= n,
                first_same_legend(bf, p, 0, n as int) == first_same_legend(bf, p, k as int, n as int),
            decreases n - k,
        {
            if self.is_legend_candidate(k) && self.battlefield[k].card_name == self.battlefield[n].card_name
                && self.battlefield[k].controller == self.battlefield[n].controller {
                return Some(k);
            }
            k = k + 1;
        }
        None
    }

    /// The permanents the legend rule removes (see `legend_removals`).
    fn legend_rule_victims(&self) -> (ids: Vec<ObjectId>)
        ensures
            ids@ == legend_removals(self.battlefield@, self.battlefield@.len() as int),
    {
        let mut out: Vec<ObjectId> = Vec::new();
        let mut i: usize = 0;
        while i < self.battlefield.len()
            invariant
                i <= self.battlefield@.len(),
                out@ == legend_removals(self.battlefield@, i as int),
            decreases self.battlefield@.len() - i,
        {
            if self.is_legend_candidate(i) {
                match self.find_same_legend(i) {
                    Some(k) => {
                        proof { lemma_first_same_legend(self.battlefield@, self.battlefield@[i as int], 0, i as int); }
                        out.push(self.battlefield[k].id);
                    },
                    None => {},
                }
            }
            i = i + 1;
        }
        out
    }
}

/// `g1` is `g0` with every player who should lose marked as lost.
pub open spec fn losers_marked(g0: GameState, g1: GameState) -> bool {
    &&& g1.players@.len() == g0.players@.len()
    &&& forall|i: int| 0 <= i < g0.players@.len() ==> #[trigger] g1.players@[i] == (if should_lose(g0, i) {
        Player { has_lost: true, ..g0.players@[i] }
    } else {
        g0.players@[i]
    })
    &&& g1 == (GameState { players: g1.players, ..g0 })
}

/// One round of state-based actions through the states `s1`, `s2`, `s3`: the losers are
/// marked, then the dying creatures, the planeswalkers without loyalty and the legend-rule
/// losers are destroyed, each group as it stands at that point.
pub open spec fn sba_round_via(s0: GameState, s1: GameState, s2: GameState, s3: GameState, s4: GameState, db: Seq<CardDef>) -> bool {
    &&& losers_marked(s0, s1)
    &&& destroyed_each(s1, s2, dying_ids(s1, db))
    &&& destroyed_each(s2, s3, s2.battlefield@.filter(|p: Permanent| walker_dying(p)).map_values(|p: Permanent| p.id))
    &&& destroyed_each(s3, s4, legend_removals(s3.battlefield@, s3.battlefield@.len() as int))
}

/// `s4` is `s0` after one round of state-based actions.
pub open spec fn sba_round(s0: GameState, s4: GameState, db: Seq<CardDef>) -> bool {
    exists|s1: GameState, s2: GameState, s3: GameState| #[trigger] sba_round_via(s0, s1, s2, s3, s4, db)
}

/// `rounds` runs through rounds of state-based actions.
pub open spec fn sba_rounds(rounds: Seq<GameState>, db: Seq<CardDef>) -> bool {
    &&& rounds.len() >= 1
    &&& forall|i: int| 0 <= i < rounds.len() - 1 ==> sba_round(#[trigger] rounds[i], rounds[i + 1], db)
}

/// `g1` is `g0` after the state-based actions (see `check_state_based_actions`): rounds of
/// them until nothing more happens, then the game's result decided from who has lost.
pub open spec fn sba_done(g0: GameState, g1: GameState, db: Seq<CardDef>) -> bool {
    &&& exists|rounds: Seq<GameState>| #[trigger] sba_rounds(rounds, db) && rounds[0] == g0
        && g1 == (GameState { result: game_outcome(rounds.last().players@, g0.result), ..rounds.last() })
    &&& g1.wf()
    &&& forall|k: int| #![trigger g1.within(k)] g0.within(k) ==> g1.within(k)
    &&& sba_stable(g1, db)
    &&& g1.result == game_outcome(g1.players@, g0.result)
    &&& forall|i: int| 0 <= i < 2 ==> g0.players@[i].has_lost ==> #[trigger] g1.players@[i].has_lost
    &&& g1.battlefield@.len() <= g0.battlefield@.len()
    &&& g1.card_registry == g0.card_registry
    &&& g1.pending_choice == g0.pending_choice
    &&& g1.active_player == g0.active_player
    &&& g1.priority_player == g0.priority_player
    &&& g1.turn_number == g0.turn_number
    &&& g1.stack.items@.len() >= g0.stack.items@.len()
    &&& g1.stack.items@.subrange(0, g0.stack.items@.len() as int) == g0.stack.items@
}

/// Players still in the game, as a measure for the state-based action loop.
pub open spec fn players_in(players: Seq<Player>) -> int {
    (if players.len() > 0 && !players[0].has_lost { 1int } else { 0int })
        + (if players.len() > 1 && !players[1].has_lost { 1int } else { 0int })
}

impl GameState {
    /// Destroy each permanent of `ids` still on the battlefield; returns whether any was.
    fn destroy_all(&mut self, ids: &Vec<ObjectId>) -> (changed: bool)
        requires
            old(self).wf(),
            old(self).within(0),
        ensures
            final(self).wf(),
            final(self).within(0),
            forall|k: int| #![trigger final(self).within(k)] old(self).within(k) ==> final(self).within(k),
            destroyed_each(*old(self), *final(self), ids@),
            !changed ==> *final(self) == *old(self),
            !changed ==> forall|j: int| 0 <= j < ids@.len() ==> perm_pos(old(self).battlefield@, #[trigger] ids@[j]) == -1,
            final(self).battlefield@.len() + (if changed { 1int } else { 0int }) <= old(self).battlefield@.len(),
            final(self).result == old(self).result,
            final(self).card_registry == old(self).card_registry,
            final(self).pending_choice == old(self).pending_choice,
            final(self).active_player == old(self).active_player,
            final(self).priority_player == old(self).priority_player,
            final(self).turn_number == old(self).turn_number,
            final(self).stack.items@.len() >= old(self).stack.items@.len(),
            final(self).stack.items@.subrange(0, old(self).stack.items@.len() as int) == old(self).stack.items@,
            final(self).players@.len() == old(self).players@.len(),
            forall|i: int| 0 <= i < old(self).players@.len() ==> #[trigger] final(self).players@[i].has_lost == old(self).players@[i].has_lost,
    {
        let ghost g0 = *self;
        let ghost mut states: Seq<GameState> = seq![*self];
        let mut changed = false;
        let mut j: usize = 0;
        while j < ids.len()
            invariant
                j <= ids@.len(),
                destroyed_chain(states, ids@.subrange(0, j as int)),
                states[0] == g0,
                states.last() == *self,
                self.wf(),
                self.within(0),
                forall|k: int| #![trigger self.within(k)] g0.within(k) ==> self.within(k),
                !changed ==> *self == g0,
                !changed ==> forall|t: int| 0 <= t < j ==> perm_pos(g0.battlefield@, #[trigger] ids@[t]) == -1,
                self.battlefield@.len() + (if changed { 1int } else { 0int }) <= g0.battlefield@.len(),
                self.result == g0.result,
                self.card_registry == g0.card_registry,
                self.pending_choice == g0.pending_choice,
                self.active_player == g0.active_player,
                self.priority_player == g0.priority_player,
                self.turn_number == g0.turn_number,
                self.stack.items@.len() >= g0.stack.items@.len(),
                self.stack.items@.subrange(0, g0.stack.items@.len() as int) == g0.stack.items@,
                self.players@.len() == g0.players@.len(),
                forall|i: int| 0 <= i < g0.players@.len() ==> #[trigger] self.players@[i].has_lost == g0.players@[i].has_lost,
            decreases ids@.len() - j,
        {
            let ghost before = *self;
            let r = self.destroy_permanent(ids[j]);
            proof {
                assert(destroyed(before, *self, ids@[j as int]));
                let old_states = states;
                states = states.push(*self);
                assert forall|i: int| 0 <= i < j + 1 implies destroyed(#[trigger] states[i], states[i + 1], ids@.subrange(0, j as int + 1)[i]) by {
                    if i < j {
                        assert(states[i] == old_states[i]);
                        assert(states[i + 1] == old_states[i + 1]);
                        assert(destroyed(old_states[i], old_states[i + 1], ids@.subrange(0, j as int)[i]));
                    }
                }
            }
            if r.is_some() {
                changed = true;
                proof {
                    assert(self.stack.items@.subrange(0, g0.stack.items@.len() as int)
                        =~= self.stack.items@.subrange(0, before.stack.items@.len() as int).subrange(0, g0.stack.items@.len() as int));
                    assert forall|i: int| 0 <= i < g0.players@.len() implies #[trigger] self.players@[i].has_lost == g0.players@[i].has_lost by {
                        assert(self.players@[i].has_lost == before.players@[i].has_lost);
                    }
                }
            }
            j = j + 1;
        }
        proof {
            assert(ids@.subrange(0, j as int) =~= ids@);
            assert(destroyed_chain(states, ids@));
        }
        changed
    }

    /// State-based actions, repeated until nothing changes: players with no life left lose
    /// (unless Gideon of the Trials protects them); creatures with 0 or less toughness or
    /// lethal damage die; planeswalkers with no loyalty die; the legend rule keeps the newest
    /// of each name per controller. Then the game ends if at most one player is left.
    pub fn check_state_based_actions(&mut self, db: &[CardDef])
        requires
            old(self).wf(),
            old(self).within(0),
        ensures
            sba_done(*old(self), *final(self), db@),
    {
        let ghost g0 = *self;
        let ghost mut rounds: Seq<GameState> = seq![*self];
        loop
            invariant
                sba_rounds(rounds, db@),
                rounds[0] == g0,
                rounds.last() == *self,
                self.wf(),
                self.within(0),
                forall|k: int| #![trigger self.within(k)] g0.within(k) ==> self.within(k),
                forall|i: int| 0 <= i < 2 ==> g0.players@[i].has_lost ==> #[trigger] self.players@[i].has_lost,
                self.battlefield@.len() <= g0.battlefield@.len(),
                self.result == g0.result,
                self.card_registry == g0.card_registry,
                self.pending_choice == g0.pending_choice,
                self.active_player == g0.active_player,
                self.priority_player == g0.priority_player,
                self.turn_number == g0.turn_number,
                self.stack.items@.len() >= g0.stack.items@.len(),
                self.stack.items@.subrange(0, g0.stack.items@.len() as int) == g0.stack.items@,
                g0.wf(),
            ensures
                sba_stable(*self, db@),
            decreases self.battlefield@.len() + players_in(self.players@),
        {
            let ghost m0 = self.battlefield@.len() + players_in(self.players@);
            let ghost s0 = *self;
            let c1 = self.mark_losers();
            let ghost s1 = *self;
            proof {
                assert(crate::game::same_player_stats(s1.players@, s0.players@));
                lemma_within_players_flags(s0, s1, 0);
                assert forall|k: int| #![trigger s1.within(k)] g0.within(k) implies s1.within(k) by {
                    lemma_within_players_flags(s0, s1, k);
                }
                if c1 {
                    let i = choose|i: int| 0 <= i < s0.players@.len() && #[trigger] should_lose(s0, i);
                    assert(self.players@[i].has_lost);
                    assert(players_in(self.players@) < players_in(s0.players@));
                }
                assert(players_in(self.players@) <= players_in(s0.players@));
            }
            let dying = self.dying_creatures(db);
            let c2 = self.destroy_all(&dying);
            let ghost s2 = *self;
            let walkers = self.dying_walkers();
            let c3 = self.destroy_all(&walkers);
            let ghost s3 = *self;
            let legends = self.legend_rule_victims();
            let c4 = self.destroy_all(&legends);
            proof {
                assert(sba_round_via(s0, s1, s2, s3, *self, db@));
                assert(sba_round(s0, *self, db@));
                let old_rounds = rounds;
                rounds = rounds.push(*self);
                assert forall|i: int| 0 <= i < rounds.len() - 1 implies sba_round(#[trigger] rounds[i], rounds[i + 1], db@) by {
                    if i < old_rounds.len() - 1 {
                        assert(rounds[i] == old_rounds[i]);
                        assert(rounds[i + 1] == old_rounds[i + 1]);
                    }
                }
            }
            proof {
                assert(players_in(self.players@) == players_in(s1.players@));
                assert(self.stack.items@.subrange(0, g0.stack.items@.len() as int)
                    =~= self.stack.items@.subrange(0, s0.stack.items@.len() as int).subrange(0, g0.stack.items@.len() as int));
            }
            if !(c1 || c2 || c3 || c4) {
                proof {
                    assert(*self == s0);
                    assert forall|i: int| 0 <= i < self.battlefield@.len() implies !should_die(*self, db@, #[trigger] self.battlefield@[i]) by {
                        if should_die(*self, db@, self.battlefield@[i]) {
                            let f = |p: Permanent| should_die(*self, db@, p);
                            self.battlefield@.lemma_filter_contains(f, i);
                            assert(self.battlefield@.filter(f).len() > 0) by {
                                let q = self.battlefield@[i];
                                assert(self.battlefield@.filter(f).contains(q));
                            }
                            lemma_filtered_ids_on(self.battlefield@, f, 0);
                            assert(perm_pos(self.battlefield@, dying@[0]) == -1);
                        }
                    }
                    assert forall|i: int| 0 <= i < self.battlefield@.len() implies !walker_dying(#[trigger] self.battlefield@[i]) by {
                        if walker_dying(self.battlefield@[i]) {
                            let f = |p: Permanent| walker_dying(p);
                            self.battlefield@.lemma_filter_contains(f, i);
                            assert(self.battlefield@.filter(f).len() > 0) by {
                                let q = self.battlefield@[i];
                                assert(self.battlefield@.filter(f).contains(q));
                            }
                            lemma_filtered_ids_on(self.battlefield@, f, 0);
                            assert(perm_pos(self.battlefield@, walkers@[0]) == -1);
                        }
                    }
                    if legends@.len() > 0 {
                        lemma_legend_removals_on(self.battlefield@, self.battlefield@.len() as int);
                        let i = choose|i: int| 0 <= i < self.battlefield@.len() && self.battlefield@[i].id == #[trigger] legends@[0];
                        lemma_member_on(self.battlefield@, i);
                        assert(perm_pos(self.battlefield@, legends@[0]) == -1);
                    }
                    assert forall|i: int| 0 <= i < self.players@.len() implies !#[trigger] should_lose(*self, i) by {
                        assert(!should_lose(s0, i));
                    }
                }
                break;
            }
            proof {
                assert(self.battlefield@.len() + players_in(self.players@) < m0);
            }
        }
        let ghost s_end = *self;
        self.decide_result();
        proof {
            lemma_result_only(s_end, *self, db@);
            assert(sba_rounds(rounds, db@) && rounds[0] == g0);
        }
    }

    /// End the game when at most one player is left: the survivor wins, or it is a draw.
    fn decide_result(&mut self)
        requires
            old(self).players@.len() == 2,
        ensures
            final(self).result == game_outcome(old(self).players@, old(self).result),
            *final(self) == (GameState { result: final(self).result, ..*old(self) }),
    {
        proof {
            lemma_outcome_two(self.players@, self.result);
        }
        let lost0 = self.players[0].has_lost;
        let lost1 = self.players[1].has_lost;
        if !lost0 && lost1 {
            self.result = GameResult::Win(self.players[0].id);
        } else if lost0 && !lost1 {
            self.result = GameResult::Win(self.players[1].id);
        } else if lost0 && lost1 {
            self.result = GameResult::Draw;
        }
    }
}

} // verus!
