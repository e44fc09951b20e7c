//! Core identifiers and small enumerations shared by every module.
use vstd::prelude::*;

verus! {

/// Index of a player (0 or 1 in a two-player game).
pub type PlayerId = u8;

/// Identifier of a game object (card, permanent, spell, token).
pub type ObjectId = u32;

/// The five colors of Magic.
#[derive(Debug, Clone, Copy, PartialEq, Eq, Structural)]
pub enum Color {
    White,
    Blue,
    Black,
    Red,
    Green,
}

/// The five colors in their canonical order (W, U, B, R, G).
pub fn all_colors() -> (r: Vec<Color>)
    ensures
        r@ == seq![Color::White, Color::Blue, Color::Black, Color::Red, Color::Green],
{
    vec![Color::White, Color::Blue, Color::Black, Color::Red, Color::Green]
}

/// Turn phases.
#[derive(Debug, Clone, Copy, PartialEq, Eq, Structural)]
pub enum Phase {
    Beginning,
    PreCombatMain,
    Combat,
    PostCombatMain,
    Ending,
}

/// Steps within phases.
#[derive(Debug, Clone, Copy, PartialEq, Eq, Structural)]
pub enum Step {
    Untap,
    Upkeep,
    Draw,
    BeginCombat,
    DeclareAttackers,
    DeclareBlockers,
    FirstStrikeDamage,
    CombatDamage,
    EndOfCombat,
    End,
    Cleanup,
}

/// Card types.
#[derive(Debug, Clone, Copy, PartialEq, Eq, Structural)]
pub enum CardType {
    Land,
    Creature,
    Artifact,
    Enchantment,
    Instant,
    Sorcery,
    Planeswalker,
}

/// Keyword abilities.
#[derive(Debug, Clone, Copy, PartialEq, Eq, Structural)]
pub enum Keyword {
    Flying,
    FirstStrike,
    DoubleStrike,
    Vigilance,
    Trample,
    Haste,
    Lifelink,
    Deathtouch,
    Indestructible,
    Shroud,
    Prowess,
    Menace,
    Flash,
    CantBeBlocked,
    Reach,
    Defender,
}

/// The bit that stands for a keyword in a keyword set.
pub open spec fn keyword_bit(k: Keyword) -> u32 {
    match k {
        Keyword::Flying => 1,
        Keyword::FirstStrike => 2,
        Keyword::DoubleStrike => 4,
        Keyword::Vigilance => 8,
        Keyword::Trample => 16,
        Keyword::Haste => 32,
        Keyword::Lifelink => 64,
        Keyword::Deathtouch => 128,
        Keyword::Indestructible => 256,
        Keyword::Shroud => 512,
        Keyword::Prowess => 1024,
        Keyword::Menace => 2048,
        Keyword::Flash => 4096,
        Keyword::CantBeBlocked => 8192,
        Keyword::Reach => 16384,
        Keyword::Defender => 32768,
    }
}

/// Executable form of `keyword_bit`.
pub fn keyword_mask(k: Keyword) -> (m: u32)
    ensures
        m == keyword_bit(k),
{
    match k {
        Keyword::Flying => 1,
        Keyword::FirstStrike => 2,
        Keyword::DoubleStrike => 4,
        Keyword::Vigilance => 8,
        Keyword::Trample => 16,
        Keyword::Haste => 32,
        Keyword::Lifelink => 64,
        Keyword::Deathtouch => 128,
        Keyword::Indestructible => 256,
        Keyword::Shroud => 512,
        Keyword::Prowess => 1024,
        Keyword::Menace => 2048,
        Keyword::Flash => 4096,
        Keyword::CantBeBlocked => 8192,
        Keyword::Reach => 16384,
        Keyword::Defender => 32768,
    }
}

/// A set of keywords, stored as a bit set (one bit per `Keyword`).
#[derive(Debug, Clone, Copy, PartialEq, Eq, Structural)]
pub struct Keywords(pub u32);

impl Keywords {
    /// Whether the set holds keyword `k`.
    pub open spec fn holds(self, k: Keyword) -> bool {
        self.0 & keyword_bit(k) != 0
    }

    /// The empty keyword set.
    pub fn empty() -> (r: Keywords)
        ensures
            r.0 == 0,
            forall|k: Keyword| !r.holds(k),
    {
        proof {
            assert forall|k: Keyword| !(#[trigger] Keywords(0u32).holds(k)) by {
                let b = keyword_bit(k);
                assert(0u32 & b == 0) by (bit_vector);
            }
        }
        Keywords(0)
    }

    /// Whether the set holds keyword `k`.
    pub fn has(&self, k: Keyword) -> (r: bool)
        ensures
            r == self.holds(k),
    {
        self.0 & keyword_mask(k) != 0
    }

    /// Add keyword `k`; every other keyword keeps its membership.
    pub fn add(&mut self, k: Keyword)
        ensures
            final(self).holds(k),
            forall|j: Keyword| j != k ==> (final(self).holds(j) == old(self).holds(j)),
            final(self).0 == old(self).0 | keyword_bit(k),
    {
        let m = keyword_mask(k);
        let old_bits = self.0;
        self.0 = self.0 | m;
        proof {
            lemma_keyword_bits_distinct();
            let nb = old_bits | m;
            assert(nb & m != 0) by (bit_vector)
                requires
                    nb == old_bits | m,
                    m != 0,
            ;
            assert forall|j: Keyword| j != k implies (#[trigger] Keywords(nb).holds(j)
                == Keywords(old_bits).holds(j)) by {
                let mj = keyword_bit(j);
                lemma_keyword_bit_single(j);
                lemma_keyword_bit_single(k);
                assert(((old_bits | m) & mj != 0) == (old_bits & mj != 0)) by (bit_vector)
                    requires
                        m & mj == 0,
                ;
            }
        }
    }

    /// Remove keyword `k`; every other keyword keeps its membership.
    pub fn remove(&mut self, k: Keyword)
        ensures
            !final(self).holds(k),
            forall|j: Keyword| j != k ==> (final(self).holds(j) == old(self).holds(j)),
            final(self).0 == old(self).0 & !keyword_bit(k),
    {
        let m = keyword_mask(k);
        let old_bits = self.0;
        self.0 = self.0 & !m;
        proof {
            lemma_keyword_bits_distinct();
            let nb = old_bits & !m;
            assert(nb & m == 0) by (bit_vector)
                requires
                    nb == old_bits & !m,
            ;
            assert forall|j: Keyword| j != k implies (#[trigger] Keywords(nb).holds(j)
                == Keywords(old_bits).holds(j)) by {
                let mj = keyword_bit(j);
                assert(((old_bits & !m) & mj != 0) == (old_bits & mj != 0)) by (bit_vector)
                    requires
                        m & mj == 0,
                ;
            }
        }
    }
}

/// Each keyword bit is non-zero.
pub proof fn lemma_keyword_bit_single(k: Keyword)
    ensures
        keyword_bit(k) != 0,
{
}

/// Bits of distinct keywords do not overlap.
pub proof fn lemma_keyword_bits_distinct()
    ensures
        forall|a: Keyword, b: Keyword|
            a != b ==> #[trigger] keyword_bit(a) & #[trigger] keyword_bit(b) == 0,
{
    assert forall|a: Keyword, b: Keyword| a != b implies #[trigger] keyword_bit(a)
        & #[trigger] keyword_bit(b) == 0 by {
        let x = keyword_bit(a);
        let y = keyword_bit(b);
        assert(x != y);
        assert((x == 1 || x == 2 || x == 4 || x == 8 || x == 16 || x == 32 || x == 64 || x == 128
            || x == 256 || x == 512 || x == 1024 || x == 2048 || x == 4096 || x == 8192 || x
            == 16384 || x == 32768) && (y == 1 || y == 2 || y == 4 || y == 8 || y == 16 || y == 32
            || y == 64 || y == 128 || y == 256 || y == 512 || y == 1024 || y == 2048 || y == 4096
            || y == 8192 || y == 16384 || y == 32768) && x != y ==> x & y == 0) by (bit_vector);
    }
}

/// Counter kinds that can be placed on permanents.
#[derive(Debug, Clone, Copy, PartialEq, Eq, Structural)]
pub enum CounterType {
    PlusOnePlusOne,
    MinusOneMinusOne,
    Lore,
    Burden,
    Charge,
    Stun,
}

/// Counters on a permanent, one count per counter kind.
#[derive(Debug, Clone, Copy, PartialEq, Eq, Structural)]
pub struct Counters {
    pub plus_one: i16,
    pub minus_one: i16,
    pub lore: i16,
    pub burden: i16,
    pub charge: i16,
    pub stun: i16,
}

impl Counters {
    /// Number of counters of kind `c`.
    pub open spec fn count(self, c: CounterType) -> i16 {
        match c {
            CounterType::PlusOnePlusOne => self.plus_one,
            CounterType::MinusOneMinusOne => self.minus_one,
            CounterType::Lore => self.lore,
            CounterType::Burden => self.burden,
            CounterType::Charge => self.charge,
            CounterType::Stun => self.stun,
        }
    }

    /// No counters at all.
    pub fn new() -> (r: Counters)
        ensures
            forall|c: CounterType| #[trigger] r.count(c) == 0,
    {
        Counters { plus_one: 0, minus_one: 0, lore: 0, burden: 0, charge: 0, stun: 0 }
    }

    /// Number of counters of kind `c`.
    pub fn get(&self, c: CounterType) -> (r: i16)
        ensures
            r == self.count(c),
    {
        match c {
            CounterType::PlusOnePlusOne => self.plus_one,
            CounterType::MinusOneMinusOne => self.minus_one,
            CounterType::Lore => self.lore,
            CounterType::Burden => self.burden,
            CounterType::Charge => self.charge,
            CounterType::Stun => self.stun,
        }
    }

    /// Put `n` more counters of kind `c`.
    pub fn add(&mut self, c: CounterType, n: i16)
        requires
            i16::MIN <= old(self).count(c) + n <= i16::MAX,
        ensures
            final(self).count(c) == old(self).count(c) + n,
            forall|d: CounterType| d != c ==> #[trigger] final(self).count(d) == old(self).count(d),
    {
        match c {
            CounterType::PlusOnePlusOne => self.plus_one = self.plus_one + n,
            CounterType::MinusOneMinusOne => self.minus_one = self.minus_one + n,
            CounterType::Lore => self.lore = self.lore + n,
            CounterType::Burden => self.burden = self.burden + n,
            CounterType::Charge => self.charge = self.charge + n,
            CounterType::Stun => self.stun = self.stun + n,
        }
    }
}

/// A target of a spell or ability.
#[derive(Debug, Clone, Copy, PartialEq, Eq, Structural)]
pub enum Target {
    Player(PlayerId),
    Object(ObjectId),
    NoTarget,
}

/// Outcome of the game.
#[derive(Debug, Clone, Copy, PartialEq, Eq, Structural)]
pub enum GameResult {
    InProgress,
    Win(PlayerId),
    Draw,
}

} // verus!
