//! Card names and the static card database.
use vstd::prelude::*;
use crate::mana::ManaCost;
use crate::types::{CardType, Color, Keyword, Keywords, keyword_bit, keyword_mask};

verus! {

/// Names of the cards the engine knows.
#[derive(Debug, Clone, Copy, PartialEq, Eq, Structural)]
pub enum CardName {
    Abrade,
    AbruptDecay,
    AgentOfTreachery,
    AjaniNacatlPariah,
    AncestralRecall,
    AncientGrudge,
    AncientTomb,
    AridMesa,
    Armageddon,
    AtraxaGrandUnifier,
    Badlands,
    Batterskull,
    Bayou,
    BeseechTheMirror,
    BirdsOfParadise,
    BitterTriumph,
    BlackLotus,
    BloodCrypt,
    BloodstainedMire,
    BolassCitadel,
    BonecrusherGiant,
    BoromirWardenOfTheTower,
    BoseijuWhoEndures,
    BrainFreeze,
    Brainstorm,
    BrazenBorrower,
    BreedingPool,
    CabalRitual,
    ChainLightning,
    ChainOfVapor,
    ChaliceOfTheVoid,
    Cindervines,
    CollectorOuphe,
    CometStellarPup,
    Commandeer,
    Consider,
    ConsignToMemory,
    ContainmentPriest,
    CouncilsJudgment,
    Counterspell,
    Crash,
    CropRotation,
    DackFayden,
    DarkRitual,
    Daze,
    DeadlyDispute,
    DelverOfSecrets,
    DemonicConsultation,
    DemonicTutor,
    DigThroughTime,
    Disenchant,
    Dismember,
    Doomsday,
    DovinHandOfControl,
    Duress,
    EchoOfEons,
    EidolonOfTheGreatRevel,
    EmrakulTheAeonsTorn,
    EmryLurkerOfTheLoch,
    Endurance,
    EngineeredExplosives,
    EnlightenedTutor,
    Entomb,
    ExpressiveIteration,
    FableOfTheMirrorBreaker,
    FatalPush,
    Flash,
    FloodedStrand,
    Flusterstorm,
    ForceOfNegation,
    ForceOfVigor,
    ForceOfWill,
    Forest,
    Fragmentize,
    Fury,
    GaeasCradle,
    GalvanicRelay,
    GenerousPlunderer,
    GideonOfTheTrials,
    GiftsUngiven,
    GitaxianProbe,
    GodlessShrine,
    GolgariGraveTroll,
    GolosTirelessPilgrim,
    GrafdiggersCage,
    GreenSunsZenith,
    GrimMonolith,
    Griselbrand,
    Gush,
    GutTrueSoulZealot,
    HallowedFountain,
    HedgeMaze,
    HidetsuguConsumesAll,
    HogaakArisenNecropolis,
    HymnToTourach,
    ImperialSeal,
    InquisitionOfKozilek,
    InsectileAberration,
    IntoTheFloodMaw,
    Island,
    JaceTheMindSculptor,
    Karakas,
    KarnSilverGolem,
    KarnTheGreatCreator,
    KatakiWarsWage,
    KayaOrzhovUsurper,
    LaviniaAzoriusRenegade,
    LeoninArbiter,
    LeovoldEmissaryOfTrest,
    LibraryOfAlexandria,
    LifeFromTheLoam,
    LightningBolt,
    LionEyeDiamond,
    LodestoneGolem,
    LoranOfTheThirdPath,
    LorienRevealed,
    LotusPetal,
    LurrusOfTheDreamDen,
    MaiScornfulStriker,
    MakdeeAndItlaSkysnarers,
    ManaCrypt,
    ManaDrain,
    ManaLeak,
    ManaVault,
    Manglehorn,
    MarchOfOtherworldlyLight,
    MarshFlats,
    Meltdown,
    MemoryLapse,
    MentalMisstep,
    MerchantScroll,
    MeticulousArchive,
    MindbreakTrap,
    MindsDesire,
    MinscAndBooTimelessHeroes,
    Misdirection,
    MishrasWorkshop,
    MistyRainforest,
    MoltenCollapse,
    MonasteryMentor,
    Mountain,
    MoxEmerald,
    MoxJet,
    MoxOpal,
    MoxPearl,
    MoxRuby,
    MoxSapphire,
    MyrRetriever,
    MysticRemora,
    MysticalDispute,
    MysticalTutor,
    NaduWingedWisdom,
    NarsetParterOfVeils,
    NaturalOrder,
    NaturesClaim,
    OkoThiefOfCrowns,
    OnceUponATime,
    OppositionAgent,
    OrcishBowmasters,
    OswaldFiddlebender,
    OtawaraSoaringCity,
    OvergrownTomb,
    PalaceJailer,
    PathToExile,
    PheliaExuberantShepherd,
    PlagonLordOfTheBeach,
    Plains,
    Plateau,
    PollutedDelta,
    Ponder,
    Preordain,
    PrismaticEnding,
    Pyroblast,
    RagavanNimblePilferer,
    Reanimate,
    RedElementalBlast,
    RedirectLightning,
    ReflectionOfKikiJiki,
    Regrowth,
    Remand,
    RestInPeace,
    RoilingVortex,
    SacredFoundry,
    SamwiseTheStouthearted,
    Savannah,
    ScaldingTarn,
    Scrubland,
    SenseisDiviningTop,
    Shadowspear,
    ShatteringSpree,
    ShatterskullTheHammerPass,
    SheoldredTheApocalypse,
    SheoldredsEdict,
    ShowAndTell,
    ShrapnelBlast,
    SkullClamp,
    SkyclaveApparition,
    SnapcasterMage,
    SnuffOut,
    SolRing,
    SpellPierce,
    SpiritOfTheLabyrinth,
    SqueeGoblinNabob,
    StartingTown,
    SteamVents,
    StepThrough,
    Stifle,
    StinkweedImp,
    StockUp,
    StompingGround,
    StonecoilSerpent,
    StripMine,
    SunderingEruption,
    Swamp,
    SwordsToPlowshares,
    Taiga,
    TalonGatesOfMadara,
    TamiyoInquisitiveStudent,
    Tarmogoyf,
    TeferiTimeRaveler,
    TempleGarden,
    TemporalMastery,
    TendrilsOfAgony,
    TezzeretCruelCaptain,
    ThaliaGuardianOfThraben,
    TheOneRing,
    ThoughtMonitor,
    Thoughtcast,
    Thoughtseize,
    ThunderingFalls,
    ThundertrapTrainer,
    TimeVault,
    TimeWalk,
    Timetwister,
    Tinker,
    TolarianAcademy,
    TorporOrb,
    TransmuteArtifact,
    TreasureCruise,
    TreasureToken,
    Trinisphere,
    TropicalIsland,
    Tundra,
    UndercitySewers,
    UndergroundSea,
    UnderworldBreach,
    Unmask,
    UntimelyMalfunction,
    UrborgTombOfYawgmoth,
    VampiricTutor,
    Vandalblast,
    VeilOfSummer,
    VerdantCatacombs,
    VesselOfTheAllConsuming,
    VillageRites,
    VoiceOfVictory,
    VolcanicIsland,
    WalkingBallista,
    Wasteland,
    WateryGrave,
    WheelOfFortune,
    WhiteOrchidPhantom,
    WindsweptHeath,
    WitchEnchanter,
    WoodedFoothills,
    WrathOfTheSkies,
    WrennAndSix,
    WurmcoilEngine,
    YavimayaCradleOfGrowth,
    YawgmothsWill,
    YoungPyromancer,
    ZhaoTheMoonSlayer,
}

/// Creature types.
#[derive(Debug, Clone, Copy, PartialEq, Eq, Structural)]
pub enum CreatureType {
    Cat,
    Construct,
    Goblin,
    Hamster,
    Human,
    Pest,
    Shaman,
    Shark,
    Soldier,
    Thopter,
    Warrior,
}

/// Every creature type, in declaration order.
pub open spec fn every_creature_type() -> Seq<CreatureType> {
    seq![
        CreatureType::Cat,
        CreatureType::Construct,
        CreatureType::Goblin,
        CreatureType::Hamster,
        CreatureType::Human,
        CreatureType::Pest,
        CreatureType::Shaman,
        CreatureType::Shark,
        CreatureType::Soldier,
        CreatureType::Thopter,
        CreatureType::Warrior,
    ]
}

/// Every creature type (what a changeling has).
pub fn all_creature_types() -> (r: Vec<CreatureType>)
    ensures
        r@ == every_creature_type(),
{
    let r = vec![
        CreatureType::Cat,
        CreatureType::Construct,
        CreatureType::Goblin,
        CreatureType::Hamster,
        CreatureType::Human,
        CreatureType::Pest,
        CreatureType::Shaman,
        CreatureType::Shark,
        CreatureType::Soldier,
        CreatureType::Thopter,
        CreatureType::Warrior,
    ];
    assert(r@ =~= every_creature_type());
    r
}

/// Static definition of a card.
#[derive(Debug, Clone)]
pub struct CardDef {
    pub name: CardName,
    pub mana_cost: ManaCost,
    pub card_types: Vec<CardType>,
    pub creature_types: Vec<CreatureType>,
    pub is_changeling: bool,
    pub keywords: Keywords,
    pub power: Option<i16>,
    pub toughness: Option<i16>,
    pub loyalty: Option<i16>,
    pub color_identity: Vec<Color>,
    /// Alternate cost when discarded with madness.
    pub madness_cost: Option<ManaCost>,
    /// Back face of a double-faced card.
    pub back_face: Option<CardName>,
}

/// Index of the first definition at or after `k` whose name is `name`, or -1.
pub open spec fn def_pos_from(db: Seq<CardDef>, name: CardName, k: int) -> int
    decreases db.len() - k,
{
    if k < 0 || k >= db.len() {
        -1
    } else if db[k].name == name {
        k
    } else {
        def_pos_from(db, name, k + 1)
    }
}

/// Index of the first definition of `name` in the database, or -1.
pub open spec fn def_pos(db: Seq<CardDef>, name: CardName) -> int {
    def_pos_from(db, name, 0)
}

/// The definition of `name` in the database, if it has one (the first one).
pub open spec fn lookup(db: Seq<CardDef>, name: CardName) -> Option<CardDef> {
    if def_pos(db, name) >= 0 {
        Some(db[def_pos(db, name)])
    } else {
        None
    }
}

/// `def_pos_from` is -1 or an index at or after `k` holding `name`, with no earlier hit.
pub proof fn lemma_def_pos_from(db: Seq<CardDef>, name: CardName, k: int)
    requires
        0 <= k,
    ensures
        def_pos_from(db, name, k) == -1 || (k <= def_pos_from(db, name, k) < db.len()
            && db[def_pos_from(db, name, k)].name == name),
        def_pos_from(db, name, k) == -1 ==> forall|j: int| k <= j < db.len() ==> db[j].name
            != name,
        forall|j: int| k <= j < def_pos_from(db, name, k) ==> db[j].name != name,
    decreases db.len() - k,
{
    if k < db.len() && db[k].name != name {
        lemma_def_pos_from(db, name, k + 1);
    }
}

/// Look up a card definition by name (the first entry with that name).
pub fn find_card(db: &[CardDef], name: CardName) -> (r: Option<&CardDef>)
    ensures
        r matches Some(d) ==> lookup(db@, name) == Some(*d),
        r is None ==> lookup(db@, name) is None,
{
    let mut i: usize = 0;
    while i < db.len()
        invariant
            i <= db@.len(),
            def_pos(db@, name) == def_pos_from(db@, name, i as int),
        decreases db@.len() - i,
    {
        if db[i].name == name {
            return Some(&db[i]);
        }
        i = i + 1;
    }
    None
}

/// Whether a list of card types holds `t`.
pub open spec fn has_type(types: Seq<CardType>, t: CardType) -> bool {
    types.contains(t)
}

/// Whether a list of card types holds `t`.
pub fn types_contain(types: &Vec<CardType>, t: CardType) -> (r: bool)
    ensures
        r == has_type(types@, t),
{
    let mut i: usize = 0;
    while i < types.len()
        invariant
            i <= types@.len(),
            forall|j: int| 0 <= j < i ==> types@[j] != t,
        decreases types@.len() - i,
    {
        if types[i] == t {
            return true;
        }
        i = i + 1;
    }
    false
}

/// Whether a list of colors holds `c`.
pub fn colors_contain(colors: &Vec<Color>, c: Color) -> (r: bool)
    ensures
        r == colors@.contains(c),
{
    let mut i: usize = 0;
    while i < colors.len()
        invariant
            i <= colors@.len(),
            forall|j: int| 0 <= j < i ==> colors@[j] != c,
        decreases colors@.len() - i,
    {
        if colors[i] == c {
            return true;
        }
        i = i + 1;
    }
    false
}

/// What an equipment gives the creature it is attached to.
#[derive(Debug, Clone, Copy)]
pub struct EquipmentBonus {
    pub power_mod: i16,
    pub toughness_mod: i16,
    pub keywords: Keywords,
}

/// The bonus an equipment grants, by name.
pub open spec fn bonus_of(name: CardName) -> Option<EquipmentBonus> {
    match name {
        CardName::Shadowspear => Some(
            EquipmentBonus {
                power_mod: 1,
                toughness_mod: 1,
                keywords: Keywords(keyword_bit(Keyword::Trample) | keyword_bit(Keyword::Lifelink)),
            },
        ),
        CardName::SkullClamp => Some(
            EquipmentBonus { power_mod: 1, toughness_mod: -1i16, keywords: Keywords(0) },
        ),
        _ => None,
    }
}

/// The bonus an equipment grants: Shadowspear +1/+1 with trample and lifelink,
/// Skullclamp +1/-1; other cards are no equipment.
pub fn equipment_bonus(name: CardName) -> (r: Option<EquipmentBonus>)
    ensures
        r == bonus_of(name),
{
    match name {
        CardName::Shadowspear => Some(
            EquipmentBonus {
                power_mod: 1,
                toughness_mod: 1,
                keywords: Keywords(keyword_mask(Keyword::Trample) | keyword_mask(Keyword::Lifelink)),
            },
        ),
        CardName::SkullClamp => Some(
            EquipmentBonus { power_mod: 1, toughness_mod: -1i16, keywords: Keywords(0) },
        ),
        _ => None,
    }
}

} // verus!
