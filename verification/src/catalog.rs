//! What the game is made of: unit, building and item kinds, their names, and
//! the tables that price them and say what they unlock.

use vstd::prelude::*;

verus! {

/// Every kind of unit either race can field.
#[derive(Clone, Copy, PartialEq, Eq, Debug, Structural)]
pub enum UnitKind {
    Worker,
    Footman,
    Archer,
    Hero,
    Catapult,
    Raider,
    Priestess,
    Spearman,
    Sorcerer,
    Knight,
    GryphonRider,
    Peon,
    Grunt,
    Headhunter,
    Wolfrider,
    Impaler,
    Demolisher,
    Shaman,
    Warchief,
    FarSeer,
    Wyvern,
}

/// How many kinds of unit there are.
pub const UNIT_KINDS: usize = 21;

impl UnitKind {
    /// The row of this kind in its table.
    pub open spec fn row(self) -> int {
        match self {
            UnitKind::Worker => 0,
            UnitKind::Footman => 1,
            UnitKind::Archer => 2,
            UnitKind::Hero => 3,
            UnitKind::Catapult => 4,
            UnitKind::Raider => 5,
            UnitKind::Priestess => 6,
            UnitKind::Spearman => 7,
            UnitKind::Sorcerer => 8,
            UnitKind::Knight => 9,
            UnitKind::GryphonRider => 10,
            UnitKind::Peon => 11,
            UnitKind::Grunt => 12,
            UnitKind::Headhunter => 13,
            UnitKind::Wolfrider => 14,
            UnitKind::Impaler => 15,
            UnitKind::Demolisher => 16,
            UnitKind::Shaman => 17,
            UnitKind::Warchief => 18,
            UnitKind::FarSeer => 19,
            UnitKind::Wyvern => 20,
        }
    }

    /// The row of this kind in its table.
    pub fn index(self) -> (r: usize)
        ensures
            r == self.row(),
            r < UNIT_KINDS,
    {
        match self {
            UnitKind::Worker => 0,
            UnitKind::Footman => 1,
            UnitKind::Archer => 2,
            UnitKind::Hero => 3,
            UnitKind::Catapult => 4,
            UnitKind::Raider => 5,
            UnitKind::Priestess => 6,
            UnitKind::Spearman => 7,
            UnitKind::Sorcerer => 8,
            UnitKind::Knight => 9,
            UnitKind::GryphonRider => 10,
            UnitKind::Peon => 11,
            UnitKind::Grunt => 12,
            UnitKind::Headhunter => 13,
            UnitKind::Wolfrider => 14,
            UnitKind::Impaler => 15,
            UnitKind::Demolisher => 16,
            UnitKind::Shaman => 17,
            UnitKind::Warchief => 18,
            UnitKind::FarSeer => 19,
            UnitKind::Wyvern => 20,
        }
    }
}

/// Every kind of building either race can raise.
#[derive(Clone, Copy, PartialEq, Eq, Debug, Structural)]
pub enum BuildingKind {
    TownHall,
    Barracks,
    Farm,
    Tower,
    Wall,
    Workshop,
    Shop,
    Blacksmith,
    Keep,
    Castle,
    Sanctum,
    Stronghold,
    WarCamp,
    Burrow,
    Watchtower,
    SpiritLodge,
    WarMill,
    Fortress,
    Hold,
}

/// How many kinds of building there are.
pub const BUILDING_KINDS: usize = 19;

impl BuildingKind {
    /// The row of this kind in its table.
    pub open spec fn row(self) -> int {
        match self {
            BuildingKind::TownHall => 0,
            BuildingKind::Barracks => 1,
            BuildingKind::Farm => 2,
            BuildingKind::Tower => 3,
            BuildingKind::Wall => 4,
            BuildingKind::Workshop => 5,
            BuildingKind::Shop => 6,
            BuildingKind::Blacksmith => 7,
            BuildingKind::Keep => 8,
            BuildingKind::Castle => 9,
            BuildingKind::Sanctum => 10,
            BuildingKind::Stronghold => 11,
            BuildingKind::WarCamp => 12,
            BuildingKind::Burrow => 13,
            BuildingKind::Watchtower => 14,
            BuildingKind::SpiritLodge => 15,
            BuildingKind::WarMill => 16,
            BuildingKind::Fortress => 17,
            BuildingKind::Hold => 18,
        }
    }

    /// The row of this kind in its table.
    pub fn index(self) -> (r: usize)
        ensures
            r == self.row(),
            r < BUILDING_KINDS,
    {
        match self {
            BuildingKind::TownHall => 0,
            BuildingKind::Barracks => 1,
            BuildingKind::Farm => 2,
            BuildingKind::Tower => 3,
            BuildingKind::Wall => 4,
            BuildingKind::Workshop => 5,
            BuildingKind::Shop => 6,
            BuildingKind::Blacksmith => 7,
            BuildingKind::Keep => 8,
            BuildingKind::Castle => 9,
            BuildingKind::Sanctum => 10,
            BuildingKind::Stronghold => 11,
            BuildingKind::WarCamp => 12,
            BuildingKind::Burrow => 13,
            BuildingKind::Watchtower => 14,
            BuildingKind::SpiritLodge => 15,
            BuildingKind::WarMill => 16,
            BuildingKind::Fortress => 17,
            BuildingKind::Hold => 18,
        }
    }
}

/// The consumables a Shop sells.
#[derive(Clone, Copy, PartialEq, Eq, Debug, Structural)]
pub enum ItemId {
    HealingPotion,
    TownPortal,
    BootsOfSpeed,
    BannerOfCommand,
    ScrollOfMassTeleport,
}

/// How many items there are.
pub const ITEMS: usize = 5;

impl ItemId {
    /// The row of this kind in its table.
    pub open spec fn row(self) -> int {
        match self {
            ItemId::HealingPotion => 0,
            ItemId::TownPortal => 1,
            ItemId::BootsOfSpeed => 2,
            ItemId::BannerOfCommand => 3,
            ItemId::ScrollOfMassTeleport => 4,
        }
    }

    /// The row of this kind in its table.
    pub fn index(self) -> (r: usize)
        ensures
            r == self.row(),
            r < ITEMS,
    {
        match self {
            ItemId::HealingPotion => 0,
            ItemId::TownPortal => 1,
            ItemId::BootsOfSpeed => 2,
            ItemId::BannerOfCommand => 3,
            ItemId::ScrollOfMassTeleport => 4,
        }
    }
}

/// The player-facing name of a unit.
pub open spec fn unit_title(kind: UnitKind) -> Seq<char> {
    match kind {
        UnitKind::Worker => "Worker"@,
        UnitKind::Footman => "Footman"@,
        UnitKind::Archer => "Archer"@,
        UnitKind::Hero => "Champion"@,
        UnitKind::Catapult => "Catapult"@,
        UnitKind::Raider => "Raider"@,
        UnitKind::Priestess => "Priestess"@,
        UnitKind::Spearman => "Spearman"@,
        UnitKind::Sorcerer => "Sorcerer"@,
        UnitKind::Knight => "Knight"@,
        UnitKind::GryphonRider => "Gryphon"@,
        UnitKind::Peon => "Peon"@,
        UnitKind::Grunt => "Grunt"@,
        UnitKind::Headhunter => "Headhunter"@,
        UnitKind::Wolfrider => "Wolfrider"@,
        UnitKind::Impaler => "Impaler"@,
        UnitKind::Demolisher => "Demolisher"@,
        UnitKind::Shaman => "Shaman"@,
        UnitKind::Warchief => "Warchief"@,
        UnitKind::FarSeer => "Far Seer"@,
        UnitKind::Wyvern => "Wyvern"@,
    }
}

/// The player-facing name of a unit.
pub fn unit_name(kind: UnitKind) -> (r: &'static str)
    ensures
        r@ == unit_title(kind),
{
    match kind {
        UnitKind::Worker => "Worker",
        UnitKind::Footman => "Footman",
        UnitKind::Archer => "Archer",
        UnitKind::Hero => "Champion",
        UnitKind::Catapult => "Catapult",
        UnitKind::Raider => "Raider",
        UnitKind::Priestess => "Priestess",
        UnitKind::Spearman => "Spearman",
        UnitKind::Sorcerer => "Sorcerer",
        UnitKind::Knight => "Knight",
        UnitKind::GryphonRider => "Gryphon",
        UnitKind::Peon => "Peon",
        UnitKind::Grunt => "Grunt",
        UnitKind::Headhunter => "Headhunter",
        UnitKind::Wolfrider => "Wolfrider",
        UnitKind::Impaler => "Impaler",
        UnitKind::Demolisher => "Demolisher",
        UnitKind::Shaman => "Shaman",
        UnitKind::Warchief => "Warchief",
        UnitKind::FarSeer => "Far Seer",
        UnitKind::Wyvern => "Wyvern",
    }
}

/// The player-facing name of a building, spaced.
pub open spec fn building_title(kind: BuildingKind) -> Seq<char> {
    match kind {
        BuildingKind::TownHall => "Town Hall"@,
        BuildingKind::Barracks => "Barracks"@,
        BuildingKind::Farm => "Farm"@,
        BuildingKind::Tower => "Tower"@,
        BuildingKind::Wall => "Wall"@,
        BuildingKind::Workshop => "Workshop"@,
        BuildingKind::Shop => "Shop"@,
        BuildingKind::Blacksmith => "Blacksmith"@,
        BuildingKind::Keep => "Keep"@,
        BuildingKind::Castle => "Castle"@,
        BuildingKind::Sanctum => "Sanctum"@,
        BuildingKind::Stronghold => "Stronghold"@,
        BuildingKind::WarCamp => "War Camp"@,
        BuildingKind::Burrow => "Burrow"@,
        BuildingKind::Watchtower => "Watchtower"@,
        BuildingKind::SpiritLodge => "Spirit Lodge"@,
        BuildingKind::WarMill => "War Mill"@,
        BuildingKind::Fortress => "Fortress"@,
        BuildingKind::Hold => "Hold"@,
    }
}

/// The player-facing name of a building, spaced.
pub fn building_name(kind: BuildingKind) -> (r: &'static str)
    ensures
        r@ == building_title(kind),
{
    match kind {
        BuildingKind::TownHall => "Town Hall",
        BuildingKind::Barracks => "Barracks",
        BuildingKind::Farm => "Farm",
        BuildingKind::Tower => "Tower",
        BuildingKind::Wall => "Wall",
        BuildingKind::Workshop => "Workshop",
        BuildingKind::Shop => "Shop",
        BuildingKind::Blacksmith => "Blacksmith",
        BuildingKind::Keep => "Keep",
        BuildingKind::Castle => "Castle",
        BuildingKind::Sanctum => "Sanctum",
        BuildingKind::Stronghold => "Stronghold",
        BuildingKind::WarCamp => "War Camp",
        BuildingKind::Burrow => "Burrow",
        BuildingKind::Watchtower => "Watchtower",
        BuildingKind::SpiritLodge => "Spirit Lodge",
        BuildingKind::WarMill => "War Mill",
        BuildingKind::Fortress => "Fortress",
        BuildingKind::Hold => "Hold",
    }
}

/// The short name of an item, sized for a card tile.
pub open spec fn item_title(kind: ItemId) -> Seq<char> {
    match kind {
        ItemId::HealingPotion => "Potion"@,
        ItemId::TownPortal => "Portal"@,
        ItemId::BootsOfSpeed => "Boots"@,
        ItemId::BannerOfCommand => "Banner"@,
        ItemId::ScrollOfMassTeleport => "MassTP"@,
    }
}

/// The short name of an item, sized for a card tile.
pub fn item_name(kind: ItemId) -> (r: &'static str)
    ensures
        r@ == item_title(kind),
{
    match kind {
        ItemId::HealingPotion => "Potion",
        ItemId::TownPortal => "Portal",
        ItemId::BootsOfSpeed => "Boots",
        ItemId::BannerOfCommand => "Banner",
        ItemId::ScrollOfMassTeleport => "MassTP",
    }
}

/// Whether a name starts with a capital letter.
pub open spec fn capitalised(name: Seq<char>) -> bool {
    name.len() > 0 ==> 65 <= name[0] as u32 <= 90
}

/// Every name starts with a capital letter.
pub proof fn titles_are_capitalised(unit: UnitKind, building: BuildingKind)
    ensures
        capitalised(unit_title(unit)),
        capitalised(building_title(building)),
{
    reveal_strlit("Archer");
    reveal_strlit("Barracks");
    reveal_strlit("Blacksmith");
    reveal_strlit("Burrow");
    reveal_strlit("Castle");
    reveal_strlit("Catapult");
    reveal_strlit("Champion");
    reveal_strlit("Demolisher");
    reveal_strlit("Far Seer");
    reveal_strlit("Farm");
    reveal_strlit("Footman");
    reveal_strlit("Fortress");
    reveal_strlit("Grunt");
    reveal_strlit("Gryphon");
    reveal_strlit("Headhunter");
    reveal_strlit("Hold");
    reveal_strlit("Impaler");
    reveal_strlit("Keep");
    reveal_strlit("Knight");
    reveal_strlit("Peon");
    reveal_strlit("Priestess");
    reveal_strlit("Raider");
    reveal_strlit("Sanctum");
    reveal_strlit("Shaman");
    reveal_strlit("Shop");
    reveal_strlit("Sorcerer");
    reveal_strlit("Spearman");
    reveal_strlit("Spirit Lodge");
    reveal_strlit("Stronghold");
    reveal_strlit("Tower");
    reveal_strlit("Town Hall");
    reveal_strlit("Wall");
    reveal_strlit("War Camp");
    reveal_strlit("War Mill");
    reveal_strlit("Warchief");
    reveal_strlit("Watchtower");
    reveal_strlit("Wolfrider");
    reveal_strlit("Worker");
    reveal_strlit("Workshop");
    reveal_strlit("Wyvern");
}

/// The two team-wide research ladders.
#[derive(Clone, Copy, PartialEq, Eq, Debug, Structural)]
pub enum ResearchKind {
    Attack,
    Armor,
}

/// The short name of a research ladder.
pub open spec fn research_title(kind: ResearchKind) -> Seq<char> {
    match kind {
        ResearchKind::Attack => "Attack"@,
        ResearchKind::Armor => "Armor"@,
    }
}

/// The short name of a research ladder.
pub fn research_name(kind: ResearchKind) -> (r: &'static str)
    ensures
        r@ == research_title(kind),
{
    match kind {
        ResearchKind::Attack => "Attack",
        ResearchKind::Armor => "Armor",
    }
}

/// What a resource node holds.
#[derive(Clone, Copy, PartialEq, Eq, Debug, Structural)]
pub enum ResourceKind {
    Gold,
    Lumber,
}

/// The name of a resource.
pub open spec fn resource_title(kind: ResourceKind) -> Seq<char> {
    match kind {
        ResourceKind::Gold => "Gold"@,
        ResourceKind::Lumber => "Lumber"@,
    }
}

/// The name of a resource.
pub fn resource_name(kind: ResourceKind) -> (r: &'static str)
    ensures
        r@ == resource_title(kind),
{
    match kind {
        ResourceKind::Gold => "Gold",
        ResourceKind::Lumber => "Lumber",
    }
}

/// How far a team has climbed the hall ladder.
#[derive(Clone, Copy, PartialEq, Eq, Debug, Structural)]
pub enum TechTier {
    T1,
    T2,
    T3,
}

impl TechTier {
    /// The tier as a number: one to three.
    pub open spec fn rank(self) -> int {
        match self {
            TechTier::T1 => 1,
            TechTier::T2 => 2,
            TechTier::T3 => 3,
        }
    }

    /// The tier as a number. It is also how many heroes the tier carries: one
    /// at the first hall, two at the second, three at the last.
    pub fn number(self) -> (r: u32)
        ensures
            r == self.rank(),
            1 <= r <= 3,
    {
        match self {
            TechTier::T1 => 1,
            TechTier::T2 => 2,
            TechTier::T3 => 3,
        }
    }

    /// The tier's caption.
    pub open spec fn title(self) -> Seq<char> {
        match self {
            TechTier::T1 => "T1"@,
            TechTier::T2 => "T2"@,
            TechTier::T3 => "T3"@,
        }
    }

    /// The tier's caption.
    pub fn name(self) -> (r: &'static str)
        ensures
            r@ == self.title(),
    {
        match self {
            TechTier::T1 => "T1",
            TechTier::T2 => "T2",
            TechTier::T3 => "T3",
        }
    }
}

/// The classes a focus-fire list is written in.
#[derive(Clone, Copy, PartialEq, Eq, Debug, Structural)]
pub enum TargetClass {
    Hero,
    Archer,
    Footman,
    Worker,
    Building,
    Air,
}

/// What an ability's key asks for before it fires. Ranges are thousandths of a
/// world unit.
#[derive(Clone, Copy, PartialEq, Eq, Debug, Structural)]
pub enum AbilityTarget {
    /// Nothing: the key is the cast.
    Caster,
    /// A point on the ground within reach.
    Point { range: i64 },
    /// A unit within reach.
    Unit { range: i64 },
}

impl AbilityTarget {
    /// How far the aim may lie, for an ability that is aimed.
    pub open spec fn reach(self) -> Option<i64> {
        match self {
            AbilityTarget::Caster => None,
            AbilityTarget::Point { range } => Some(range),
            AbilityTarget::Unit { range } => Some(range),
        }
    }

    /// How far the aim may lie, for an ability that is aimed.
    pub fn range(self) -> (r: Option<i64>)
        ensures
            r == self.reach(),
    {
        match self {
            AbilityTarget::Caster => None,
            AbilityTarget::Point { range } => Some(range),
            AbilityTarget::Unit { range } => Some(range),
        }
    }

    /// Whether the aim is a unit rather than ground.
    pub fn wants_unit(self) -> (r: bool)
        ensures
            r == (self is Unit),
    {
        match self {
            AbilityTarget::Unit { .. } => true,
            _ => false,
        }
    }
}

/// One ability of a unit or a building.
#[derive(Clone, Copy, Debug)]
pub struct AbilityDef {
    pub name: &'static str,
    /// Thousandths of a mana point; zero for a caster that pays only time.
    pub mana_cost: i64,
    pub target: AbilityTarget,
}

/// What the card reads about one kind of unit.
#[derive(Debug)]
pub struct UnitRow {
    /// The catalog id ("Hero", "GryphonRider").
    pub id: &'static str,
    pub cost_gold: u32,
    pub cost_lumber: u32,
    pub requires: Vec<BuildingKind>,
    pub abilities: Vec<AbilityDef>,
    pub hero: bool,
    pub worker: bool,
}

/// What the card reads about one kind of building.
#[derive(Debug)]
pub struct BuildingRow {
    pub cost_gold: u32,
    pub cost_lumber: u32,
    /// Footprint edge, in thousandths of a world unit.
    pub size: i64,
    pub requires: Vec<BuildingKind>,
    /// The lower rungs this building still counts as.
    pub counts_as: Vec<BuildingKind>,
    pub trains: Vec<UnitKind>,
    pub researches: Vec<ResearchKind>,
    pub abilities: Vec<AbilityDef>,
    /// The next rung in place: kind, gold, lumber.
    pub upgrade: Option<(BuildingKind, u32, u32)>,
    pub hall: bool,
}

/// What the card reads about one item.
#[derive(Clone, Copy, Debug)]
pub struct ItemRow {
    pub cost_gold: u32,
    pub tier: TechTier,
    /// The item teleports, so with two halls standing it asks which.
    pub chooses_destination: bool,
}

/// The game's tables, one row per kind.
#[derive(Debug)]
pub struct Catalog {
    pub units: Vec<UnitRow>,
    pub buildings: Vec<BuildingRow>,
    pub items: Vec<ItemRow>,
    /// The last rung of every research ladder.
    pub research_max: u32,
    /// The bounds of a region's radius, in thousandths.
    pub region_radius_min: i64,
    pub region_radius_max: i64,
    /// The radius of a unit's body, in thousandths.
    pub unit_radius: i64,
}

impl Catalog {
    /// Every kind has its row, and the tables hold sane numbers.
    pub open spec fn wf(&self) -> bool {
        &&& self.units@.len() == UNIT_KINDS
        &&& self.buildings@.len() == BUILDING_KINDS
        &&& self.items@.len() == ITEMS
        &&& 0 <= self.region_radius_min <= self.region_radius_max <= 1_000_000_000
        &&& 0 <= self.unit_radius <= 1_000_000_000
        &&& forall|i: int|
            0 <= i < self.buildings@.len() ==> 0 <= (#[trigger] self.buildings@[i]).size
                <= 1_000_000
    }

    pub open spec fn unit_row(&self, kind: UnitKind) -> UnitRow {
        self.units@[kind.row()]
    }

    pub open spec fn building_row(&self, kind: BuildingKind) -> BuildingRow {
        self.buildings@[kind.row()]
    }

    pub open spec fn item_row(&self, id: ItemId) -> ItemRow {
        self.items@[id.row()]
    }

    /// The row of a unit kind.
    pub fn unit(&self, kind: UnitKind) -> (r: &UnitRow)
        requires
            self.wf(),
        ensures
            *r == self.unit_row(kind),
    {
        &self.units[kind.index()]
    }

    /// The row of a building kind.
    pub fn building(&self, kind: BuildingKind) -> (r: &BuildingRow)
        requires
            self.wf(),
        ensures
            *r == self.building_row(kind),
            0 <= r.size <= 1_000_000,
    {
        &self.buildings[kind.index()]
    }

    /// The row of an item.
    pub fn item(&self, id: ItemId) -> (r: &ItemRow)
        requires
            self.wf(),
        ensures
            *r == self.item_row(id),
    {
        &self.items[id.index()]
    }

    /// Whether a standing building answers a requirement: it is the building
    /// asked for, or a higher rung that still counts as it.
    pub open spec fn answers(&self, owned: BuildingKind, wanted: BuildingKind) -> bool {
        owned == wanted || self.building_row(owned).counts_as@.contains(wanted)
    }

    /// Whether the finished buildings answer one requirement.
    pub open spec fn answered(&self, completed: Seq<BuildingKind>, wanted: BuildingKind) -> bool {
        exists|i: int|
            0 <= i < completed.len() && self.answers(#[trigger] completed[i], wanted)
    }

    /// Whether the finished buildings answer every requirement.
    pub open spec fn met(&self, reqs: Seq<BuildingKind>, completed: Seq<BuildingKind>) -> bool {
        forall|i: int| 0 <= i < reqs.len() ==> self.answered(completed, #[trigger] reqs[i])
    }

    /// The first requirement that the finished buildings leave open.
    pub open spec fn first_missing(
        &self,
        reqs: Seq<BuildingKind>,
        completed: Seq<BuildingKind>,
    ) -> Option<BuildingKind>
        decreases reqs.len(),
    {
        if reqs.len() == 0 {
            None
        } else if !self.answered(completed, reqs[0]) {
            Some(reqs[0])
        } else {
            self.first_missing(reqs.skip(1), completed)
        }
    }

    /// A set of requirements is met exactly when none is missing.
    pub proof fn missing_is_unmet(&self, reqs: Seq<BuildingKind>, completed: Seq<BuildingKind>)
        ensures
            self.met(reqs, completed) <==> self.first_missing(reqs, completed) is None,
        decreases reqs.len(),
    {
        if reqs.len() > 0 {
            self.missing_is_unmet(reqs.skip(1), completed);
            if self.answered(completed, reqs[0]) {
                if self.met(reqs.skip(1), completed) {
                    assert forall|i: int| 0 <= i < reqs.len() implies self.answered(
                        completed,
                        #[trigger] reqs[i],
                    ) by {
                        if i > 0 {
                            assert(reqs.skip(1)[i - 1] == reqs[i]);
                        }
                    }
                } else {
                    let i = choose|i: int|
                        0 <= i < reqs.skip(1).len() && !self.answered(
                            completed,
                            #[trigger] reqs.skip(1)[i],
                        );
                    assert(reqs[i + 1] == reqs.skip(1)[i]);
                }
            }
        }
    }

    /// Whether a standing building answers a requirement.
    pub fn building_satisfies(&self, owned: BuildingKind, wanted: BuildingKind) -> (r: bool)
        requires
            self.wf(),
        ensures
            r == self.answers(owned, wanted),
    {
        if owned == wanted {
            return true;
        }
        let row = self.building(owned);
        let mut i: usize = 0;
        while i < row.counts_as.len()
            invariant
                *row == self.building_row(owned),
                i <= row.counts_as.len(),
                forall|j: int| 0 <= j < i ==> row.counts_as@[j] != wanted,
            decreases row.counts_as.len() - i,
        {
            if row.counts_as[i] == wanted {
                return true;
            }
            i = i + 1;
        }
        false
    }

    fn one_answered(&self, wanted: BuildingKind, completed: &Vec<BuildingKind>) -> (r: bool)
        requires
            self.wf(),
        ensures
            r == self.answered(completed@, wanted),
    {
        let mut i: usize = 0;
        while i < completed.len()
            invariant
                self.wf(),
                i <= completed.len(),
                forall|j: int| 0 <= j < i ==> !self.answers(#[trigger] completed@[j], wanted),
            decreases completed.len() - i,
        {
            if self.building_satisfies(completed[i], wanted) {
                return true;
            }
            i = i + 1;
        }
        false
    }

    /// The first requirement that the finished buildings leave open.
    pub fn missing_requirement(
        &self,
        reqs: &Vec<BuildingKind>,
        completed: &Vec<BuildingKind>,
    ) -> (r: Option<BuildingKind>)
        requires
            self.wf(),
        ensures
            r == self.first_missing(reqs@, completed@),
    {
        let mut i: usize = 0;
        proof {
            assert(reqs@.skip(0) =~= reqs@);
        }
        while i < reqs.len()
            invariant
                self.wf(),
                i <= reqs.len(),
                self.first_missing(reqs@, completed@) == self.first_missing(
                    reqs@.skip(i as int),
                    completed@,
                ),
            decreases reqs.len() - i,
        {
            assert(reqs@.skip(i as int)[0] == reqs@[i as int]);
            assert(reqs@.skip(i as int).skip(1) =~= reqs@.skip(i + 1));
            if !self.one_answered(reqs[i], completed) {
                return Some(reqs[i]);
            }
            i = i + 1;
        }
        None
    }

    /// Whether the finished buildings answer every requirement.
    pub fn requirements_met(
        &self,
        reqs: &Vec<BuildingKind>,
        completed: &Vec<BuildingKind>,
    ) -> (r: bool)
        requires
            self.wf(),
        ensures
            r == self.met(reqs@, completed@),
    {
        proof {
            self.missing_is_unmet(reqs@, completed@);
        }
        self.missing_requirement(reqs, completed).is_none()
    }
}

} // verus!
