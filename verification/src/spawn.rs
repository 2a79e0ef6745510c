//! What a unit is born with: where it stands, what it does first, and the
//! standing policy its building stamps on it.

use vstd::prelude::*;

use crate::catalog::{BuildingKind, TargetClass, UnitKind};
use crate::doctrine::DoctrineTemplate;
use crate::map::Pos;
use crate::motion::{inside, land, landed, Order};
use crate::nav::NavGrid;

verus! {

/// Where a unit is born: pulled inside the map, and, unless it flies, clear of
/// whatever stands there.
pub open spec fn birthplace(nav: &NavGrid, at: Pos, flying: bool) -> Pos {
    landed(nav, inside(at.x as int, at.z as int), flying)
}

/// Where a unit is born.
pub fn spawn_point(nav: &NavGrid, at: Pos, flying: bool) -> (r: Pos)
    requires
        nav.wf(),
    ensures
        r == birthplace(nav, at, flying),
{
    let spot = Pos {
        x: crate::map::clamp(at.x, -99_000, 99_000),
        z: crate::map::clamp(at.z, -99_000, 99_000),
    };
    land(nav, spot, flying)
}

/// Where a building sends what it trains.
#[derive(Clone, Copy, PartialEq, Eq, Debug, Structural)]
pub enum Rally {
    Nowhere,
    Ground(Pos),
    /// A resource node, and where it is while it lasts.
    Node(u64, Option<Pos>),
    /// A unit to follow, and where it is while it lives.
    Unit(u64, Option<Pos>),
}

/// A unit's first order. Workers work a node and others walk to it; anything
/// that is gone leaves the unit idle.
pub open spec fn first_said(rally: Rally, worker: bool) -> Order {
    match rally {
        Rally::Nowhere => Order::Idle,
        Rally::Ground(p) => Order::Move(p),
        Rally::Node(id, Some(p)) => if worker {
            Order::Harvest(id)
        } else {
            Order::Move(p)
        },
        Rally::Node(_, None) => Order::Idle,
        Rally::Unit(id, Some(_)) => Order::Follow(id),
        Rally::Unit(_, None) => Order::Idle,
    }
}

/// A unit's first order.
pub fn first_order(rally: Rally, worker: bool) -> (r: Order)
    ensures
        r == first_said(rally, worker),
{
    match rally {
        Rally::Nowhere => Order::Idle,
        Rally::Ground(p) => Order::Move(p),
        Rally::Node(id, at) => match at {
            Some(p) => if worker {
                Order::Harvest(id)
            } else {
                Order::Move(p)
            },
            None => Order::Idle,
        },
        Rally::Unit(id, at) => if at.is_some() {
            Order::Follow(id)
        } else {
            Order::Idle
        },
    }
}

/// The building a unit came out of.
#[derive(Clone, Copy, PartialEq, Eq, Debug, Structural)]
pub struct Producer {
    pub id: u64,
    pub kind: BuildingKind,
    /// It stamps a policy on what it trains.
    pub template: bool,
}

/// Why a fresh unit acts as it does.
#[derive(Clone, Copy, PartialEq, Eq, Debug)]
pub struct SpawnReason {
    /// Who sent it.
    pub producer: Option<(u64, BuildingKind)>,
    /// Its policy is its producer's.
    pub templated: bool,
    /// Its rally gave it something to do. A rally that is gone is no reason.
    pub rallied: bool,
}

/// Why a fresh unit acts as it does.
pub fn spawn_reason(producer: Option<Producer>, order: Order) -> (r: SpawnReason)
    ensures
        r.producer == (match producer {
            Some(p) => Some((p.id, p.kind)),
            None => None,
        }),
        r.templated == (match producer {
            Some(p) => p.template,
            None => false,
        }),
        r.rallied == (order != Order::Idle),
{
    SpawnReason {
        producer: match producer {
            Some(p) => Some((p.id, p.kind)),
            None => None,
        },
        templated: match producer {
            Some(p) => p.template,
            None => false,
        },
        rallied: match order {
            Order::Idle => false,
            _ => true,
        },
    }
}

/// A unit has its rally for a reason exactly while what it rallies to is there.
pub proof fn a_lost_rally_is_no_reason(rally: Rally, worker: bool)
    ensures
        first_said(rally, worker) != Order::Idle <==> match rally {
            Rally::Nowhere => false,
            Rally::Ground(_) => true,
            Rally::Node(_, at) => at is Some,
            Rally::Unit(_, at) => at is Some,
        },
{
}

/// The policy a unit is born with.
#[derive(Debug)]
pub struct Stamp {
    pub squad: Option<u8>,
    pub retreat: Option<i64>,
    pub priority: Option<Vec<TargetClass>>,
    /// An ability slot and how many enemies set it off.
    pub autocast: Option<(usize, u32)>,
}

pub open spec fn classes_of(list: Option<Vec<TargetClass>>) -> Option<Seq<TargetClass>> {
    match list {
        Some(v) => Some(v@),
        None => None,
    }
}

/// The auto-cast rule a unit is born with: what its building says, where the
/// unit can cast and the building says anything; else the kind's own default.
pub open spec fn born_autocast(
    template: Option<DoctrineTemplate>,
    has_abilities: bool,
    by_default: Option<(usize, u32)>,
) -> Option<(usize, u32)> {
    match template {
        Some(t) => match t.autocast {
            Some(n) if has_abilities => Some((0usize, n)),
            _ => by_default,
        },
        None => by_default,
    }
}

fn copy_classes(list: &Vec<TargetClass>) -> (r: Vec<TargetClass>)
    ensures
        r@ == list@,
{
    let mut out: Vec<TargetClass> = Vec::new();
    let mut i: usize = 0;
    while i < list.len()
        invariant
            i <= list.len(),
            out@ == list@.take(i as int),
        decreases list.len() - i,
    {
        out.push(list[i]);
        i = i + 1;
        assert(out@ =~= list@.take(i as int));
    }
    assert(out@ =~= list@);
    out
}

/// The policy a unit is born with: its building's template, verbatim, and the
/// default auto-cast of its kind where the template says nothing about one.
pub fn stamp(
    template: &Option<DoctrineTemplate>,
    has_abilities: bool,
    by_default: Option<(usize, u32)>,
) -> (r: Stamp)
    ensures
        r.autocast == born_autocast(*template, has_abilities, by_default),
        match *template {
            Some(t) => {
                &&& r.squad == t.squad
                &&& r.retreat == t.retreat
                &&& classes_of(r.priority) == classes_of(t.priority)
            },
            None => r.squad is None && r.retreat is None && r.priority is None,
        },
{
    match template {
        Some(t) => Stamp {
            squad: t.squad,
            retreat: t.retreat,
            priority: match &t.priority {
                Some(list) => Some(copy_classes(list)),
                None => None,
            },
            autocast: match t.autocast {
                Some(n) => if has_abilities {
                    Some((0, n))
                } else {
                    by_default
                },
                None => by_default,
            },
        },
        None => Stamp { squad: None, retreat: None, priority: None, autocast: by_default },
    }
}

/// Height of a unit's body, for the kinds that have one drawn.
pub open spec fn body_height(kind: UnitKind) -> Option<i64> {
    match kind {
        UnitKind::Worker => Some(1_200i64),
        UnitKind::Footman => Some(1_480i64),
        UnitKind::Archer => Some(1_300i64),
        UnitKind::Hero => Some(1_700i64),
        UnitKind::Catapult => Some(1_100i64),
        UnitKind::Raider => Some(1_500i64),
        UnitKind::Priestess => Some(1_600i64),
        UnitKind::Spearman => Some(1_560i64),
        UnitKind::Sorcerer => Some(1_440i64),
        UnitKind::Knight => Some(1_700i64),
        UnitKind::GryphonRider => Some(1_400i64),
        _ => None,
    }
}

/// Height of a unit's body, for the kinds that have one drawn.
pub fn unit_height(kind: UnitKind) -> (r: Option<i64>)
    ensures
        r == body_height(kind),
{
    match kind {
        UnitKind::Worker => Some(1_200),
        UnitKind::Footman => Some(1_480),
        UnitKind::Archer => Some(1_300),
        UnitKind::Hero => Some(1_700),
        UnitKind::Catapult => Some(1_100),
        UnitKind::Raider => Some(1_500),
        UnitKind::Priestess => Some(1_600),
        UnitKind::Spearman => Some(1_560),
        UnitKind::Sorcerer => Some(1_440),
        UnitKind::Knight => Some(1_700),
        UnitKind::GryphonRider => Some(1_400),
        _ => None,
    }
}

/// How much larger a hero's body is drawn, in thousandths.
pub const HERO_SCALE: i64 = 1_150;

/// How much larger than its meshes a unit is drawn, in thousandths.
pub open spec fn root_scale(hero: bool, unit_scale: int) -> int {
    if hero {
        unit_scale * HERO_SCALE / 1_000
    } else {
        unit_scale
    }
}

/// How much larger than its meshes a unit is drawn, in thousandths.
pub fn unit_root_scale(hero: bool, unit_scale: i64) -> (r: i64)
    requires
        0 <= unit_scale <= 1_000_000,
    ensures
        r == root_scale(hero, unit_scale as int),
        0 <= r <= 1_150_000,
{
    if hero {
        unit_scale * HERO_SCALE / 1_000
    } else {
        unit_scale
    }
}

/// How high a unit's middle is kept: half its body, and a flyer's altitude on
/// top of that.
pub fn unit_y(
    kind: UnitKind,
    hero: bool,
    flying: bool,
    unit_scale: i64,
    altitude: i64,
) -> (r: Option<i64>)
    requires
        0 <= unit_scale <= 1_000_000,
        0 <= altitude <= 1_000_000,
    ensures
        r == (match body_height(kind) {
            Some(h) => Some(
                (h * root_scale(hero, unit_scale as int) / 2_000 + (if flying {
                    altitude as int
                } else {
                    0
                })) as i64,
            ),
            None => None,
        }),
{
    match unit_height(kind) {
        Some(h) => {
            let scale: i64 = unit_root_scale(hero, unit_scale);
            assert(0 <= h * scale <= 1_700 * 1_150_000) by (nonlinear_arith)
                requires
                    0 <= h <= 1_700,
                    0 <= scale <= 1_150_000,
            ;
            let ground: i64 = h * scale / 2_000;
            Some(
                if flying {
                    ground + altitude
                } else {
                    ground
                },
            )
        },
        None => None,
    }
}

/// What a unit of a drawn kind is called in the scene.
pub open spec fn scene_name(kind: UnitKind) -> Option<Seq<char>> {
    match kind {
        UnitKind::Worker => Some("Worker"@),
        UnitKind::Footman => Some("Footman"@),
        UnitKind::Archer => Some("Archer"@),
        UnitKind::Hero => Some("Champion"@),
        UnitKind::Catapult => Some("Catapult"@),
        UnitKind::Raider => Some("Raider"@),
        UnitKind::Priestess => Some("Priestess"@),
        UnitKind::Spearman => Some("Spearman"@),
        UnitKind::Sorcerer => Some("Sorcerer"@),
        UnitKind::Knight => Some("Knight"@),
        UnitKind::GryphonRider => Some("Gryphon Rider"@),
        _ => None,
    }
}

/// What a unit of a drawn kind is called in the scene.
pub fn entity_name(kind: UnitKind) -> (r: Option<&'static str>)
    ensures
        match r {
            Some(name) => scene_name(kind) == Some(name@),
            None => scene_name(kind) is None,
        },
{
    match kind {
        UnitKind::Worker => Some("Worker"),
        UnitKind::Footman => Some("Footman"),
        UnitKind::Archer => Some("Archer"),
        UnitKind::Hero => Some("Champion"),
        UnitKind::Catapult => Some("Catapult"),
        UnitKind::Raider => Some("Raider"),
        UnitKind::Priestess => Some("Priestess"),
        UnitKind::Spearman => Some("Spearman"),
        UnitKind::Sorcerer => Some("Sorcerer"),
        UnitKind::Knight => Some("Knight"),
        UnitKind::GryphonRider => Some("Gryphon Rider"),
        _ => None,
    }
}

/// Where a unit's head sits above its middle. A mounted unit's head is on its
/// rider, not on top of the beast, and a machine has none.
pub fn head_height(kind: UnitKind) -> (r: Option<i64>)
    ensures
        r == (match kind {
            UnitKind::Catapult => None,
            UnitKind::Raider => Some(450i64),
            UnitKind::Knight => Some(500i64),
            UnitKind::GryphonRider => Some(420i64),
            _ => match body_height(kind) {
                Some(h) => Some((h / 2 - 50) as i64),
                None => None,
            },
        }),
{
    match kind {
        UnitKind::Catapult => None,
        UnitKind::Raider => Some(450),
        UnitKind::Knight => Some(500),
        UnitKind::GryphonRider => Some(420),
        _ => match unit_height(kind) {
            Some(h) => Some(h / 2 - 50),
            None => None,
        },
    }
}

} // verus!
