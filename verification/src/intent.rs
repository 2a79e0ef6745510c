//! The language of orders. Every gesture compiles to one of these sentences,
//! and nothing a gesture produces is outside what a commander could have typed.

use vstd::prelude::*;

use crate::catalog::{BuildingKind, ItemId, ResearchKind, TargetClass, UnitKind};
use crate::doctrine::{PostureKind, DEFEND_RADIUS};
use crate::map::{clamp_to_map, on_map, Pos};

verus! {

/// What a squad is told to do.
#[derive(Clone, Copy, PartialEq, Eq, Debug, Structural)]
pub enum PostureIntent {
    Defend { at: Pos, radius: i64 },
    Push { at: Pos },
    Forage { at: Pos },
    Escort { unit: u64 },
}

/// Where a cast goes.
#[derive(Clone, Copy, PartialEq, Eq, Debug, Structural)]
pub enum CastTarget {
    Point(Pos),
    Unit(u64),
}

/// What a rally point is: bare ground, or a node or unit.
#[derive(Clone, Copy, PartialEq, Eq, Debug, Structural)]
pub enum RallyTo {
    Ground(Pos),
    Entity(u64),
}

/// One sentence.
#[allow(inconsistent_fields)]
#[derive(PartialEq, Eq, Debug)]
pub enum Intent {
    /// Hold where they stand.
    Stop { units: Vec<u64> },
    /// Walk to a point.
    Move { units: Vec<u64>, at: Pos },
    /// Walk to a point and fight whatever is met.
    AttackMove { units: Vec<u64>, at: Pos },
    /// Fight one target.
    Attack { units: Vec<u64>, target: u64 },
    /// Work a resource node.
    Harvest { units: Vec<u64>, target: u64 },
    /// Drop the cargo off.
    Return { units: Vec<u64> },
    /// Escort a unit of ours.
    Follow { units: Vec<u64>, target: u64 },
    /// Raise a building.
    Build { worker: u64, kind: BuildingKind, at: Pos },
    /// Where a building sends what it trains.
    Rally { building: u64, to: RallyTo },
    /// Join a squad, or leave whichever they are in.
    Squad { units: Vec<u64>, id: Option<u8> },
    /// What a squad is for; nothing stands it down.
    Posture { id: u8, posture: Option<PostureIntent> },
    /// Hold within a radius of an anchor; radius zero lets go.
    Leash { units: Vec<u64>, anchor: Option<Pos>, radius: i64 },
    /// Fall back to a rally point below a health fraction; zero clears.
    Retreat { units: Vec<u64>, below: i64, rally: Option<Pos> },
    /// Whom to shoot first; an empty list clears.
    Priority { units: Vec<u64>, classes: Vec<TargetClass> },
    /// Cast by itself once enough enemies are near; zero clears. No slot means the first.
    Autocast { units: Vec<u64>, min_enemies: u32, ability: Option<usize> },
    /// Cast an ability slot, aimed where the ability wants an aim.
    Cast { caster: u64, ability: usize, aim: Option<CastTarget> },
    /// Buy an item for a hero.
    Buy { shop: u64, item: ItemId, hero: u64 },
    /// Use a carried item; a teleport may name the hall it goes to.
    UseItem { slot: usize, hero: u64, destination: Option<u64> },
    /// Start the next rung of a ladder.
    Research { building: u64, upgrade: ResearchKind },
    /// Turn a building into its next rung.
    Upgrade { building: u64 },
    /// Queue a unit.
    Train { building: u64, unit: UnitKind },
    /// Take a unit off the queue.
    Cancel { building: u64, index: usize },
    /// The whole policy a building stamps on what it trains.
    Template { building: u64, squad: Option<u8>, retreat: Option<(i64, Pos)>, priority: Option<Vec<TargetClass>>, autocast: Option<u32> },
    /// Name a circle of ground.
    RegionSet { name: String, at: Pos, radius: i64 },
    /// Forget every region of ours.
    RegionClear,
    /// When the base is attacked, give a squad a posture, and again after a cooldown.
    TriggerSet { name: String, squad: u8, posture: PostureIntent, repeat: i64 },
    /// Drop a trigger.
    TriggerClear { name: String },
    /// Concede the match.
    Surrender,
}

/// What a sentence says.
#[allow(inconsistent_fields)]
pub enum Said {
    Stop { units: Seq<u64> },
    Move { units: Seq<u64>, at: Pos },
    AttackMove { units: Seq<u64>, at: Pos },
    Attack { units: Seq<u64>, target: u64 },
    Harvest { units: Seq<u64>, target: u64 },
    Return { units: Seq<u64> },
    Follow { units: Seq<u64>, target: u64 },
    Build { worker: u64, kind: BuildingKind, at: Pos },
    Rally { building: u64, to: RallyTo },
    Squad { units: Seq<u64>, id: Option<u8> },
    Posture { id: u8, posture: Option<PostureIntent> },
    Leash { units: Seq<u64>, anchor: Option<Pos>, radius: i64 },
    Retreat { units: Seq<u64>, below: i64, rally: Option<Pos> },
    Priority { units: Seq<u64>, classes: Seq<TargetClass> },
    Autocast { units: Seq<u64>, min_enemies: u32, ability: Option<usize> },
    Cast { caster: u64, ability: usize, aim: Option<CastTarget> },
    Buy { shop: u64, item: ItemId, hero: u64 },
    UseItem { slot: usize, hero: u64, destination: Option<u64> },
    Research { building: u64, upgrade: ResearchKind },
    Upgrade { building: u64 },
    Train { building: u64, unit: UnitKind },
    Cancel { building: u64, index: usize },
    Template { building: u64, squad: Option<u8>, retreat: Option<(i64, Pos)>, priority: Option<Seq<TargetClass>>, autocast: Option<u32> },
    RegionSet { name: Seq<char>, at: Pos, radius: i64 },
    RegionClear,
    TriggerSet { name: Seq<char>, squad: u8, posture: PostureIntent, repeat: i64 },
    TriggerClear { name: Seq<char> },
    Surrender,
}

impl View for Intent {
    type V = Said;

    open spec fn view(&self) -> Said {
        match *self {
            Intent::Stop { units } => Said::Stop { units: units@ },
            Intent::Move { units, at } => Said::Move { units: units@, at },
            Intent::AttackMove { units, at } => Said::AttackMove { units: units@, at },
            Intent::Attack { units, target } => Said::Attack { units: units@, target },
            Intent::Harvest { units, target } => Said::Harvest { units: units@, target },
            Intent::Return { units } => Said::Return { units: units@ },
            Intent::Follow { units, target } => Said::Follow { units: units@, target },
            Intent::Build { worker, kind, at } => Said::Build { worker, kind, at },
            Intent::Rally { building, to } => Said::Rally { building, to },
            Intent::Squad { units, id } => Said::Squad { units: units@, id },
            Intent::Posture { id, posture } => Said::Posture { id, posture },
            Intent::Leash { units, anchor, radius } => Said::Leash { units: units@, anchor, radius },
            Intent::Retreat { units, below, rally } => Said::Retreat { units: units@, below, rally },
            Intent::Priority { units, classes } => Said::Priority { units: units@, classes: classes@ },
            Intent::Autocast { units, min_enemies, ability } => Said::Autocast { units: units@, min_enemies, ability },
            Intent::Cast { caster, ability, aim } => Said::Cast { caster, ability, aim },
            Intent::Buy { shop, item, hero } => Said::Buy { shop, item, hero },
            Intent::UseItem { slot, hero, destination } => Said::UseItem { slot, hero, destination },
            Intent::Research { building, upgrade } => Said::Research { building, upgrade },
            Intent::Upgrade { building } => Said::Upgrade { building },
            Intent::Train { building, unit } => Said::Train { building, unit },
            Intent::Cancel { building, index } => Said::Cancel { building, index },
            Intent::Template { building, squad, retreat, priority, autocast } => Said::Template { building, squad, retreat, priority: match priority {
                    Some(list) => Some(list@),
                    None => None,
                }, autocast },
            Intent::RegionSet { name, at, radius } => Said::RegionSet { name: name@, at, radius },
            Intent::RegionClear => Said::RegionClear,
            Intent::TriggerSet { name, squad, posture, repeat } => Said::TriggerSet { name: name@, squad, posture, repeat },
            Intent::TriggerClear { name } => Said::TriggerClear { name: name@ },
            Intent::Surrender => Said::Surrender,
        }
    }
}

/// What a list of sentences says.
pub open spec fn said(list: Seq<Intent>) -> Seq<Said> {
    list.map_values(|i: Intent| i@)
}

/// Adds a sentence.
pub fn say(list: &mut Vec<Intent>, intent: Intent)
    ensures
        said(final(list)@) == said(old(list)@).push(intent@),
{
    list.push(intent);
    assert(said(list@) =~= said(old(list)@).push(intent@));
}

/// A copy of a list of ids.
pub fn copy_ids(list: &Vec<u64>) -> (r: Vec<u64>)
    ensures
        r@ == list@,
{
    let mut out: Vec<u64> = Vec::new();
    let mut i: usize = 0;
    while i < list.len()
        invariant
            i <= list.len(),
            out@ == list@.take(i as int),
        decreases list.len() - i,
    {
        out.push(list[i]);
        i = i + 1;
        assert(out@ =~= list@.take(i as int));
    }
    assert(out@ =~= list@);
    out
}

/// One cast, whatever supplied the aim.
pub fn cast_here(caster: u64, slot: usize, aim: Option<CastTarget>) -> (r: Intent)
    ensures
        r@ == (Said::Cast { caster, ability: slot, aim }),
{
    Intent::Cast { caster, ability: slot, aim }
}

/// The move a group makes; an empty group makes none.
pub open spec fn ground_said(group: Seq<u64>, ground: Pos, attack_move: bool) -> Seq<Said> {
    if group.len() == 0 {
        Seq::empty()
    } else if attack_move {
        seq![Said::AttackMove { units: group, at: ground }]
    } else {
        seq![Said::Move { units: group, at: ground }]
    }
}

/// Sends a group to a point.
pub fn ground_intent(out: &mut Vec<Intent>, group: &Vec<u64>, ground: Pos, attack_move: bool)
    ensures
        said(final(out)@) == said(old(out)@) + ground_said(group@, ground, attack_move),
{
    if group.len() > 0 {
        let units = copy_ids(group);
        if attack_move {
            say(out, Intent::AttackMove { units, at: ground });
        } else {
            say(out, Intent::Move { units, at: ground });
        }
    }
    assert(said(out@) =~= said(old(out)@) + ground_said(group@, ground, attack_move));
}

/// A posture button waiting for its click. The squad is settled when the
/// button is pressed.
#[derive(Clone, Copy, PartialEq, Eq, Debug, Structural)]
pub struct PostureArm {
    pub squad: u8,
    pub kind: PostureKind,
}

/// What an armed posture and a point on the ground say together.
pub open spec fn posture_at(arm: PostureArm, ground: Pos) -> Option<Said> {
    let at = on_map(ground);
    match arm.kind {
        PostureKind::Defend => Some(
            Said::Posture {
                id: arm.squad,
                posture: Some(PostureIntent::Defend { at, radius: DEFEND_RADIUS }),
            },
        ),
        PostureKind::Push => Some(
            Said::Posture { id: arm.squad, posture: Some(PostureIntent::Push { at }) },
        ),
        PostureKind::Forage => Some(
            Said::Posture { id: arm.squad, posture: Some(PostureIntent::Forage { at }) },
        ),
        PostureKind::Escort => None,
    }
}

/// What an armed posture and a unit say together.
pub open spec fn posture_on(arm: PostureArm, target: u64) -> Option<Said> {
    match arm.kind {
        PostureKind::Escort => Some(
            Said::Posture { id: arm.squad, posture: Some(PostureIntent::Escort { unit: target }) },
        ),
        _ => None,
    }
}

/// An armed posture and the point clicked: one sentence, and none for Escort,
/// which names a unit.
pub fn posture_intent(arm: PostureArm, ground: Pos) -> (r: Option<Intent>)
    ensures
        match r {
            Some(i) => posture_at(arm, ground) == Some(i@),
            None => posture_at(arm, ground) is None,
        },
{
    let at = clamp_to_map(ground);
    let posture = match arm.kind {
        PostureKind::Defend => PostureIntent::Defend { at, radius: DEFEND_RADIUS },
        PostureKind::Push => PostureIntent::Push { at },
        PostureKind::Forage => PostureIntent::Forage { at },
        PostureKind::Escort => {
            return None;
        },
    };
    Some(Intent::Posture { id: arm.squad, posture: Some(posture) })
}

/// An armed posture and the unit clicked: one sentence for Escort, and none for
/// the postures that want a point.
pub fn posture_unit_intent(arm: PostureArm, target: u64) -> (r: Option<Intent>)
    ensures
        match r {
            Some(i) => posture_on(arm, target) == Some(i@),
            None => posture_on(arm, target) is None,
        },
{
    match arm.kind {
        PostureKind::Escort => Some(
            Intent::Posture { id: arm.squad, posture: Some(PostureIntent::Escort { unit: target }) },
        ),
        _ => None,
    }
}

/// The two halves are total together: every posture answers exactly one kind
/// of click.
pub proof fn every_posture_answers_one_click(arm: PostureArm, ground: Pos, target: u64)
    ensures
        posture_at(arm, ground) is Some <==> posture_on(arm, target) is None,
        posture_on(arm, target) is Some <==> arm.kind == PostureKind::Escort,
{
}

} // verus!
