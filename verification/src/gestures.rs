//! The mouse and the control groups: what a click, a drag or a digit means.

use vstd::prelude::*;

use crate::catalog::{BuildingKind, Catalog};
use crate::doctrine::PostureKind;
use crate::intent::{
    cast_here, copy_ids, ground_intent, ground_said, posture_at, posture_intent, posture_on,
    posture_unit_intent, said, say, CastTarget, Intent, RallyTo, Said,
};
use crate::layout::{cursor_over_hud, on_hud, HudLayout, Rect, Window};
use crate::lists::{find_nearest, holds, only_if, picked, picked_step};
use crate::map::{
    clamp_to_map, dist2, dist_sq, near_map, on_map, snap_footprint, snapped, Pos,
};
use crate::nav::NavGrid;
use crate::pick::{
    building_hit, enemy_hit, entities_of, group, ids_of, list_group, node_hit, pick_building,
    pick_enemy, pick_node, pick_unit, unit_hit, units_named, winner, Clickables, ClickBuilding,
    ClickUnit, Picked, WhichBuilding, Whose,
};
use crate::route::{footprint_free, site_clear};
use crate::readouts::{lowest_mark, mark_text, next_mark_name, Region};
use crate::situation::REGION_MARK_RADIUS;
use crate::ui_state::{CastArm, CastArmView, Px, TeleportArmView, UiState, UiView};

verus! {

/// Travel before a press becomes a box, in thousandths of a pixel.
pub const DRAG_THRESHOLD: i64 = 8_000;

/// A frame of the mouse.
#[derive(Clone, Copy, PartialEq, Eq, Debug, Structural)]
pub struct Mouse {
    pub window: Window,
    pub hud: HudLayout,
    pub cursor: Option<Px>,
    /// The ground under the cursor.
    pub ground: Option<Pos>,
    pub left_pressed: bool,
    pub left_held: bool,
    pub left_released: bool,
    pub right_pressed: bool,
    /// A shift key is held.
    pub shift: bool,
}

impl Mouse {
    pub open spec fn wf(self) -> bool {
        &&& 0 < self.hud.minimap_px <= 1_000_000_000
        &&& match self.ground {
            Some(g) => near_map(g),
            None => true,
        }
    }
}

// ---------------------------------------------------------------------------
// Right button: context orders
// ---------------------------------------------------------------------------

pub open spec fn works() -> spec_fn(Picked) -> Option<u64> {
    |p: Picked|
        if p.worker {
            Some(p.id)
        } else {
            None
        }
}

pub open spec fn idles() -> spec_fn(Picked) -> Option<u64> {
    |p: Picked|
        if p.worker {
            None
        } else {
            Some(p.id)
        }
}

pub open spec fn loaded() -> spec_fn(Picked) -> Option<u64> {
    |p: Picked|
        if p.carrying {
            Some(p.id)
        } else {
            None
        }
}

pub open spec fn unloaded() -> spec_fn(Picked) -> Option<u64> {
    |p: Picked|
        if p.carrying {
            None
        } else {
            Some(p.id)
        }
}

pub open spec fn not_leader(leader: u64) -> spec_fn(Picked) -> Option<u64> {
    |p: Picked|
        if p.id == leader {
            None
        } else {
            Some(p.id)
        }
}

fn split_workers(g: &Vec<Picked>) -> (r: (Vec<u64>, Vec<u64>))
    ensures
        r.0@ == picked(g@, works()),
        r.1@ == picked(g@, idles()),
{
    let mut yes: Vec<u64> = Vec::new();
    let mut no: Vec<u64> = Vec::new();
    let mut i: usize = 0;
    while i < g.len()
        invariant
            i <= g.len(),
            yes@ == picked(g@.take(i as int), works()),
            no@ == picked(g@.take(i as int), idles()),
        decreases g.len() - i,
    {
        proof {
            picked_step(g@, i as int, works());
            picked_step(g@, i as int, idles());
        }
        if g[i].worker {
            yes.push(g[i].id);
        } else {
            no.push(g[i].id);
        }
        i = i + 1;
    }
    assert(g@.take(i as int) =~= g@);
    (yes, no)
}

fn split_loaded(g: &Vec<Picked>) -> (r: (Vec<u64>, Vec<u64>))
    ensures
        r.0@ == picked(g@, loaded()),
        r.1@ == picked(g@, unloaded()),
{
    let mut yes: Vec<u64> = Vec::new();
    let mut no: Vec<u64> = Vec::new();
    let mut i: usize = 0;
    while i < g.len()
        invariant
            i <= g.len(),
            yes@ == picked(g@.take(i as int), loaded()),
            no@ == picked(g@.take(i as int), unloaded()),
        decreases g.len() - i,
    {
        proof {
            picked_step(g@, i as int, loaded());
            picked_step(g@, i as int, unloaded());
        }
        if g[i].carrying {
            yes.push(g[i].id);
        } else {
            no.push(g[i].id);
        }
        i = i + 1;
    }
    assert(g@.take(i as int) =~= g@);
    (yes, no)
}

fn followers(g: &Vec<Picked>, leader: u64) -> (r: Vec<u64>)
    ensures
        r@ == picked(g@, not_leader(leader)),
{
    let mut out: Vec<u64> = Vec::new();
    let mut i: usize = 0;
    while i < g.len()
        invariant
            i <= g.len(),
            out@ == picked(g@.take(i as int), not_leader(leader)),
        decreases g.len() - i,
    {
        proof {
            picked_step(g@, i as int, not_leader(leader));
        }
        if g[i].id != leader {
            out.push(g[i].id);
        }
        i = i + 1;
    }
    assert(g@.take(i as int) =~= g@);
    out
}

pub open spec fn rallies(cat: &Catalog, to: RallyTo) -> spec_fn(ClickBuilding) -> Option<Said> {
    |b: ClickBuilding|
        if b.selected && b.own && cat.building_row(b.kind).trains@.len() > 0 {
            Some(Said::Rally { building: b.id, to })
        } else {
            None
        }
}

/// With no unit selected, every selected production building rallies to what
/// is under the cursor: a node, a unit of ours, or bare ground.
pub open spec fn rally_said(cat: &Catalog, c: &Clickables, ground: Pos) -> Seq<Said> {
    let to = match node_hit(c.nodes@, ground) {
        Some(n) => RallyTo::Entity(n),
        None => match unit_hit(cat, c.units@, Whose::Ours) {
            Some(u) => RallyTo::Entity(u),
            None => RallyTo::Ground(ground),
        },
    };
    picked(c.buildings@, rallies(cat, to))
}

/// What a group does at the place clicked, by what is there: an enemy is
/// attacked; a node is worked by the workers while the rest walk over; a hall
/// takes the cargo of those who carry any while the rest walk over; a unit of
/// ours is followed by the others; and bare ground is walked to.
pub open spec fn group_said(cat: &Catalog, c: &Clickables, g: Seq<Picked>, ground: Pos) -> Seq<Said> {
    match enemy_hit(cat, c, ground) {
        Some(target) => seq![Said::Attack { units: ids_of(g), target }],
        None => match node_hit(c.nodes@, ground) {
            Some(target) => {
                let workers = picked(g, works());
                only_if(workers.len() > 0, Said::Harvest { units: workers, target }) + ground_said(
                    picked(g, idles()),
                    ground,
                    false,
                )
            },
            None => {
                let carriers = picked(g, loaded());
                if carriers.len() > 0 && building_hit(
                    cat,
                    c.buildings@,
                    ground,
                    WhichBuilding::OurHall,
                ) is Some {
                    seq![Said::Return { units: carriers }] + ground_said(
                        picked(g, unloaded()),
                        ground,
                        false,
                    )
                } else {
                    match unit_hit(cat, c.units@, Whose::Ours) {
                        Some(leader) if picked(g, not_leader(leader)).len() > 0 => seq![
                            Said::Follow { units: picked(g, not_leader(leader)), target: leader },
                        ],
                        _ => ground_said(ids_of(g), ground, false),
                    }
                }
            },
        },
    }
}

/// A context order.
pub open spec fn context_said(cat: &Catalog, c: &Clickables, ground: Pos) -> Seq<Said> {
    let g = group(c.units@);
    if g.len() == 0 {
        rally_said(cat, c, ground)
    } else {
        group_said(cat, c, g, ground)
    }
}

fn say_rally(cat: &Catalog, c: &Clickables, ground: Pos, out: &mut Vec<Intent>)
    requires
        cat.wf(),
    ensures
        said(final(out)@) == said(old(out)@) + rally_said(cat, c, ground),
{
    let to = match pick_node(&c.nodes, ground) {
        Some(n) => RallyTo::Entity(n),
        None => match pick_unit(cat, &c.units, Whose::Ours) {
            Some(u) => RallyTo::Entity(u),
            None => RallyTo::Ground(ground),
        },
    };
    let mut i: usize = 0;
    let ghost f = rallies(cat, to);
    assert(said(out@) =~= said(old(out)@) + picked(c.buildings@.take(0), f));
    while i < c.buildings.len()
        invariant
            cat.wf(),
            i <= c.buildings.len(),
            f == rallies(cat, to),
            said(out@) == said(old(out)@) + picked(c.buildings@.take(i as int), f),
        decreases c.buildings.len() - i,
    {
        proof {
            picked_step(c.buildings@, i as int, f);
        }
        let ghost before = picked(c.buildings@.take(i as int), f);
        let b = c.buildings[i];
        if b.selected && b.own && cat.building(b.kind).trains.len() > 0 {
            say(out, Intent::Rally { building: b.id, to });
            assert(said(out@) =~= said(old(out)@) + before.push(
                Said::Rally { building: b.id, to },
            ));
        }
        i = i + 1;
    }
    assert(c.buildings@.take(i as int) =~= c.buildings@);
}

fn say_group(cat: &Catalog, c: &Clickables, g: &Vec<Picked>, ground: Pos, out: &mut Vec<Intent>)
    requires
        cat.wf(),
    ensures
        said(final(out)@) == said(old(out)@) + group_said(cat, c, g@, ground),
{
    if let Some(target) = pick_enemy(cat, c, ground) {
        say(out, Intent::Attack { units: entities_of(g), target });
        assert(said(out@) =~= said(old(out)@) + seq![Said::Attack { units: ids_of(g@), target }]);
        return ;
    }
    if let Some(target) = pick_node(&c.nodes, ground) {
        let (workers, others) = split_workers(g);
        let ghost w = workers@;
        if workers.len() > 0 {
            say(out, Intent::Harvest { units: workers, target });
        }
        assert(said(out@) =~= said(old(out)@) + only_if(
            w.len() > 0,
            Said::Harvest { units: w, target },
        ));
        ground_intent(out, &others, ground, false);
        assert(said(out@) =~= said(old(out)@) + group_said(cat, c, g@, ground));
        return ;
    }
    let (carriers, others) = split_loaded(g);
    if carriers.len() > 0 && pick_building(
        cat,
        &c.buildings,
        ground,
        WhichBuilding::OurHall,
    ).is_some() {
        let ghost l = carriers@;
        say(out, Intent::Return { units: carriers });
        assert(said(out@) =~= said(old(out)@) + seq![Said::Return { units: l }]);
        ground_intent(out, &others, ground, false);
        assert(said(out@) =~= said(old(out)@) + group_said(cat, c, g@, ground));
        return ;
    }
    if let Some(leader) = pick_unit(cat, &c.units, Whose::Ours) {
        let rest = followers(g, leader);
        if rest.len() > 0 {
            let ghost f = rest@;
            say(out, Intent::Follow { units: rest, target: leader });
            assert(said(out@) =~= said(old(out)@) + seq![
                Said::Follow { units: f, target: leader },
            ]);
            return ;
        }
    }
    ground_intent(out, &entities_of(g), ground, false);
}

/// What a right click on the world leads to: it first cancels whatever waits
/// for a click, and with nothing waiting it is a context order.
pub open spec fn right_step(
    cat: &Catalog,
    c: &Clickables,
    m: Mouse,
    game_over: bool,
    ui: UiView,
) -> (UiView, Seq<Said>) {
    match m.cursor {
        Some(cursor) if m.right_pressed && !game_over && !on_hud(
            cursor,
            m.window,
            ui.notif_rows as nat,
            ui.prop_cards as nat,
            m.hud,
        ) => if ui.armed() > 0 {
            (ui.disarmed(), Seq::empty())
        } else {
            match m.ground {
                Some(ground) => (ui, context_said(cat, c, ground)),
                None => (ui, Seq::empty()),
            }
        },
        _ => (ui, Seq::empty()),
    }
}

/// The right mouse button.
pub fn right_mouse(
    cat: &Catalog,
    c: &Clickables,
    m: &Mouse,
    game_over: bool,
    ui: &mut UiState,
) -> (r: Vec<Intent>)
    requires
        cat.wf(),
        units_named(c.units@),
    ensures
        (final(ui)@, said(r@)) == right_step(cat, c, *m, game_over, old(ui)@),
{
    let mut out: Vec<Intent> = Vec::new();
    assert(said(out@) =~= Seq::<Said>::empty());
    if !m.right_pressed || game_over {
        return out;
    }
    if let Some(cursor) = m.cursor {
        if cursor_over_hud(cursor, m.window, ui.notif_rows, ui.prop_cards, m.hud) {
            return out;
        }
        if ui.attack_move_armed || ui.placement.is_some() || ui.posture_place.is_some()
            || ui.cast_place.is_some() || ui.region_place || ui.teleport_place.is_some() {
            ui.disarm();
            return out;
        }
        if let Some(ground) = m.ground {
            let g = list_group(&c.units);
            if g.len() == 0 {
                say_rally(cat, c, ground, &mut out);
            } else {
                say_group(cat, c, &g, ground, &mut out);
            }
            assert(said(out@) =~= context_said(cat, c, ground));
        }
    }
    out
}

/// A right click never leaves a mode waiting beside another, and after one that
/// reached the world nothing waits.
pub proof fn right_click_disarms(
    cat: &Catalog,
    c: &Clickables,
    m: Mouse,
    ui: UiView,
    cursor: Px,
)
    requires
        m.cursor == Some(cursor),
        m.right_pressed,
        !on_hud(cursor, m.window, ui.notif_rows as nat, ui.prop_cards as nat, m.hud),
    ensures
        right_step(cat, c, m, false, ui).0.armed() == 0,
        ui.armed() > 0 ==> right_step(cat, c, m, false, ui).1.len() == 0,
{
}

// ---------------------------------------------------------------------------
// Left button: a waiting mode's click
// ---------------------------------------------------------------------------

/// What a site has to be checked against.
#[derive(Clone, Copy, PartialEq, Eq, Debug, Structural)]
pub struct Site {
    /// The snapped footprint under the cursor is free.
    pub free: bool,
    pub gold: u32,
    pub lumber: u32,
}

/// Whether a building may go up: the ground is free and it can be paid for.
pub open spec fn may_build(cat: &Catalog, kind: BuildingKind, site: Site) -> bool {
    let row = cat.building_row(kind);
    site.free && row.cost_gold <= site.gold && row.cost_lumber <= site.lumber
}

/// Whether a building may go up.
pub fn placement_valid(cat: &Catalog, kind: BuildingKind, site: Site) -> (r: bool)
    requires
        cat.wf(),
    ensures
        r == may_build(cat, kind, site),
{
    let row = cat.building(kind);
    site.free && row.cost_gold <= site.gold && row.cost_lumber <= site.lumber
}

/// What the site under a point of the ground has to be checked against: the
/// footprint is snapped as the click would snap it, and is free where every
/// cell of it is.
pub fn site_at(
    nav: &NavGrid,
    cat: &Catalog,
    kind: BuildingKind,
    ground: Pos,
    gold: u32,
    lumber: u32,
) -> (r: Site)
    requires
        nav.wf(),
        cat.wf(),
        near_map(ground),
    ensures
        ({
            let size = cat.building_row(kind).size as int;
            r.free == site_clear(nav, snapped(ground, size), size)
        }),
        r.gold == gold,
        r.lumber == lumber,
{
    let size: i64 = cat.building(kind).size;
    Site { free: footprint_free(nav, snap_footprint(ground, size), size), gold, lumber }
}

pub open spec fn free_builder(pos: Pos, busy: Seq<u64>) -> spec_fn(ClickUnit) -> Option<
    (u64, i128),
> {
    |u: ClickUnit|
        if u.selected && u.own && u.worker && !busy.contains(u.id) {
            Some((u.id, dist2(u.pos, pos) as i128))
        } else {
            None
        }
}

/// The nearest selected worker that is not busy.
pub open spec fn builder(units: Seq<ClickUnit>, pos: Pos, busy: Seq<u64>) -> Option<u64> {
    winner(picked(units, free_builder(pos, busy)))
}

fn find_builder(units: &Vec<ClickUnit>, pos: Pos, busy: &Vec<u64>) -> (r: Option<u64>)
    ensures
        r == builder(units@, pos, busy@),
{
    let mut list: Vec<(u64, i128)> = Vec::new();
    let mut i: usize = 0;
    while i < units.len()
        invariant
            i <= units.len(),
            list@ == picked(units@.take(i as int), free_builder(pos, busy@)),
        decreases units.len() - i,
    {
        proof {
            picked_step(units@, i as int, free_builder(pos, busy@));
        }
        let u = units[i];
        if u.selected && u.own && u.worker && !holds(busy, u.id) {
            list.push((u.id, dist_sq(u.pos, pos)));
        }
        i = i + 1;
    }
    assert(units@.take(i as int) =~= units@);
    match find_nearest(&list) {
        Some(best) => Some(best.0),
        None => None,
    }
}

/// Who builds, and who is then busy on the wall before the segment is handed
/// out. Walls go round the workers: a segment goes to the nearest one without
/// one, and once all have one a fresh lap begins.
pub open spec fn assigned(
    units: Seq<ClickUnit>,
    kind: BuildingKind,
    pos: Pos,
    chain: Seq<u64>,
) -> (Option<u64>, Seq<u64>) {
    if kind == BuildingKind::Wall {
        match builder(units, pos, chain) {
            Some(id) => (Some(id), chain),
            None => (builder(units, pos, Seq::empty()), Seq::empty()),
        }
    } else {
        (builder(units, pos, Seq::empty()), chain)
    }
}

/// The site click: a valid site with a worker at hand is built on. Walls stay
/// in placement for the next segment, anything else is done.
pub open spec fn place_step(
    cat: &Catalog,
    c: &Clickables,
    kind: BuildingKind,
    ground: Pos,
    site: Site,
    ui: UiView,
) -> (UiView, Seq<Said>) {
    let pos = snapped(ground, cat.building_row(kind).size as int);
    if !may_build(cat, kind, site) {
        (ui, Seq::empty())
    } else {
        let (worker, chain) = assigned(c.units@, kind, pos, ui.wall_chain);
        match worker {
            Some(id) => (
                if kind == BuildingKind::Wall {
                    UiView { wall_chain: chain.push(id), ..ui }
                } else {
                    UiView { placement: None, wall_chain: chain, ..ui }
                },
                seq![Said::Build { worker: id, kind, at: pos }],
            ),
            None => (UiView { wall_chain: chain, ..ui }, Seq::empty()),
        }
    }
}

fn do_place(
    cat: &Catalog,
    c: &Clickables,
    kind: BuildingKind,
    ground: Pos,
    site: Site,
    ui: &mut UiState,
    out: &mut Vec<Intent>,
)
    requires
        cat.wf(),
        near_map(ground),
        said(old(out)@) == Seq::<Said>::empty(),
    ensures
        (final(ui)@, said(final(out)@)) == place_step(cat, c, kind, ground, site, old(ui)@),
{
    if !placement_valid(cat, kind, site) {
        return ;
    }
    let pos = snap_footprint(ground, cat.building(kind).size);
    let none: Vec<u64> = Vec::new();
    assert(none@ =~= Seq::<u64>::empty());
    let chaining = kind == BuildingKind::Wall;
    let mut worker: Option<u64> = None;
    if chaining {
        worker = find_builder(&c.units, pos, &ui.wall_chain);
        if worker.is_none() {
            ui.wall_chain = Vec::new();
            assert(ui.wall_chain@ =~= Seq::<u64>::empty());
            worker = find_builder(&c.units, pos, &none);
        }
    } else {
        worker = find_builder(&c.units, pos, &none);
    }
    assert((worker, ui.wall_chain@) == assigned(c.units@, kind, pos, old(ui)@.wall_chain));
    if let Some(id) = worker {
        say(out, Intent::Build { worker: id, kind, at: pos });
        if chaining {
            ui.wall_chain.push(id);
        } else {
            ui.placement = None;
        }
        assert(said(out@) =~= seq![Said::Build { worker: id, kind, at: pos }]);
    }
}

/// The posture click. Escort wants one of our units, and a miss leaves it
/// waiting; the others want ground and are done either way.
pub open spec fn posture_step(
    cat: &Catalog,
    c: &Clickables,
    ground: Option<Pos>,
    arm: crate::intent::PostureArm,
    ui: UiView,
) -> (UiView, Seq<Said>) {
    let done = UiView { posture_place: None, ..ui };
    if arm.kind == PostureKind::Escort {
        match (ground, unit_hit(cat, c.units@, Whose::Ours)) {
            (Some(_), Some(id)) => match posture_on(arm, id) {
                Some(s) => (done, seq![s]),
                None => (ui, Seq::empty()),
            },
            _ => (ui, Seq::empty()),
        }
    } else {
        match ground {
            Some(g) => match posture_at(arm, g) {
                Some(s) => (done, seq![s]),
                None => (done, Seq::empty()),
            },
            None => (done, Seq::empty()),
        }
    }
}

fn do_posture(
    cat: &Catalog,
    c: &Clickables,
    ground: Option<Pos>,
    arm: crate::intent::PostureArm,
    ui: &mut UiState,
    out: &mut Vec<Intent>,
)
    requires
        cat.wf(),
        said(old(out)@) == Seq::<Said>::empty(),
    ensures
        (final(ui)@, said(final(out)@)) == posture_step(cat, c, ground, arm, old(ui)@),
{
    if arm.kind.needs_unit() {
        if ground.is_some() {
            if let Some(id) = pick_unit(cat, &c.units, Whose::Ours) {
                if let Some(intent) = posture_unit_intent(arm, id) {
                    let ghost s = intent@;
                    say(out, intent);
                    assert(said(out@) =~= seq![s]);
                    ui.posture_place = None;
                }
            }
        }
    } else {
        if let Some(g) = ground {
            if let Some(intent) = posture_intent(arm, g) {
                let ghost s = intent@;
                say(out, intent);
                assert(said(out@) =~= seq![s]);
            }
        }
        ui.posture_place = None;
    }
}

/// The mark's click: the next free name, at the point, with the radius set.
pub open spec fn region_step(
    regions: Seq<Region>,
    ground: Option<Pos>,
    ui: UiView,
) -> (UiView, Seq<Said>) {
    (
        UiView { region_place: false, ..ui },
        match (ground, lowest_mark(regions, 1)) {
            (Some(g), Some(n)) => seq![
                Said::RegionSet {
                    name: mark_text(n as int),
                    at: on_map(g),
                    radius: match ui.region_radius {
                        Some(r) => r,
                        None => REGION_MARK_RADIUS,
                    },
                },
            ],
            _ => Seq::empty(),
        },
    )
}

fn do_region(regions: &Vec<Region>, ground: Option<Pos>, ui: &mut UiState, out: &mut Vec<Intent>)
    requires
        said(old(out)@) == Seq::<Said>::empty(),
    ensures
        (final(ui)@, said(final(out)@)) == region_step(regions@, ground, old(ui)@),
{
    if let Some(g) = ground {
        if let Some(name) = next_mark_name(regions) {
            let at = clamp_to_map(g);
            let radius: i64 = match ui.region_radius {
                Some(r) => r,
                None => REGION_MARK_RADIUS,
            };
            let ghost spelled = name@;
            say(out, Intent::RegionSet { name, at, radius });
            assert(said(out@) =~= seq![Said::RegionSet { name: spelled, at, radius }]);
        }
    }
    ui.region_place = false;
}

/// One cast per armed caster, all at the same aim.
pub open spec fn casts_at(arm: CastArmView, aim: CastTarget) -> Seq<Said> {
    arm.casters.map_values(
        |id: u64| Said::Cast { caster: id, ability: arm.slot, aim: Some(aim) },
    )
}

/// The cast's click. One that wants a unit takes anybody's, and a miss leaves
/// it waiting; one that wants ground is done either way.
pub open spec fn cast_step(
    cat: &Catalog,
    c: &Clickables,
    ground: Option<Pos>,
    arm: CastArmView,
    ui: UiView,
) -> (UiView, Seq<Said>) {
    let done = UiView { cast_place: None, ..ui };
    if arm.wants_unit {
        match (ground, unit_hit(cat, c.units@, Whose::AnyoneSeen)) {
            (Some(_), Some(id)) => (done, casts_at(arm, CastTarget::Unit(id))),
            _ => (ui, Seq::empty()),
        }
    } else {
        match ground {
            Some(g) => (done, casts_at(arm, CastTarget::Point(g))),
            None => (done, Seq::empty()),
        }
    }
}

fn say_casts_at(arm: &CastArm, aim: CastTarget, out: &mut Vec<Intent>)
    requires
        said(old(out)@) == Seq::<Said>::empty(),
    ensures
        said(final(out)@) == casts_at(arm@, aim),
{
    let ghost all = casts_at(arm@, aim);
    let mut i: usize = 0;
    assert(said(out@) =~= all.take(0));
    while i < arm.casters.len()
        invariant
            i <= arm.casters.len(),
            all == casts_at(arm@, aim),
            said(out@) == all.take(i as int),
        decreases arm.casters.len() - i,
    {
        say(out, cast_here(arm.casters[i], arm.slot, Some(aim)));
        assert(all.take(i + 1) =~= all.take(i as int).push(all[i as int]));
        i = i + 1;
    }
    assert(all.take(i as int) =~= all);
}

fn do_cast(
    cat: &Catalog,
    c: &Clickables,
    ground: Option<Pos>,
    ui: &mut UiState,
    out: &mut Vec<Intent>,
)
    requires
        cat.wf(),
        old(ui).cast_place is Some,
        said(old(out)@) == Seq::<Said>::empty(),
    ensures
        (final(ui)@, said(final(out)@)) == cast_step(
            cat,
            c,
            ground,
            old(ui)@.cast_place->0,
            old(ui)@,
        ),
{
    let mut done = false;
    if let Some(arm) = &ui.cast_place {
        if arm.wants_unit {
            if ground.is_some() {
                if let Some(id) = pick_unit(cat, &c.units, Whose::AnyoneSeen) {
                    say_casts_at(arm, CastTarget::Unit(id), out);
                    done = true;
                }
            }
        } else {
            if let Some(g) = ground {
                say_casts_at(arm, CastTarget::Point(g), out);
            }
            done = true;
        }
    }
    if done {
        ui.cast_place = None;
    }
}

/// The hall pick: a finished hall of ours under the cursor is where the
/// teleport goes, and a miss leaves it waiting.
pub open spec fn teleport_step(
    cat: &Catalog,
    c: &Clickables,
    ground: Option<Pos>,
    arm: TeleportArmView,
    ui: UiView,
) -> (UiView, Seq<Said>) {
    match ground {
        Some(g) => match building_hit(cat, c.buildings@, g, WhichBuilding::OurHall) {
            Some(hall) => (
                UiView { teleport_place: None, ..ui },
                seq![Said::UseItem { slot: arm.slot, hero: arm.hero, destination: Some(hall) }],
            ),
            None => (ui, Seq::empty()),
        },
        None => (ui, Seq::empty()),
    }
}

/// What a left press on the world does for a waiting mode; nothing where none
/// waits.
pub open spec fn press_step(
    cat: &Catalog,
    c: &Clickables,
    regions: Seq<Region>,
    ground: Option<Pos>,
    site: Site,
    ui: UiView,
) -> Option<(UiView, Seq<Said>)> {
    if ui.placement is Some && ground is Some {
        Some(place_step(cat, c, ui.placement->0, ground->0, site, ui))
    } else if ui.posture_place is Some {
        Some(posture_step(cat, c, ground, ui.posture_place->0, ui))
    } else if ui.region_place {
        Some(region_step(regions, ground, ui))
    } else if ui.cast_place is Some {
        Some(cast_step(cat, c, ground, ui.cast_place->0, ui))
    } else if ui.teleport_place is Some {
        Some(teleport_step(cat, c, ground, ui.teleport_place->0, ui))
    } else if ui.attack_move_armed {
        Some(
            (
                UiView { attack_move_armed: false, ..ui },
                match ground {
                    Some(g) => ground_said(ids_of(group(c.units@)), g, true),
                    None => Seq::empty(),
                },
            ),
        )
    } else {
        None
    }
}

/// Gives a left press on the world to the waiting mode, if there is one.
fn press(
    cat: &Catalog,
    c: &Clickables,
    regions: &Vec<Region>,
    ground: Option<Pos>,
    site: Site,
    ui: &mut UiState,
    out: &mut Vec<Intent>,
) -> (taken: bool)
    requires
        cat.wf(),
        units_named(c.units@),
        said(old(out)@) == Seq::<Said>::empty(),
        match ground {
            Some(g) => near_map(g),
            None => true,
        },
    ensures
        match press_step(cat, c, regions@, ground, site, old(ui)@) {
            Some(step) => taken && (final(ui)@, said(final(out)@)) == step,
            None => !taken && final(ui)@ == old(ui)@ && said(final(out)@) == said(old(out)@),
        },
{
    if let Some(kind) = ui.placement {
        if let Some(g) = ground {
            do_place(cat, c, kind, g, site, ui, out);
            return true;
        }
    }
    if let Some(arm) = ui.posture_place {
        do_posture(cat, c, ground, arm, ui, out);
        return true;
    }
    if ui.region_place {
        do_region(regions, ground, ui, out);
        return true;
    }
    if ui.cast_place.is_some() {
        do_cast(cat, c, ground, ui, out);
        return true;
    }
    if let Some(arm) = ui.teleport_place {
        if let Some(g) = ground {
            if let Some(hall) = pick_building(cat, &c.buildings, g, WhichBuilding::OurHall) {
                say(
                    out,
                    Intent::UseItem { slot: arm.slot, hero: arm.hero, destination: Some(hall) },
                );
                assert(said(out@) =~= seq![
                    Said::UseItem { slot: arm.slot, hero: arm.hero, destination: Some(hall) },
                ]);
                ui.teleport_place = None;
            }
        }
        return true;
    }
    if ui.attack_move_armed {
        if let Some(g) = ground {
            let units = entities_of(&list_group(&c.units));
            ground_intent(out, &units, g, true);
            assert(said(out@) =~= ground_said(ids_of(group(c.units@)), g, true));
        }
        ui.attack_move_armed = false;
        return true;
    }
    false
}

/// A click for a waiting mode keeps the next click to one meaning.
pub proof fn presses_stay_exclusive(
    cat: &Catalog,
    c: &Clickables,
    regions: Seq<Region>,
    ground: Option<Pos>,
    site: Site,
    ui: UiView,
)
    requires
        ui.exclusive(),
    ensures
        match press_step(cat, c, regions, ground, site, ui) {
            Some(step) => step.0.exclusive() && step.0.armed() <= ui.armed(),
            None => ui.armed() == 0 || ground is None,
        },
{
}

// ---------------------------------------------------------------------------
// Left button: the selection
// ---------------------------------------------------------------------------

/// The selection after a change: the new one, or the old with the newcomers
/// behind it.
pub open spec fn reselected(current: Seq<u64>, new: Seq<u64>, additive: bool) -> Seq<u64> {
    if additive {
        joined_ids(current, new)
    } else {
        joined_ids(Seq::empty(), new)
    }
}

/// A list with the ids of another behind it, each id once.
pub open spec fn joined_ids(list: Seq<u64>, more: Seq<u64>) -> Seq<u64>
    decreases more.len(),
{
    if more.len() == 0 {
        list
    } else {
        let front = joined_ids(list, more.drop_last());
        if front.contains(more.last()) {
            front
        } else {
            front.push(more.last())
        }
    }
}

/// Joining keeps everybody of both lists and adds nobody else.
pub proof fn joining_is_union(list: Seq<u64>, more: Seq<u64>)
    ensures
        forall|id: u64|
            #[trigger] joined_ids(list, more).contains(id) <==> list.contains(id)
                || more.contains(id),
    decreases more.len(),
{
    if more.len() > 0 {
        let front = joined_ids(list, more.drop_last());
        joining_is_union(list, more.drop_last());
        let x = more.last();
        assert forall|id: u64| #[trigger] joined_ids(list, more).contains(id) <==> list.contains(id)
            || more.contains(id) by {
            assert(more.contains(id) <==> more.drop_last().contains(id) || id == x) by {
                if more.contains(id) {
                    let i = choose|i: int| 0 <= i < more.len() && more[i] == id;
                    if i < more.len() - 1 {
                        assert(more.drop_last()[i] == id);
                    }
                }
                if more.drop_last().contains(id) {
                    let i = choose|i: int|
                        0 <= i < more.drop_last().len() && more.drop_last()[i] == id;
                    assert(more[i] == id);
                }
                assert(more[more.len() - 1] == x);
            }
            if !front.contains(x) {
                let after = front.push(x);
                if front.contains(id) {
                    let i = choose|i: int| 0 <= i < front.len() && front[i] == id;
                    assert(after[i] == id);
                }
                if after.contains(id) {
                    let i = choose|i: int| 0 <= i < after.len() && after[i] == id;
                    if i < front.len() {
                        assert(front[i] == id);
                    }
                }
                assert(after[front.len() as int] == x);
            }
        }
    }
}

/// Puts the ids of one list behind another, each id once.
pub fn join_ids(list: &mut Vec<u64>, more: &Vec<u64>)
    ensures
        final(list)@ == joined_ids(old(list)@, more@),
{
    let mut i: usize = 0;
    assert(list@ == joined_ids(old(list)@, more@.take(0)));
    while i < more.len()
        invariant
            i <= more.len(),
            list@ == joined_ids(old(list)@, more@.take(i as int)),
        decreases more.len() - i,
    {
        assert(more@.take(i + 1).drop_last() =~= more@.take(i as int));
        if !holds(list, more[i]) {
            list.push(more[i]);
        }
        i = i + 1;
    }
    assert(more@.take(i as int) =~= more@);
}

/// Replaces or extends a selection.
pub fn apply_selection(current: &Vec<u64>, new: &Vec<u64>, additive: bool) -> (r: Vec<u64>)
    ensures
        r@ == reselected(current@, new@, additive),
{
    let mut out: Vec<u64> = Vec::new();
    if additive {
        out = copy_ids(current);
    }
    assert(!additive ==> out@ =~= Seq::<u64>::empty());
    join_ids(&mut out, new);
    out
}

/// Whether a press has travelled far enough to be a box.
pub open spec fn far(a: Px, b: Px) -> bool {
    (a.x - b.x) * (a.x - b.x) + (a.y - b.y) * (a.y - b.y) >= DRAG_THRESHOLD * DRAG_THRESHOLD
}

fn is_far(a: Px, b: Px) -> (r: bool)
    ensures
        r == far(a, b),
{
    let d: i128 = dist_sq(Pos { x: a.x, z: a.y }, Pos { x: b.x, z: b.y });
    d >= 64_000_000
}

/// The box while the button is held.
pub open spec fn drag_step(m: Mouse, ui: UiView) -> (UiView, Option<Rect>) {
    if !m.left_held {
        (ui, None)
    } else {
        match (ui.drag_start, m.cursor) {
            (Some(start), Some(cursor)) => {
                let dragging = ui.dragging || far(start, cursor);
                (
                    UiView { dragging, ..ui },
                    if dragging {
                        Some(Rect::between(start, cursor))
                    } else {
                        None
                    },
                )
            },
            _ => (ui, None),
        }
    }
}

pub open spec fn boxed_unit(rect: Rect) -> spec_fn(ClickUnit) -> Option<u64> {
    |u: ClickUnit|
        match u.on_screen {
            Some(p) => if u.own && rect.has(p) {
                Some(u.id)
            } else {
                None
            },
            None => None,
        }
}

pub open spec fn boxed_building(rect: Rect) -> spec_fn(ClickBuilding) -> Option<u64> {
    |b: ClickBuilding|
        match b.on_screen {
            Some(p) => if b.own && rect.has(p) {
                Some(b.id)
            } else {
                None
            },
            None => None,
        }
}

/// What a box selects: our units in it, else our buildings in it, else, unless
/// it adds to the selection, nothing.
pub open spec fn box_selects(c: &Clickables, rect: Rect, additive: bool) -> Option<Seq<u64>> {
    let units = picked(c.units@, boxed_unit(rect));
    let buildings = picked(c.buildings@, boxed_building(rect));
    if units.len() > 0 {
        Some(units)
    } else if buildings.len() > 0 {
        Some(buildings)
    } else if additive {
        None
    } else {
        Some(Seq::empty())
    }
}

/// What a plain click selects: our unit under it, else our building under it,
/// else, unless it adds to the selection, nothing.
pub open spec fn click_selects(
    cat: &Catalog,
    c: &Clickables,
    ground: Pos,
    additive: bool,
) -> Option<Seq<u64>> {
    match unit_hit(cat, c.units@, Whose::Ours) {
        Some(id) => Some(seq![id]),
        None => match building_hit(cat, c.buildings@, ground, WhichBuilding::Ours) {
            Some(id) => Some(seq![id]),
            None => if additive {
                None
            } else {
                Some(Seq::empty())
            },
        },
    }
}

/// What letting the button go selects.
pub open spec fn release_selects(
    cat: &Catalog,
    c: &Clickables,
    m: Mouse,
    ui: UiView,
) -> Option<Seq<u64>> {
    match (ui.drag_start, m.cursor) {
        (Some(start), Some(cursor)) => if ui.dragging {
            box_selects(c, Rect::between(start, cursor), m.shift)
        } else if on_hud(cursor, m.window, ui.notif_rows as nat, ui.prop_cards as nat, m.hud) {
            None
        } else {
            match m.ground {
                Some(g) => click_selects(cat, c, g, m.shift),
                None => None,
            }
        },
        _ => None,
    }
}

fn list_boxed(c: &Clickables, rect: Rect) -> (r: (Vec<u64>, Vec<u64>))
    ensures
        r.0@ == picked(c.units@, boxed_unit(rect)),
        r.1@ == picked(c.buildings@, boxed_building(rect)),
{
    let mut units: Vec<u64> = Vec::new();
    let mut i: usize = 0;
    while i < c.units.len()
        invariant
            i <= c.units.len(),
            units@ == picked(c.units@.take(i as int), boxed_unit(rect)),
        decreases c.units.len() - i,
    {
        proof {
            picked_step(c.units@, i as int, boxed_unit(rect));
        }
        if let Some(p) = c.units[i].on_screen {
            if c.units[i].own && rect.contains(p) {
                units.push(c.units[i].id);
            }
        }
        i = i + 1;
    }
    assert(c.units@.take(i as int) =~= c.units@);
    let mut buildings: Vec<u64> = Vec::new();
    let mut j: usize = 0;
    while j < c.buildings.len()
        invariant
            j <= c.buildings.len(),
            buildings@ == picked(c.buildings@.take(j as int), boxed_building(rect)),
        decreases c.buildings.len() - j,
    {
        proof {
            picked_step(c.buildings@, j as int, boxed_building(rect));
        }
        if let Some(p) = c.buildings[j].on_screen {
            if c.buildings[j].own && rect.contains(p) {
                buildings.push(c.buildings[j].id);
            }
        }
        j = j + 1;
    }
    assert(c.buildings@.take(j as int) =~= c.buildings@);
    (units, buildings)
}

/// The selected ids of an optional selection.
pub open spec fn chosen(s: Option<Vec<u64>>) -> Option<Seq<u64>> {
    match s {
        Some(v) => Some(v@),
        None => None,
    }
}

fn choose_boxed(c: &Clickables, rect: Rect, additive: bool) -> (r: Option<Vec<u64>>)
    ensures
        chosen(r) == box_selects(c, rect, additive),
{
    let (units, buildings) = list_boxed(c, rect);
    if units.len() > 0 {
        Some(units)
    } else if buildings.len() > 0 {
        Some(buildings)
    } else if additive {
        None
    } else {
        let none: Vec<u64> = Vec::new();
        assert(none@ =~= Seq::<u64>::empty());
        Some(none)
    }
}

fn choose_clicked(cat: &Catalog, c: &Clickables, ground: Pos, additive: bool) -> (r: Option<Vec<u64>>)
    requires
        cat.wf(),
    ensures
        chosen(r) == click_selects(cat, c, ground, additive),
{
    let hit = match pick_unit(cat, &c.units, Whose::Ours) {
        Some(id) => Some(id),
        None => pick_building(cat, &c.buildings, ground, WhichBuilding::Ours),
    };
    let mut ids: Vec<u64> = Vec::new();
    match hit {
        Some(id) => {
            ids.push(id);
            assert(ids@ =~= seq![id]);
            Some(ids)
        },
        None => {
            if additive {
                None
            } else {
                assert(ids@ =~= Seq::<u64>::empty());
                Some(ids)
            }
        },
    }
}

fn choose_released(cat: &Catalog, c: &Clickables, m: &Mouse, ui: &UiState) -> (r: Option<Vec<u64>>)
    requires
        cat.wf(),
    ensures
        chosen(r) == release_selects(cat, c, *m, ui@),
{
    if let Some(start) = ui.drag_start {
        if let Some(cursor) = m.cursor {
            if ui.dragging {
                return choose_boxed(c, Rect::from_corners(start, cursor), m.shift);
            }
            if cursor_over_hud(cursor, m.window, ui.notif_rows, ui.prop_cards, m.hud) {
                return None;
            }
            if let Some(g) = m.ground {
                return choose_clicked(cat, c, g, m.shift);
            }
        }
    }
    None
}

/// What becomes of the box on screen.
#[derive(Clone, Copy, PartialEq, Eq, Debug, Structural)]
pub enum DragBox {
    Leave,
    Show(Rect),
    Hide,
}

/// What a frame of the left button leads to besides the state it leaves.
#[derive(Debug)]
pub struct LeftOut {
    pub intents: Vec<Intent>,
    /// The selection, and whether it joins the one before.
    pub select: Option<Vec<u64>>,
    pub additive: bool,
    pub drag_box: DragBox,
}

/// Everything a frame of the left button leads to.
pub struct LeftStep {
    pub ui: UiView,
    pub said: Seq<Said>,
    pub select: Option<Seq<u64>>,
    pub drag_box: DragBox,
}

/// The press of a frame: for a waiting mode, or the start of a drag.
pub open spec fn pressed(
    cat: &Catalog,
    c: &Clickables,
    regions: Seq<Region>,
    m: Mouse,
    site: Site,
    ui: UiView,
) -> (UiView, Seq<Said>, bool) {
    match m.cursor {
        Some(cursor) if m.left_pressed && !on_hud(
            cursor,
            m.window,
            ui.notif_rows as nat,
            ui.prop_cards as nat,
            m.hud,
        ) => match press_step(cat, c, regions, m.ground, site, ui) {
            Some(step) => (step.0, step.1, true),
            None => (
                UiView { drag_start: Some(cursor), dragging: false, ..ui },
                Seq::empty(),
                false,
            ),
        },
        _ => (ui, Seq::empty(), false),
    }
}

/// A frame of the left button. Nothing happens once the game is over; a press
/// that a waiting mode takes is all there is; otherwise the box follows the
/// cursor and letting go selects.
pub open spec fn left_step(
    cat: &Catalog,
    c: &Clickables,
    regions: Seq<Region>,
    m: Mouse,
    site: Site,
    game_over: bool,
    ui: UiView,
) -> LeftStep {
    if game_over {
        LeftStep { ui, said: Seq::empty(), select: None, drag_box: DragBox::Hide }
    } else {
        let (after, spoken, taken) = pressed(cat, c, regions, m, site, ui);
        if taken {
            LeftStep { ui: after, said: spoken, select: None, drag_box: DragBox::Leave }
        } else {
            let (dragged, shown) = drag_step(m, after);
            if m.left_released {
                LeftStep {
                    ui: UiView { drag_start: None, dragging: false, ..dragged },
                    said: Seq::empty(),
                    select: release_selects(cat, c, m, dragged),
                    drag_box: DragBox::Hide,
                }
            } else {
                LeftStep {
                    ui: dragged,
                    said: Seq::empty(),
                    select: None,
                    drag_box: match shown {
                        Some(rect) => DragBox::Show(rect),
                        None => DragBox::Leave,
                    },
                }
            }
        }
    }
}

/// The left mouse button.
pub fn left_mouse(
    cat: &Catalog,
    c: &Clickables,
    regions: &Vec<Region>,
    m: &Mouse,
    site: Site,
    game_over: bool,
    ui: &mut UiState,
) -> (r: LeftOut)
    requires
        cat.wf(),
        m.wf(),
        units_named(c.units@),
    ensures
        ({
            let step = left_step(cat, c, regions@, *m, site, game_over, old(ui)@);
            &&& final(ui)@ == step.ui
            &&& said(r.intents@) == step.said
            &&& chosen(r.select) == step.select
            &&& r.additive == m.shift
            &&& r.drag_box == step.drag_box
        }),
{
    let mut out: Vec<Intent> = Vec::new();
    assert(said(out@) =~= Seq::<Said>::empty());
    let additive = m.shift;
    if game_over {
        return LeftOut { intents: out, select: None, additive, drag_box: DragBox::Hide };
    }
    if m.left_pressed {
        if let Some(cursor) = m.cursor {
            if !cursor_over_hud(cursor, m.window, ui.notif_rows, ui.prop_cards, m.hud) {
                if press(cat, c, regions, m.ground, site, ui, &mut out) {
                    return LeftOut {
                        intents: out,
                        select: None,
                        additive,
                        drag_box: DragBox::Leave,
                    };
                }
                ui.drag_start = Some(cursor);
                ui.dragging = false;
            }
        }
    }
    let ghost after = ui@;
    assert((after, Seq::<Said>::empty(), false) == pressed(cat, c, regions@, *m, site, old(ui)@));
    let mut drag_box = DragBox::Leave;
    if m.left_held {
        if let Some(start) = ui.drag_start {
            if let Some(cursor) = m.cursor {
                if is_far(start, cursor) {
                    ui.dragging = true;
                }
                if ui.dragging {
                    drag_box = DragBox::Show(Rect::from_corners(start, cursor));
                }
            }
        }
    }
    assert(ui@ == drag_step(*m, after).0);
    if m.left_released {
        let select = choose_released(cat, c, m, ui);
        ui.drag_start = None;
        ui.dragging = false;
        return LeftOut { intents: out, select, additive, drag_box: DragBox::Hide };
    }
    LeftOut { intents: out, select: None, additive, drag_box }
}

/// A frame of the left button keeps the next click to one meaning.
pub proof fn left_button_stays_exclusive(
    cat: &Catalog,
    c: &Clickables,
    regions: Seq<Region>,
    m: Mouse,
    site: Site,
    game_over: bool,
    ui: UiView,
)
    requires
        ui.exclusive(),
    ensures
        left_step(cat, c, regions, m, site, game_over, ui).ui.exclusive(),
{
    presses_stay_exclusive(cat, c, regions, m.ground, site, ui);
}

} // verus!
