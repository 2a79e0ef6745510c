//! One rule of knowability: nothing the mouse does, and nothing it is shown,
//! depends on what the fog hides.

use vstd::prelude::*;

use crate::catalog::Catalog;
use crate::controls::{hall_near, minimap_step};
use crate::gestures::{
    boxed_building, boxed_unit, context_said, free_builder, left_step, pressed, rallies,
    release_selects, right_step, Mouse, Site,
};
use crate::intent::RallyTo;
use crate::layout::Rect;
use crate::lists::picked;
use crate::map::Pos;
use crate::minimap::{
    building_dot, dots, hover, hovered_building, hovered_unit, unit_dot, under_cursor, Blip,
};
use crate::pick::{
    building_at, own_selected, unit_in_reach, ClickBuilding, ClickUnit, Clickables, WhichBuilding,
    Whose,
};
use crate::readouts::Region;
use crate::ui_state::UiView;

verus! {

/// A unit the player knows of.
pub open spec fn met_unit() -> spec_fn(ClickUnit) -> Option<ClickUnit> {
    |u: ClickUnit|
        if u.own || u.seen {
            Some(u)
        } else {
            None
        }
}

/// A building the player sees.
pub open spec fn met_building() -> spec_fn(ClickBuilding) -> Option<ClickBuilding> {
    |b: ClickBuilding|
        if b.own || b.seen {
            Some(b)
        } else {
            None
        }
}

/// A unit or building the minimap may know of.
pub open spec fn met_blip() -> spec_fn(Blip) -> Option<Blip> {
    |b: Blip|
        if b.human || b.seen {
            Some(b)
        } else {
            None
        }
}

/// Two worlds that look the same to the player: they differ at most in what the
/// fog hides.
pub open spec fn look_alike(c: &Clickables, d: &Clickables) -> bool {
    &&& picked(c.units@, met_unit()) == picked(d.units@, met_unit())
    &&& picked(c.buildings@, met_building()) == picked(d.buildings@, met_building())
    &&& c.nodes@ == d.nodes@
    &&& c.ghosts@ == d.ghosts@
}

/// A question that overlooks what a sieve drops has the same answers after it.
proof fn sieved<T, U>(s: Seq<T>, keep: spec_fn(T) -> Option<T>, f: spec_fn(T) -> Option<U>)
    requires
        forall|x: T| #[trigger] keep(x) is None ==> f(x) is None,
        forall|x: T| #[trigger] keep(x) is Some ==> keep(x) == Some(x),
    ensures
        picked(picked(s, keep), f) == picked(s, f),
    decreases s.len(),
{
    if s.len() > 0 {
        let front = s.drop_last();
        let x = s.last();
        sieved(front, keep, f);
        if keep(x) is Some {
            let kept = picked(front, keep);
            assert(kept.push(x).drop_last() =~= kept);
            assert(kept.push(x).last() == x);
        }
    }
}

proof fn same_units<U>(a: Seq<ClickUnit>, b: Seq<ClickUnit>, f: spec_fn(ClickUnit) -> Option<U>)
    requires
        picked(a, met_unit()) == picked(b, met_unit()),
        forall|u: ClickUnit| !u.own && !u.seen ==> #[trigger] f(u) is None,
    ensures
        picked(a, f) == picked(b, f),
{
    assert forall|u: ClickUnit| #[trigger] met_unit()(u) is None implies f(u) is None by {
        assert(!u.own && !u.seen);
    }
    sieved(a, met_unit(), f);
    sieved(b, met_unit(), f);
}

proof fn same_buildings<U>(
    a: Seq<ClickBuilding>,
    b: Seq<ClickBuilding>,
    f: spec_fn(ClickBuilding) -> Option<U>,
)
    requires
        picked(a, met_building()) == picked(b, met_building()),
        forall|u: ClickBuilding| !u.own && !u.seen ==> #[trigger] f(u) is None,
    ensures
        picked(a, f) == picked(b, f),
{
    assert forall|u: ClickBuilding| #[trigger] met_building()(u) is None implies f(u) is None by {
        assert(!u.own && !u.seen);
    }
    sieved(a, met_building(), f);
    sieved(b, met_building(), f);
}

proof fn same_context(cat: &Catalog, c: &Clickables, d: &Clickables, ground: Pos)
    requires
        look_alike(c, d),
    ensures
        context_said(cat, c, ground) == context_said(cat, d, ground),
{
    same_units(c.units@, d.units@, own_selected());
    same_units(c.units@, d.units@, unit_in_reach(cat, Whose::Ours));
    same_units(c.units@, d.units@, unit_in_reach(cat, Whose::SeenEnemy));
    same_buildings(
        c.buildings@,
        d.buildings@,
        building_at(cat, ground, WhichBuilding::SeenEnemy),
    );
    same_buildings(c.buildings@, d.buildings@, building_at(cat, ground, WhichBuilding::OurHall));
    assert forall|to: RallyTo| #[trigger]
        picked(c.buildings@, rallies(cat, to)) == picked(d.buildings@, rallies(cat, to)) by {
        same_buildings(c.buildings@, d.buildings@, rallies(cat, to));
    }
}

/// A right click never tells what the fog hides: two worlds that look alike are
/// answered alike.
pub proof fn right_clicks_find_nothing_out(
    cat: &Catalog,
    c: &Clickables,
    d: &Clickables,
    m: Mouse,
    game_over: bool,
    ui: UiView,
)
    requires
        look_alike(c, d),
    ensures
        right_step(cat, c, m, game_over, ui) == right_step(cat, d, m, game_over, ui),
{
    match m.ground {
        Some(ground) => same_context(cat, c, d, ground),
        None => {},
    }
}

/// Hovering never tells what the fog hides.
pub proof fn hovering_finds_nothing_out(
    cat: &Catalog,
    c: &Clickables,
    d: &Clickables,
    m: Mouse,
    game_over: bool,
    workers: bool,
    ui: UiView,
)
    requires
        look_alike(c, d),
    ensures
        hover(cat, c, m, game_over, workers, ui) == hover(cat, d, m, game_over, workers, ui),
{
    match m.ground {
        Some(ground) => {
            same_units(c.units@, d.units@, hovered_unit(cat));
            same_buildings(c.buildings@, d.buildings@, hovered_building(cat, ground));
            assert(under_cursor(cat, c, ground, workers) == under_cursor(cat, d, ground, workers));
        },
        None => {},
    }
}

/// A left click never tells what the fog hides.
pub proof fn left_clicks_find_nothing_out(
    cat: &Catalog,
    c: &Clickables,
    d: &Clickables,
    regions: Seq<Region>,
    m: Mouse,
    site: Site,
    game_over: bool,
    ui: UiView,
)
    requires
        look_alike(c, d),
    ensures
        left_step(cat, c, regions, m, site, game_over, ui) == left_step(
            cat,
            d,
            regions,
            m,
            site,
            game_over,
            ui,
        ),
{
    same_units(c.units@, d.units@, own_selected());
    same_units(c.units@, d.units@, unit_in_reach(cat, Whose::Ours));
    same_units(c.units@, d.units@, unit_in_reach(cat, Whose::AnyoneSeen));
    assert forall|pos: Pos, busy: Seq<u64>| #[trigger]
        picked(c.units@, free_builder(pos, busy)) == picked(d.units@, free_builder(pos, busy)) by {
        same_units(c.units@, d.units@, free_builder(pos, busy));
    }
    assert forall|rect: Rect| #[trigger]
        picked(c.units@, boxed_unit(rect)) == picked(d.units@, boxed_unit(rect)) by {
        same_units(c.units@, d.units@, boxed_unit(rect));
    }
    assert forall|rect: Rect| #[trigger]
        picked(c.buildings@, boxed_building(rect)) == picked(
        d.buildings@,
        boxed_building(rect),
    ) by {
        same_buildings(c.buildings@, d.buildings@, boxed_building(rect));
    }
    match m.ground {
        Some(g) => {
            same_buildings(c.buildings@, d.buildings@, building_at(cat, g, WhichBuilding::Ours));
            same_buildings(c.buildings@, d.buildings@, building_at(cat, g, WhichBuilding::OurHall));
        },
        None => {},
    }
    assert(pressed(cat, c, regions, m, site, ui) == pressed(cat, d, regions, m, site, ui));
    assert forall|v: UiView| #[trigger]
        release_selects(cat, c, m, v) == release_selects(cat, d, m, v) by {}
}

/// A click on the minimap never tells what the fog hides.
pub proof fn minimap_clicks_find_nothing_out(
    cat: &Catalog,
    c: &Clickables,
    d: &Clickables,
    m: Mouse,
    game_over: bool,
    ui: UiView,
)
    requires
        look_alike(c, d),
    ensures
        minimap_step(cat, c, m, game_over, ui) == minimap_step(cat, d, m, game_over, ui),
{
    same_units(c.units@, d.units@, own_selected());
    assert forall|ground: Pos| #[trigger]
        picked(c.buildings@, hall_near(cat, ground)) == picked(
        d.buildings@,
        hall_near(cat, ground),
    ) by {
        same_buildings(c.buildings@, d.buildings@, hall_near(cat, ground));
    }
}

/// The minimap never shows what the fog hides.
pub proof fn the_minimap_shows_only_what_is_known(
    units: Seq<Blip>,
    other_units: Seq<Blip>,
    buildings: Seq<Blip>,
    other_buildings: Seq<Blip>,
    ghosts: Seq<Blip>,
    sightings: Seq<Blip>,
    px: int,
)
    requires
        picked(units, met_blip()) == picked(other_units, met_blip()),
        picked(buildings, met_blip()) == picked(other_buildings, met_blip()),
    ensures
        dots(units, buildings, ghosts, sightings, px) == dots(
            other_units,
            other_buildings,
            ghosts,
            sightings,
            px,
        ),
{
    sieved(units, met_blip(), unit_dot(px));
    sieved(other_units, met_blip(), unit_dot(px));
    sieved(buildings, met_blip(), building_dot(px));
    sieved(other_buildings, met_blip(), building_dot(px));
}

} // verus!
