//! Building walls: one segment a click, and the workers take turns.

use vstd::prelude::*;

use crate::catalog::{BuildingKind, Catalog};
use crate::gestures::{builder, free_builder, left_step, may_build, Mouse, Site};
use crate::intent::Said;
use crate::layout::on_hud;
use crate::lists::{nearest_is_nearest, picked};
use crate::map::{dist2, snapped, Pos};
use crate::pick::{ClickUnit, Clickables};
use crate::readouts::Region;
use crate::ui_state::UiView;

verus! {

/// A left click in the world, as it was when the button went down.
pub struct WallClick {
    pub c: Clickables,
    pub m: Mouse,
    pub site: Site,
}

impl WallClick {
    /// Where the segment goes.
    pub open spec fn spot(self, cat: &Catalog) -> Pos {
        snapped(self.m.ground->0, cat.building_row(BuildingKind::Wall).size as int)
    }
}

/// Whether a unit is a selected worker of ours.
pub open spec fn is_hand(u: ClickUnit) -> bool {
    u.selected && u.own && u.worker
}

/// Whether the selected workers are those of a list.
pub open spec fn hands_are(units: Seq<ClickUnit>, ws: Seq<u64>) -> bool {
    &&& forall|i: int|
        0 <= i < units.len() && is_hand(#[trigger] units[i]) ==> ws.contains(units[i].id)
    &&& forall|k: int|
        0 <= k < ws.len() ==> exists|i: int|
            0 <= i < units.len() && is_hand(#[trigger] units[i]) && units[i].id == #[trigger] ws[k]
}

/// A click on ground where a segment can go up, with the workers selected.
pub open spec fn good_click(cat: &Catalog, k: WallClick, ui: UiView, ws: Seq<u64>) -> bool {
    &&& k.m.left_pressed
    &&& k.m.cursor is Some
    &&& !on_hud(
        k.m.cursor->0,
        k.m.window,
        ui.notif_rows as nat,
        ui.prop_cards as nat,
        k.m.hud,
    )
    &&& k.m.ground is Some
    &&& may_build(cat, BuildingKind::Wall, k.site)
    &&& hands_are(k.c.units@, ws)
}

/// The interface after a list of clicks, and all that was said.
pub open spec fn clicked_on(
    cat: &Catalog,
    regions: Seq<Region>,
    clicks: Seq<WallClick>,
    ui: UiView,
) -> (UiView, Seq<Said>)
    decreases clicks.len(),
{
    if clicks.len() == 0 {
        (ui, Seq::empty())
    } else {
        let (before, spoken) = clicked_on(cat, regions, clicks.drop_last(), ui);
        let k = clicks.last();
        let step = left_step(cat, &k.c, regions, k.m, k.site, false, before);
        (step.ui, spoken + step.said)
    }
}

proof fn picked_has<T, U>(s: Seq<T>, f: spec_fn(T) -> Option<U>, i: int)
    requires
        0 <= i < s.len(),
        f(s[i]) is Some,
    ensures
        picked(s, f).contains(f(s[i])->0),
    decreases s.len(),
{
    let front = picked(s.drop_last(), f);
    if i < s.len() - 1 {
        assert(s.drop_last()[i] == s[i]);
        picked_has(s.drop_last(), f, i);
        let k = choose|k: int| 0 <= k < front.len() && front[k] == f(s[i])->0;
        assert(picked(s, f)[k] == f(s[i])->0);
    } else {
        assert(picked(s, f)[front.len() as int] == f(s[i])->0);
    }
}

proof fn picked_from<T, U>(s: Seq<T>, f: spec_fn(T) -> Option<U>, k: int) -> (i: int)
    requires
        0 <= k < picked(s, f).len(),
    ensures
        0 <= i < s.len(),
        f(s[i]) == Some(picked(s, f)[k]),
    decreases s.len(),
{
    let front = picked(s.drop_last(), f);
    if k < front.len() {
        let i = picked_from(s.drop_last(), f, k);
        assert(s.drop_last()[i] == s[i]);
        i
    } else {
        s.len() - 1
    }
}

/// Somebody in a list of distinct ids is missing from a shorter one.
proof fn somebody_is_free(ws: Seq<u64>, chain: Seq<u64>) -> (k: int)
    requires
        ws.no_duplicates(),
        chain.len() < ws.len(),
    ensures
        0 <= k < ws.len(),
        !chain.contains(ws[k]),
{
    if forall|k: int| 0 <= k < ws.len() ==> chain.contains(#[trigger] ws[k]) {
        ws.unique_seq_to_set();
        chain.lemma_cardinality_of_set();
        assert(ws.to_set().subset_of(chain.to_set())) by {
            assert forall|x: u64| ws.to_set().contains(x) implies chain.to_set().contains(x) by {
                let k = choose|k: int| 0 <= k < ws.len() && ws[k] == x;
                assert(chain.contains(ws[k]));
            }
        }
        vstd::set_lib::lemma_len_subset(ws.to_set(), chain.to_set());
        assert(false);
    }
    choose|k: int| 0 <= k < ws.len() && !chain.contains(#[trigger] ws[k])
}

/// While somebody is free, the free worker nearest the site takes it.
pub proof fn the_nearest_free_hand_builds(
    units: Seq<ClickUnit>,
    pos: Pos,
    chain: Seq<u64>,
    ws: Seq<u64>,
) -> (i: int)
    requires
        hands_are(units, ws),
        ws.no_duplicates(),
        chain.len() < ws.len(),
    ensures
        0 <= i < units.len(),
        is_hand(units[i]),
        !chain.contains(units[i].id),
        ws.contains(units[i].id),
        builder(units, pos, chain) == Some(units[i].id),
        forall|j: int|
            0 <= j < units.len() && is_hand(#[trigger] units[j]) && !chain.contains(units[j].id)
                ==> dist2(units[i].pos, pos) <= dist2(units[j].pos, pos),
{
    let f = free_builder(pos, chain);
    let list = picked(units, f);
    let k = somebody_is_free(ws, chain);
    let one = choose|i: int|
        0 <= i < units.len() && is_hand(#[trigger] units[i]) && units[i].id == ws[k];
    assert(f(units[one]) is Some);
    picked_has(units, f, one);
    let best = nearest_is_nearest(list);
    let i = picked_from(units, f, best);
    assert forall|j: int|
        0 <= j < units.len() && is_hand(#[trigger] units[j]) && !chain.contains(
            units[j].id,
        ) implies dist2(units[i].pos, pos) <= dist2(units[j].pos, pos) by {
        assert(f(units[j]) is Some);
        picked_has(units, f, j);
        let q = choose|q: int| 0 <= q < list.len() && list[q] == f(units[j])->0;
        assert(list[best].1 <= list[q].1);
        distances_fit(units[i].pos, pos);
        distances_fit(units[j].pos, pos);
    }
    i
}

proof fn distances_fit(a: Pos, b: Pos)
    ensures
        0 <= dist2(a, b) <= i128::MAX,
{
    let dx = a.x - b.x;
    let dz = a.z - b.z;
    assert(0 <= dx * dx <= 0x1_0000_0000 * 0x1_0000_0000) by (nonlinear_arith)
        requires
            -0x1_0000_0000 <= dx <= 0x1_0000_0000,
    ;
    assert(0 <= dz * dz <= 0x1_0000_0000 * 0x1_0000_0000) by (nonlinear_arith)
        requires
            -0x1_0000_0000 <= dz <= 0x1_0000_0000,
    ;
}

/// While walls are being placed each click is one segment, built by the nearest
/// selected worker who has none yet: nobody is used again before everybody has
/// been used once, and placement stays armed throughout.
pub proof fn workers_take_turns(
    cat: &Catalog,
    regions: Seq<Region>,
    clicks: Seq<WallClick>,
    ui: UiView,
    ws: Seq<u64>,
)
    requires
        ui.placement == Some(BuildingKind::Wall),
        ui.wall_chain.len() == 0,
        ws.no_duplicates(),
        clicks.len() <= ws.len(),
        forall|i: int| 0 <= i < clicks.len() ==> good_click(cat, #[trigger] clicks[i], ui, ws),
    ensures
        ({
            let (after, spoken) = clicked_on(cat, regions, clicks, ui);
            let chain = after.wall_chain;
            &&& after == (UiView { wall_chain: chain, ..ui })
            &&& chain.len() == clicks.len()
            &&& chain.no_duplicates()
            &&& spoken.len() == clicks.len()
            &&& forall|i: int|
                0 <= i < clicks.len() ==> {
                    &&& ws.contains(#[trigger] chain[i])
                    &&& builder(clicks[i].c.units@, clicks[i].spot(cat), chain.take(i)) == Some(
                        chain[i],
                    )
                    &&& spoken[i] == (Said::Build {
                        worker: chain[i],
                        kind: BuildingKind::Wall,
                        at: clicks[i].spot(cat),
                    })
                }
            &&& clicks.len() == ws.len() ==> forall|k: int|
                0 <= k < ws.len() ==> chain.contains(#[trigger] ws[k])
        }),
    decreases clicks.len(),
{
    let (after, spoken) = clicked_on(cat, regions, clicks, ui);
    let chain = after.wall_chain;
    if clicks.len() == 0 {
        assert(after == UiView { wall_chain: chain, ..ui });
    } else {
        let front = clicks.drop_last();
        let n = front.len() as int;
        assert forall|i: int| 0 <= i < front.len() implies good_click(
            cat,
            #[trigger] front[i],
            ui,
            ws,
        ) by {
            assert(front[i] == clicks[i]);
        }
        workers_take_turns(cat, regions, front, ui, ws);
        let (before, said) = clicked_on(cat, regions, front, ui);
        let k = clicks[n];
        assert(k == clicks.last());
        assert(good_click(cat, clicks[n], ui, ws));
        let i = the_nearest_free_hand_builds(k.c.units@, k.spot(cat), before.wall_chain, ws);
        let id = k.c.units@[i].id;
        let step = left_step(cat, &k.c, regions, k.m, k.site, false, before);
        assert(step.said == seq![
            Said::Build { worker: id, kind: BuildingKind::Wall, at: k.spot(cat) },
        ]);
        assert(step.ui == UiView { wall_chain: before.wall_chain.push(id), ..before });
        assert(chain =~= before.wall_chain.push(id));
        assert forall|j: int| 0 <= j < clicks.len() implies {
            &&& ws.contains(#[trigger] chain[j])
            &&& builder(clicks[j].c.units@, clicks[j].spot(cat), chain.take(j)) == Some(chain[j])
            &&& spoken[j] == (Said::Build {
                worker: chain[j],
                kind: BuildingKind::Wall,
                at: clicks[j].spot(cat),
            })
        } by {
            if j < n {
                assert(front[j] == clicks[j]);
                assert(chain[j] == before.wall_chain[j]);
                assert(chain.take(j) =~= before.wall_chain.take(j));
            } else {
                assert(chain.take(j) =~= before.wall_chain);
            }
        }
    }
    if clicks.len() == ws.len() {
        ws.unique_seq_to_set();
        chain.unique_seq_to_set();
        assert(chain.to_set().subset_of(ws.to_set())) by {
            assert forall|x: u64| chain.to_set().contains(x) implies ws.to_set().contains(x) by {
                let j = choose|j: int| 0 <= j < chain.len() && chain[j] == x;
                assert(ws.contains(chain[j]));
            }
        }
        vstd::set_lib::lemma_subset_equality(chain.to_set(), ws.to_set());
        assert forall|j: int| 0 <= j < ws.len() implies chain.contains(#[trigger] ws[j]) by {
            assert(ws.to_set().contains(ws[j]));
        }
    }
}

} // verus!
