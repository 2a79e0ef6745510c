//! What the digits, the panel and the minimap come to: who is gathered in a
//! group, whom a tile selects or cancels, and where a click on the small map
//! leads.

use vstd::prelude::*;

use crate::catalog::Catalog;
use crate::clicks::{
    apart, distances_fit, groups_are_the_selection, ids_at, selected_who, winners_are_nearest,
};
use crate::controls::{
    card_pick, group_after, group_recall, group_said, groups_after, groups_recall, groups_said,
    hall_named, hall_near, joining, joins, leavers, leaves, minimap_point, minimap_step,
    queue_cancel, standing, stands, stays_out, without, PanelClick, PanelFacts, Roster,
};
use crate::gestures::{joining_is_union, Mouse};
use crate::intent::Said;
use crate::layout::from_minimap;
use crate::lists::picked_holds;
use crate::map::{rounded, rounded_is_bounded, rounded_is_close, Pos};
use crate::pick::{ClickUnit, Clickables};
use crate::presses::pulled_in;
use crate::ui_state::{Px, UiView};

verus! {

// ---------------------------------------------------------------------------
// Digits
// ---------------------------------------------------------------------------

/// A selected unit of ours.
pub open spec fn selects_ours(r: &Roster, id: u64) -> bool {
    r.selected@.contains(id) && exists|i: int|
        0 <= i < r.members@.len() && (#[trigger] r.members@[i]).id == id && r.members@[i].own
}

/// A unit of ours that is in the squad and not selected.
pub open spec fn left_behind(r: &Roster, slot: u8, id: u64) -> bool {
    exists|i: int|
        0 <= i < r.members@.len() && (#[trigger] r.members@[i]).id == id && r.members@[i].own
            && r.members@[i].squad == Some(slot) && !selects_ours(r, id)
}

proof fn those_who_join(r: &Roster, id: u64)
    ensures
        joining(r).contains(id) <==> selects_ours(r, id),
{
    let f = joins(r.members@);
    picked_holds(r.selected@, f, id);
    if selects_ours(r, id) {
        let i = choose|i: int| 0 <= i < r.selected@.len() && r.selected@[i] == id;
        assert(f(r.selected@[i]) == Some(id));
    }
}

proof fn those_who_leave(r: &Roster, slot: u8, id: u64)
    ensures
        leavers(r, slot).contains(id) <==> left_behind(r, slot, id),
{
    let f = leaves(slot, joining(r));
    picked_holds(r.members@, f, id);
    those_who_join(r, id);
    if left_behind(r, slot, id) {
        let i = choose|i: int|
            0 <= i < r.members@.len() && (#[trigger] r.members@[i]).id == id && r.members@[i].own
                && r.members@[i].squad == Some(slot) && !selects_ours(r, id);
        assert(f(r.members@[i]) == Some(id));
    }
}

proof fn those_who_stand(alive: Seq<u64>, held: Seq<u64>, id: u64)
    ensures
        standing(alive, held).contains(id) <==> held.contains(id) && alive.contains(id),
{
    let f = stands(alive);
    picked_holds(held, f, id);
    if held.contains(id) && alive.contains(id) {
        let i = choose|i: int| 0 <= i < held.len() && held[i] == id;
        assert(f(held[i]) == Some(id));
    }
}

/// The list tells exactly the ones of whom `who` holds to be in the squad, and
/// says nothing where there are none.
pub open spec fn puts_in_squad(s: Seq<Said>, who: spec_fn(u64) -> bool, squad: Option<u8>) -> bool {
    &&& s.len() == 0 <==> forall|id: u64| !#[trigger] who(id)
    &&& s.len() > 0 ==> {
        &&& s.len() == 1
        &&& s[0] is Squad
        &&& s[0]->Squad_id == squad
        &&& forall|id: u64| #[trigger] (s[0]->Squad_units).contains(id) <==> who(id)
    }
}

/// With control held a digit makes the selection its group. Our units among it
/// are put in the squad, and before that those of ours in the squad who are not
/// among it are taken out.
pub proof fn control_replaces_the_group(
    r: &Roster,
    shift: bool,
    slot: u8,
    held: Seq<u64>,
    before: Seq<u64>,
) -> (s: (Seq<Said>, Seq<Said>))
    requires
        !r.game_over,
    ensures
        group_after(r, true, shift, held) == r.selected@,
        group_recall(r, true, shift, held, before) == before,
        group_said(r, true, shift, slot) == s.0 + s.1,
        puts_in_squad(s.0, |id: u64| left_behind(r, slot, id), None),
        puts_in_squad(s.1, |id: u64| selects_ours(r, id), Some(slot)),
{
    let out = crate::lists::only_if(
        leavers(r, slot).len() > 0,
        Said::Squad { units: leavers(r, slot), id: None },
    );
    let join = crate::lists::only_if(
        joining(r).len() > 0,
        Said::Squad { units: joining(r), id: Some(slot) },
    );
    assert forall|id: u64| joining(r).contains(id) <==> selects_ours(r, id) by {
        those_who_join(r, id);
    }
    assert forall|id: u64| leavers(r, slot).contains(id) <==> left_behind(r, slot, id) by {
        those_who_leave(r, slot, id);
    }
    if joining(r).len() > 0 {
        assert(joining(r).contains(joining(r)[0]));
        assert((|id: u64| selects_ours(r, id))(joining(r)[0]));
    } else {
        assert forall|id: u64| !#[trigger] selects_ours(r, id) by {
            assert(!joining(r).contains(id));
        }
    }
    if leavers(r, slot).len() > 0 {
        assert(leavers(r, slot).contains(leavers(r, slot)[0]));
        assert((|id: u64| left_behind(r, slot, id))(leavers(r, slot)[0]));
    } else {
        assert forall|id: u64| !#[trigger] left_behind(r, slot, id) by {
            assert(!leavers(r, slot).contains(id));
        }
    }
    (out, join)
}

/// With shift held a digit adds the selection to those of its group who stand,
/// nobody twice, and puts our units among it in the squad; nobody is recalled.
pub proof fn shift_adds_to_the_group(r: &Roster, slot: u8, held: Seq<u64>, before: Seq<u64>)
    requires
        !r.game_over,
    ensures
        forall|id: u64| #[trigger]
            group_after(r, false, true, held).contains(id) <==> (held.contains(id)
                && r.alive@.contains(id)) || r.selected@.contains(id),
        group_recall(r, false, true, held, before) == before,
        puts_in_squad(
            group_said(r, false, true, slot),
            |id: u64| selects_ours(r, id),
            Some(slot),
        ),
{
    assert forall|id: u64| joining(r).contains(id) <==> selects_ours(r, id) by {
        those_who_join(r, id);
    }
    if joining(r).len() > 0 {
        assert(joining(r).contains(joining(r)[0]));
        assert((|id: u64| selects_ours(r, id))(joining(r)[0]));
    } else {
        assert forall|id: u64| !#[trigger] selects_ours(r, id) by {
            assert(!joining(r).contains(id));
        }
    }
    joining_is_union(standing(r.alive@, held), r.selected@);
    assert forall|id: u64| #[trigger]
        group_after(r, false, true, held).contains(id) <==> (held.contains(id)
            && r.alive@.contains(id)) || r.selected@.contains(id) by {
        those_who_stand(r.alive@, held, id);
    }
}

/// A bare digit says nothing. It drops from its group those who have fallen and
/// selects exactly the others in place of what was selected; where nobody of it
/// stands the selection stays as it is.
pub proof fn digits_recall_the_standing(r: &Roster, slot: u8, held: Seq<u64>)
    ensures
        group_said(r, false, false, slot).len() == 0,
        forall|id: u64| #[trigger]
            group_after(r, false, false, held).contains(id) <==> held.contains(id)
                && r.alive@.contains(id),
        forall|id: u64| #[trigger]
            group_recall(r, false, false, held, Seq::empty()).contains(id) <==> held.contains(id)
                && r.alive@.contains(id),
{
    assert forall|id: u64| #[trigger]
        group_after(r, false, false, held).contains(id) <==> held.contains(id)
            && r.alive@.contains(id) by {
        those_who_stand(r.alive@, held, id);
    }
    let none = Seq::<u64>::empty();
    assert(without(none, r.selected@) =~= none);
    let group = standing(r.alive@, held);
    assert(none + group =~= group);
    assert forall|id: u64| #[trigger]
        group_recall(r, false, false, held, none).contains(id) <==> held.contains(id)
            && r.alive@.contains(id) by {
        those_who_stand(r.alive@, held, id);
        if group.len() == 0 {
            assert(!group.contains(id));
        }
    }
}

/// A digit that follows another in one frame recalls its own group too, and lets
/// go of whoever was selected when the frame began.
pub proof fn later_digits_add_their_group(r: &Roster, held: Seq<u64>, before: Seq<u64>, id: u64)
    requires
        exists|x: u64| #[trigger] held.contains(x) && r.alive@.contains(x),
    ensures
        group_recall(r, false, false, held, before).contains(id) <==> (before.contains(id)
            && !r.selected@.contains(id)) || (held.contains(id) && r.alive@.contains(id)),
{
    let group = standing(r.alive@, held);
    let x = choose|x: u64| #[trigger] held.contains(x) && r.alive@.contains(x);
    those_who_stand(r.alive@, held, x);
    those_who_stand(r.alive@, held, id);
    let f = stays_out(r.selected@);
    let kept = without(before, r.selected@);
    picked_holds(before, f, id);
    if before.contains(id) && !r.selected@.contains(id) {
        let i = choose|i: int| 0 <= i < before.len() && before[i] == id;
        assert(f(before[i]) == Some(id));
    }
    let all = kept + group;
    if kept.contains(id) {
        let i = choose|i: int| 0 <= i < kept.len() && kept[i] == id;
        assert(all[i] == id);
    }
    if group.contains(id) {
        let i = choose|i: int| 0 <= i < group.len() && group[i] == id;
        assert(all[kept.len() + i] == id);
    }
    if all.contains(id) {
        let i = choose|i: int| 0 <= i < all.len() && all[i] == id;
        if i < kept.len() {
            assert(kept[i] == id);
        } else {
            assert(group[i - kept.len()] == id);
        }
    }
}

/// A digit touches the group of its own number and no other.
pub proof fn digits_touch_their_own_group(
    r: &Roster,
    ctrl: bool,
    shift: bool,
    down: [bool; 3],
    groups: Seq<Seq<u64>>,
    k: int,
)
    requires
        groups.len() == 3,
        0 <= k < 3,
    ensures
        groups_after(r, ctrl, shift, down, 3, groups).len() == 3,
        groups_after(r, ctrl, shift, down, 3, groups)[k] == (if down@[k] {
            group_after(r, ctrl, shift, groups[k])
        } else {
            groups[k]
        }),
{
    reveal_with_fuel(groups_after, 4);
}

/// One digit alone says what it says and recalls whom it recalls; none says and
/// recalls nothing.
pub proof fn one_digit_speaks_alone(
    r: &Roster,
    ctrl: bool,
    shift: bool,
    down: [bool; 3],
    groups: Seq<Seq<u64>>,
    k: int,
)
    requires
        groups.len() == 3,
        0 <= k < 3,
        forall|j: int| 0 <= j < 3 && j != k ==> !#[trigger] down@[j],
    ensures
        groups_said(r, ctrl, shift, down, 3) == (if down@[k] {
            group_said(r, ctrl, shift, (k + 1) as u8)
        } else {
            Seq::empty()
        }),
        groups_recall(r, ctrl, shift, down, 3, groups) == (if down@[k] {
            group_recall(r, ctrl, shift, groups[k], Seq::empty())
        } else {
            Seq::empty()
        }),
{
    reveal_with_fuel(groups_after, 4);
    reveal_with_fuel(groups_said, 4);
    reveal_with_fuel(groups_recall, 4);
    assert(groups_said(r, ctrl, shift, down, 3) =~= (if down@[k] {
        group_said(r, ctrl, shift, (k + 1) as u8)
    } else {
        Seq::empty()
    }));
}

// ---------------------------------------------------------------------------
// The panel
// ---------------------------------------------------------------------------

/// A unit's tile selects that unit while it stands, and the tiles clicked select
/// nobody else.
pub proof fn tiles_select_who_stands(f: &PanelFacts, cards: Seq<u64>, clicks: Seq<PanelClick>, id: u64)
    ensures
        crate::lists::picked(clicks, card_pick(f, cards)).contains(id) <==> f.alive@.contains(id)
            && exists|k: int|
            0 <= k < clicks.len() && (#[trigger] clicks[k]) is Card && clicks[k]->Card_0
                < cards.len() && cards[clicks[k]->Card_0 as int] == id,
{
    let g = card_pick(f, cards);
    picked_holds(clicks, g, id);
    if f.alive@.contains(id) && exists|k: int|
        0 <= k < clicks.len() && (#[trigger] clicks[k]) is Card && clicks[k]->Card_0 < cards.len()
            && cards[clicks[k]->Card_0 as int] == id {
        let k = choose|k: int|
            0 <= k < clicks.len() && (#[trigger] clicks[k]) is Card && clicks[k]->Card_0
                < cards.len() && cards[clicks[k]->Card_0 as int] == id;
        assert(g(clicks[k]) == Some(id));
    }
    if crate::lists::picked(clicks, g).contains(id) {
        let k = choose|k: int| 0 <= k < clicks.len() && g(#[trigger] clicks[k]) == Some(id);
        assert(clicks[k] is Card);
    }
}

/// A tile of the queue cancels the unit it shows, at the one selected building
/// with a queue, where that many are shown and still wait; nothing else is
/// cancelled.
pub proof fn queue_tiles_cancel_what_they_show(f: &PanelFacts, shown: usize, clicks: Seq<PanelClick>, said: Said)
    ensures
        crate::lists::picked(clicks, queue_cancel(f, shown)).contains(said) <==> f.queues@.len()
            == 1 && exists|k: int|
            0 <= k < clicks.len() && (#[trigger] clicks[k]) is QueueTile
                && clicks[k]->QueueTile_0 < shown && clicks[k]->QueueTile_0 < (f.queues@[0]).1
                && said == (Said::Cancel {
                building: (f.queues@[0]).0,
                index: clicks[k]->QueueTile_0,
            }),
{
    let g = queue_cancel(f, shown);
    picked_holds(clicks, g, said);
    if crate::lists::picked(clicks, g).contains(said) {
        let k = choose|k: int| 0 <= k < clicks.len() && g(#[trigger] clicks[k]) == Some(said);
        assert(clicks[k] is QueueTile);
    }
    if f.queues@.len() == 1 && exists|k: int|
        0 <= k < clicks.len() && (#[trigger] clicks[k]) is QueueTile && clicks[k]->QueueTile_0
            < shown && clicks[k]->QueueTile_0 < (f.queues@[0]).1 && said == (Said::Cancel {
            building: (f.queues@[0]).0,
            index: clicks[k]->QueueTile_0,
        }) {
        let k = choose|k: int|
            0 <= k < clicks.len() && (#[trigger] clicks[k]) is QueueTile
                && clicks[k]->QueueTile_0 < shown && clicks[k]->QueueTile_0 < (f.queues@[0]).1
                && said == (Said::Cancel {
                building: (f.queues@[0]).0,
                index: clicks[k]->QueueTile_0,
            });
        assert(g(clicks[k]) == Some(said));
    }
}

// ---------------------------------------------------------------------------
// The minimap
// ---------------------------------------------------------------------------

/// The cursor is on the minimap: one gap in from the console's top left, as wide
/// and as high as the minimap.
pub open spec fn on_minimap(m: Mouse) -> bool {
    let top = m.window.height - m.hud.console_h + 8_000;
    match m.cursor {
        Some(p) => 8_000 <= p.x && p.x <= 8_000 + m.hud.minimap_px && top <= p.y && p.y <= top
            + m.hud.minimap_px,
        None => false,
    }
}

/// A length of the map stands to the map as `u` stands to the minimap, to the
/// nearest thousandth.
pub open spec fn in_proportion(v: int, u: int, px: int) -> bool {
    -px <= 2 * (v * px - u * 200_000) <= px
}

proof fn proportions_hold(u: int, px: int)
    requires
        0 < px,
    ensures
        in_proportion(rounded(u * 200_000, px), u, px),
{
    rounded_is_close(u * 200_000, px);
    let q = rounded(u * 200_000, px);
    assert(2 * px * q == 2 * (q * px)) by (nonlinear_arith);
}

/// A point of the minimap names the point of the map that lies as far from the
/// west and the north edge, in proportion: left is west and up is north.
pub proof fn minimap_points_are_in_proportion(u: int, v: int, px: int)
    requires
        0 < px,
        0 <= u <= px,
        0 <= v <= px,
    ensures
        in_proportion(from_minimap(u, v, px).x + 100_000, u, px),
        in_proportion(100_000 - from_minimap(u, v, px).z, v, px),
{
    proportions_hold(u, px);
    proportions_hold(v, px);
    assert(0 <= u * 200_000 <= 200_000 * px);
    assert(0 <= v * 200_000 <= 200_000 * px);
    rounded_is_bounded(u * 200_000, px, 0, 200_000);
    rounded_is_bounded(v * 200_000, px, 0, 200_000);
}

/// The coordinate of the minimap that a cursor is at, brought back inside.
pub open spec fn within_edge(v: int, px: int) -> int {
    if v < 0 {
        0
    } else if v > px {
        px
    } else {
        v
    }
}

/// `p` is the point of the map that the cursor names, from inside the minimap or
/// from the point of its edge nearest to it on each axis.
pub open spec fn points_at(m: Mouse, cursor: Px, p: Pos) -> bool {
    let px = m.hud.minimap_px as int;
    let top = m.window.height - m.hud.console_h + 8_000;
    &&& in_proportion(p.x + 100_000, within_edge(cursor.x - 8_000, px), px)
    &&& in_proportion(100_000 - p.z, within_edge(cursor.y - top, px), px)
}

/// A left press on the minimap looks at the point under it, and goes on looking
/// at the point under the cursor for as long as the button is held, also outside
/// the minimap; a press elsewhere does not.
pub proof fn the_minimap_moves_the_camera(
    cat: &Catalog,
    c: &Clickables,
    m: Mouse,
    ui: UiView,
    cursor: Px,
)
    requires
        m.wf(),
        m.cursor == Some(cursor),
        ui.teleport_place is None,
        !m.right_pressed,
        -1_000_000_000 <= m.hud.console_h <= 1_000_000_000,
    ensures
        ({
            let step = minimap_step(cat, c, m, false, ui);
            let drags = m.left_held && (ui.minimap_drag || (m.left_pressed && on_minimap(m)));
            &&& step.said.len() == 0
            &&& step.ui == (UiView { minimap_drag: drags, ..ui })
            &&& step.focus is Some <==> drags
            &&& drags ==> points_at(m, cursor, step.focus->0)
        }),
{
    let px = m.hud.minimap_px as int;
    let top = m.window.height - m.hud.console_h + 8_000;
    minimap_points_are_in_proportion(
        within_edge(cursor.x - 8_000, px),
        within_edge(cursor.y - top, px),
        px,
    );
}

/// A right press on the minimap sends all of our selected units to the point
/// under it, pulled inside the map, fighting on the way where an attack-move was
/// waiting, which then waits no more.
pub proof fn the_minimap_sends_units(
    cat: &Catalog,
    c: &Clickables,
    m: Mouse,
    ui: UiView,
    cursor: Px,
) -> (r: (Seq<int>, Pos))
    requires
        m.wf(),
        m.cursor == Some(cursor),
        ui.teleport_place is None,
        m.right_pressed,
        !m.left_held,
        -1_000_000_000 <= m.hud.console_h <= 1_000_000_000,
    ensures
        selected_who(c.units@, r.0, |u: ClickUnit| true),
        ({
            let step = minimap_step(cat, c, m, false, ui);
            let still = UiView { minimap_drag: false, ..ui };
            &&& step.focus is None
            &&& !on_minimap(m) || r.0.len() == 0 ==> step.said.len() == 0 && step.ui == still
            &&& on_minimap(m) && r.0.len() > 0 ==> {
                &&& points_at(m, cursor, r.1)
                &&& step.ui == (UiView { attack_move_armed: false, ..still })
                &&& step.said == seq![
                    if ui.attack_move_armed {
                        Said::AttackMove { units: ids_at(c.units@, r.0), at: pulled_in(r.1) }
                    } else {
                        Said::Move { units: ids_at(c.units@, r.0), at: pulled_in(r.1) }
                    },
                ]
            }
        }),
{
    let at = groups_are_the_selection(c.units@);
    let px = m.hud.minimap_px as int;
    let top = m.window.height - m.hud.console_h + 8_000;
    minimap_points_are_in_proportion(
        within_edge(cursor.x - 8_000, px),
        within_edge(cursor.y - top, px),
        px,
    );
    (at, minimap_point(m, cursor))
}

/// A finished hall of ours within ten units of a point.
pub open spec fn hall_close_by(cat: &Catalog, c: &Clickables, ground: Pos, i: int) -> bool {
    let b = c.buildings@[i];
    &&& 0 <= i < c.buildings@.len()
    &&& b.own && !b.unfinished && cat.building_row(b.kind).hall
    &&& apart(b.pos, ground) <= 100_000_000
}

/// A teleport that waits for its hall takes the finished hall of ours nearest to
/// the point pressed on the minimap, within ten units of it; the camera stays.
pub proof fn the_minimap_names_a_hall(
    cat: &Catalog,
    c: &Clickables,
    m: Mouse,
    ui: UiView,
    cursor: Px,
) -> (r: (int, Pos))
    requires
        m.wf(),
        m.cursor == Some(cursor),
        m.left_pressed,
        on_minimap(m),
        ui.teleport_place is Some,
        -1_000_000_000 <= m.hud.console_h <= 1_000_000_000,
    ensures
        points_at(m, cursor, r.1),
        ({
            let step = minimap_step(cat, c, m, false, ui);
            let arm = ui.teleport_place->0;
            let ground = pulled_in(r.1);
            &&& (exists|i: int| #[trigger] hall_close_by(cat, c, ground, i)) ==> {
                &&& hall_close_by(cat, c, ground, r.0)
                &&& forall|i: int| #[trigger]
                    hall_close_by(cat, c, ground, i) ==> apart(c.buildings@[r.0].pos, ground)
                        <= apart(c.buildings@[i].pos, ground)
                &&& step.ui == (UiView { teleport_place: None, ..ui })
                &&& step.focus is None
                &&& step.said == seq![
                    Said::UseItem {
                        slot: arm.slot,
                        hero: arm.hero,
                        destination: Some(c.buildings@[r.0].id),
                    },
                ]
            }
            &&& (forall|i: int| !#[trigger] hall_close_by(cat, c, ground, i))
                ==> step.ui.teleport_place == ui.teleport_place && (!m.right_pressed
                ==> step.said.len() == 0)
        }),
{
    let px = m.hud.minimap_px as int;
    let top = m.window.height - m.hud.console_h + 8_000;
    minimap_points_are_in_proportion(
        within_edge(cursor.x - 8_000, px),
        within_edge(cursor.y - top, px),
        px,
    );
    let p = minimap_point(m, cursor);
    let ground = pulled_in(p);
    assert(crate::map::on_map(p) == ground);
    assert(crate::layout::map_rect(m.window, m.hud).has(cursor));
    assert(crate::controls::hall_pick(cat, c, m, ui) == hall_named(cat, c, ground));
    let f = hall_near(cat, ground);
    let i = winners_are_nearest(c.buildings@, f);
    assert forall|j: int| 0 <= j < c.buildings@.len() implies hall_close_by(
        cat,
        c,
        ground,
        j,
    ) == (f(#[trigger] c.buildings@[j]) is Some) && (f(c.buildings@[j]) is Some ==> (f(
        c.buildings@[j],
    )->0).0 == c.buildings@[j].id && (f(c.buildings@[j])->0).1 == apart(
        c.buildings@[j].pos,
        ground,
    )) by {
        distances_fit(c.buildings@[j].pos, ground);
    }
    if hall_named(cat, c, ground) is Some {
        assert(hall_close_by(cat, c, ground, i));
        assert forall|j: int| #[trigger] hall_close_by(cat, c, ground, j) implies apart(
            c.buildings@[i].pos,
            ground,
        ) <= apart(c.buildings@[j].pos, ground) by {
            assert(f(c.buildings@[j]) is Some);
        }
    } else {
        assert forall|j: int| !#[trigger] hall_close_by(cat, c, ground, j) by {
            if hall_close_by(cat, c, ground, j) {
                assert(f(c.buildings@[j]) is None);
            }
        }
    }
    (i, p)
}

/// Once the game is over the minimap does nothing but end a drag.
pub proof fn the_minimap_rests_after_the_end(cat: &Catalog, c: &Clickables, m: Mouse, ui: UiView)
    ensures
        ({
            let step = minimap_step(cat, c, m, true, ui);
            step.ui == (UiView { minimap_drag: false, ..ui }) && step.said.len() == 0
                && step.focus is None
        }),
{
}

} // verus!
