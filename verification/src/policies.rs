//! What the doctrine card's gestures come to: leashes, retreats, whom to shoot
//! first, auto-casting, squads and their postures, and what a building stamps on
//! what it trains.

use vstd::prelude::*;

use crate::card::CmdAction;
use crate::catalog::{Catalog, TargetClass};
use crate::command::{caster_ids, change, enrolment, gesture_squad, speech};
use crate::doctrine::{
    autocasts, casts, in_the_squad, is_leashed, leash_of, retreat_of, retreats, rule_live,
    slot_live, three_rungs, PostureKind, PrioPreset, UnitDoctrine,
};
use crate::intent::{PostureArm, PostureIntent, Said};
use crate::lists::{
    count, count_bound, count_finds, count_witness, first_some, first_some_is_first, in_order,
    in_order_sorts, ordered_places, picked, picked_places, place, place_splits, values,
};
use crate::map::{home, rounded, rounded_is_bounded, rounded_is_close, Pos};
use crate::orders::{
    casters_are_those_who_can, orders_go_to_all_of_ours, ours_who, unit_ids, works_here,
};
use crate::presses::pulled_in;
use crate::situation::{
    casters, doc_of, doctrine_of, doctrines, own_centre, own_doctrine, own_ids, own_pos, refuge,
    sum_x, sum_z, template_of, SelUnit, World,
};
use crate::ui_state::UiView;

verus! {

// ---------------------------------------------------------------------------
// The selection's policy
// ---------------------------------------------------------------------------

/// `at` lists our selected units in the order of their slots.
pub open spec fn ours_by_slot(w: &World, at: Seq<int>) -> bool {
    &&& forall|k: int|
        0 <= k < at.len() ==> 0 <= #[trigger] at[k] < w.sel_units@.len() && w.sel_units@[at[k]].own
    &&& forall|k: int, l: int|
        0 <= k < l < at.len() ==> {
            let (a, b) = (
                w.sel_units@[#[trigger] at[k]].id % 0x1_0000_0000,
                w.sel_units@[#[trigger] at[l]].id % 0x1_0000_0000,
            );
            a < b || (a == b && at[k] < at[l])
        }
    &&& forall|i: int|
        0 <= i < w.sel_units@.len() && (#[trigger] w.sel_units@[i]).own ==> at.contains(i)
}

proof fn picking_makes_no_more<T, U>(s: Seq<T>, f: spec_fn(T) -> Option<U>)
    ensures
        picked(s, f).len() <= s.len(),
    decreases s.len(),
{
    if s.len() > 0 {
        picking_makes_no_more(s.drop_last(), f);
    }
}

proof fn policies_are_read_by_slot(cat: &Catalog, w: &World) -> (at: Seq<int>)
    ensures
        ours_by_slot(w, at),
        doctrines(cat, w).len() == at.len(),
        at.len() <= usize::MAX,
        forall|k: int|
            0 <= k < at.len() ==> #[trigger] doctrines(cat, w)[k] == doctrine_of(
                cat,
                w.sel_units@[at[k]],
            ),
        at.len() == own_ids(w).len(),
{
    let f = own_doctrine(cat);
    let list = picked(w.sel_units@, f);
    let a = picked_places(w.sel_units@, f);
    let o = ordered_places(list);
    let at = Seq::new(o.len(), |k: int| a[o[k]]);
    picking_makes_no_more(w.sel_units@, f);
    assert(w.sel_units@.len() == w.sel_units.len());
    assert forall|k: int| 0 <= k < at.len() implies 0 <= #[trigger] at[k] < w.sel_units@.len() && f(
        w.sel_units@[at[k]],
    ) == Some(list[o[k]]) && list[o[k]] == in_order(list)[k] by {
        assert(0 <= o[k] < list.len());
        assert(0 <= a[o[k]] < w.sel_units@.len());
    }
    assert forall|k: int, l: int| 0 <= k < l < at.len() implies ({
        let (x, y) = (
            w.sel_units@[#[trigger] at[k]].id % 0x1_0000_0000,
            w.sel_units@[#[trigger] at[l]].id % 0x1_0000_0000,
        );
        x < y || (x == y && at[k] < at[l])
    }) by {
        assert(list[o[k]].0 <= list[o[l]].0);
        if o[k] < o[l] {
            assert(a[o[k]] < a[o[l]]);
        }
    }
    assert forall|i: int| 0 <= i < w.sel_units@.len() && (#[trigger] w.sel_units@[i]).own implies
        at.contains(i) by {
        assert(f(w.sel_units@[i]) is Some);
        assert(a.contains(i));
        let j = choose|j: int| 0 <= j < a.len() && a[j] == i;
        assert(o.contains(j));
        let k = choose|k: int| 0 <= k < o.len() && o[k] == j;
        assert(at[k] == i);
    }
    same_number(cat, w.sel_units@);
    at
}

proof fn same_number(cat: &Catalog, s: Seq<SelUnit>)
    ensures
        picked(s, own_doctrine(cat)).len() == picked(s, crate::situation::own_id()).len(),
    decreases s.len(),
{
    if s.len() > 0 {
        same_number(cat, s.drop_last());
    }
}

/// A unit of ours that is selected is held on a leash.
pub open spec fn any_leashed(w: &World) -> bool {
    exists|i: int|
        0 <= i < w.sel_units@.len() && (#[trigger] w.sel_units@[i]).own && w.sel_units@[i].leash
            is Some
}

/// A unit of ours that is selected has a point at which it falls back.
pub open spec fn any_cautious(w: &World) -> bool {
    exists|i: int|
        0 <= i < w.sel_units@.len() && (#[trigger] w.sel_units@[i]).own && w.sel_units@[i].retreat
            is Some
}

/// A unit of ours that is selected casts by itself.
pub open spec fn any_autocast(w: &World) -> bool {
    exists|i: int|
        0 <= i < w.sel_units@.len() && (#[trigger] w.sel_units@[i]).own && w.sel_units@[i].autocast
            is Some
}

/// The first of our selected units, by slot, of which `who` holds is the one at
/// `i`.
pub open spec fn leads(w: &World, i: int, who: spec_fn(SelUnit) -> bool) -> bool {
    &&& 0 <= i < w.sel_units@.len()
    &&& w.sel_units@[i].own && who(w.sel_units@[i])
    &&& forall|j: int|
        0 <= j < w.sel_units@.len() && (#[trigger] w.sel_units@[j]).own && who(w.sel_units@[j])
            ==> w.sel_units@[i].id % 0x1_0000_0000 < w.sel_units@[j].id % 0x1_0000_0000 || (
        w.sel_units@[i].id % 0x1_0000_0000 == w.sel_units@[j].id % 0x1_0000_0000 && i <= j)
}

proof fn first_by_slot_leads<U>(
    cat: &Catalog,
    w: &World,
    at: Seq<int>,
    f: spec_fn(UnitDoctrine) -> Option<U>,
    who: spec_fn(SelUnit) -> bool,
) -> (i: int)
    requires
        ours_by_slot(w, at),
        doctrines(cat, w).len() == at.len(),
        forall|k: int|
            0 <= k < at.len() ==> #[trigger] doctrines(cat, w)[k] == doctrine_of(
                cat,
                w.sel_units@[at[k]],
            ),
        forall|u: SelUnit| #[trigger] who(u) == (f(doctrine_of(cat, u)) is Some),
    ensures
        match first_some(doctrines(cat, w), f) {
            None => forall|j: int|
                0 <= j < w.sel_units@.len() && (#[trigger] w.sel_units@[j]).own ==> !who(
                    w.sel_units@[j],
                ),
            Some(v) => leads(w, i, who) && f(doctrine_of(cat, w.sel_units@[i])) == Some(v),
        },
{
    let d = doctrines(cat, w);
    first_some_is_first(d, f);
    match first_some(d, f) {
        None => {
            assert forall|j: int|
                0 <= j < w.sel_units@.len() && (#[trigger] w.sel_units@[j]).own implies !who(
                w.sel_units@[j],
            ) by {
                assert(at.contains(j));
                let k = choose|k: int| 0 <= k < at.len() && at[k] == j;
                assert(f(d[k]) is None);
            }
            0
        },
        Some(v) => {
            let k = choose|k: int|
                0 <= k < d.len() && f(#[trigger] d[k]) == Some(v) && forall|j: int|
                    0 <= j < k ==> f(#[trigger] d[j]) is None;
            let i = at[k];
            assert(who(w.sel_units@[i]));
            assert forall|j: int|
                0 <= j < w.sel_units@.len() && (#[trigger] w.sel_units@[j]).own && who(
                    w.sel_units@[j],
                ) implies w.sel_units@[i].id % 0x1_0000_0000 < w.sel_units@[j].id % 0x1_0000_0000
                || (w.sel_units@[i].id % 0x1_0000_0000 == w.sel_units@[j].id % 0x1_0000_0000 && i
                <= j) by {
                assert(at.contains(j));
                let l = choose|l: int| 0 <= l < at.len() && at[l] == j;
                assert(f(d[l]) is Some);
                if l != k {
                    assert(k < l);
                    assert(at[k] == i && at[l] == j);
                }
            }
            i
        },
    }
}

proof fn counts_find_ours(
    cat: &Catalog,
    w: &World,
    at: Seq<int>,
    p: spec_fn(UnitDoctrine) -> bool,
)
    requires
        ours_by_slot(w, at),
        doctrines(cat, w).len() == at.len(),
        at.len() <= usize::MAX,
        forall|k: int|
            0 <= k < at.len() ==> #[trigger] doctrines(cat, w)[k] == doctrine_of(
                cat,
                w.sel_units@[at[k]],
            ),
    ensures
        count(doctrines(cat, w), p) <= usize::MAX,
        count(doctrines(cat, w), p) > 0 <==> exists|i: int|
            0 <= i < w.sel_units@.len() && (#[trigger] w.sel_units@[i]).own && p(
                doctrine_of(cat, w.sel_units@[i]),
            ),
{
    let d = doctrines(cat, w);
    count_bound(d, p);
    if count(d, p) > 0 {
        let k = count_witness(d, p);
        let i = at[k];
        assert(d[k] == doctrine_of(cat, w.sel_units@[i]));
        assert(w.sel_units@[i].own);
    }
    if exists|i: int|
        0 <= i < w.sel_units@.len() && (#[trigger] w.sel_units@[i]).own && p(
            doctrine_of(cat, w.sel_units@[i]),
        ) {
        let i = choose|i: int|
            0 <= i < w.sel_units@.len() && (#[trigger] w.sel_units@[i]).own && p(
                doctrine_of(cat, w.sel_units@[i]),
            );
        assert(at.contains(i));
        let k = choose|k: int| 0 <= k < at.len() && at[k] == i;
        assert(d[k] == doctrine_of(cat, w.sel_units@[i]));
        count_finds(d, k, p);
    }
}

// ---------------------------------------------------------------------------
// Leashes and retreats
// ---------------------------------------------------------------------------

/// The sum of some numbers.
pub open spec fn total(s: Seq<int>) -> int
    decreases s.len(),
{
    if s.len() == 0 {
        0
    } else {
        total(s.drop_last()) + s.last()
    }
}

proof fn sums_are_totals(s: Seq<Pos>)
    ensures
        sum_x(s) == total(Seq::new(s.len(), |k: int| s[k].x as int)),
        sum_z(s) == total(Seq::new(s.len(), |k: int| s[k].z as int)),
        -0x8000_0000 * s.len() <= sum_x(s) <= 0x7fff_ffff * s.len(),
        -0x8000_0000 * s.len() <= sum_z(s) <= 0x7fff_ffff * s.len(),
    decreases s.len(),
{
    let xs = Seq::new(s.len(), |k: int| s[k].x as int);
    let zs = Seq::new(s.len(), |k: int| s[k].z as int);
    if s.len() > 0 {
        let front = s.drop_last();
        sums_are_totals(front);
        assert(xs.drop_last() =~= Seq::new(front.len(), |k: int| front[k].x as int));
        assert(zs.drop_last() =~= Seq::new(front.len(), |k: int| front[k].z as int));
    }
}

/// The middle of the selection is the mean of where our selected units stand,
/// to the nearest thousandth.
pub proof fn the_middle_is_the_mean(w: &World, at: Seq<int>)
    requires
        ours_who(w, at, |u: SelUnit| true),
        at.len() > 0,
    ensures
        ({
            let n = at.len() as int;
            let xs = total(Seq::new(at.len(), |k: int| w.sel_units@[at[k]].pos.x as int));
            let zs = total(Seq::new(at.len(), |k: int| w.sel_units@[at[k]].pos.z as int));
            &&& -n <= 2 * (n * own_centre(w).x - xs) <= n
            &&& -n <= 2 * (n * own_centre(w).z - zs) <= n
        }),
{
    let f = own_pos();
    let s = picked(w.sel_units@, f);
    let p = picked_places(w.sel_units@, f);
    assert forall|i: int| p.contains(i) <==> at.contains(i) by {
        if p.contains(i) {
            let k = choose|k: int| 0 <= k < p.len() && p[k] == i;
            assert(f(w.sel_units@[p[k]]) is Some);
            assert(at.contains(p[k]));
        }
        if at.contains(i) {
            let k = choose|k: int| 0 <= k < at.len() && at[k] == i;
            assert(f(w.sel_units@[at[k]]) is Some);
            assert(p.contains(at[k]));
        }
    }
    ascents_agree(p, at);
    let n = at.len() as int;
    assert(Seq::new(s.len(), |k: int| s[k].x as int) =~= Seq::new(
        at.len(),
        |k: int| w.sel_units@[at[k]].pos.x as int,
    )) by {
        assert forall|k: int| 0 <= k < s.len() implies s[k] == w.sel_units@[#[trigger] at[k]].pos by {
            assert(f(w.sel_units@[p[k]]) == Some(s[k]));
        }
    }
    assert(Seq::new(s.len(), |k: int| s[k].z as int) =~= Seq::new(
        at.len(),
        |k: int| w.sel_units@[at[k]].pos.z as int,
    )) by {
        assert forall|k: int| 0 <= k < s.len() implies s[k] == w.sel_units@[#[trigger] at[k]].pos by {
            assert(f(w.sel_units@[p[k]]) == Some(s[k]));
        }
    }
    sums_are_totals(s);
    mean_is_close(sum_x(s), n);
    mean_is_close(sum_z(s), n);
}

proof fn mean_is_close(sum: int, n: int)
    requires
        n > 0,
        -0x8000_0000 * n <= sum <= 0x7fff_ffff * n,
    ensures
        -n <= 2 * (n * (rounded(sum, n) as i32) - sum) <= n,
{
    rounded_is_close(sum, n);
    rounded_is_bounded(sum, n, -0x8000_0000, 0x7fff_ffff);
    let q = rounded(sum, n);
    assert(-n <= 2 * (n * q - sum) <= n) by (nonlinear_arith)
        requires
            2 * sum - n < 2 * n * q <= 2 * sum + n,
    ;
}

/// Two lists that rise and hold the same numbers are the same.
proof fn ascents_agree(a: Seq<int>, b: Seq<int>)
    requires
        forall|k: int, l: int| 0 <= k < l < a.len() ==> #[trigger] a[k] < #[trigger] a[l],
        forall|k: int, l: int| 0 <= k < l < b.len() ==> #[trigger] b[k] < #[trigger] b[l],
        forall|i: int| a.contains(i) <==> b.contains(i),
    ensures
        a == b,
    decreases a.len(),
{
    if a.len() == 0 {
        if b.len() > 0 {
            assert(b.contains(b[0]));
            assert(a.contains(b[0]));
        }
        assert(a =~= b);
    } else {
        assert(a.contains(a[0]));
        assert(b.contains(a[0]));
        let n = a.len() - 1;
        let m = b.len() - 1;
        assert(a.contains(a[n]));
        assert(b.contains(a[n]));
        assert(b.contains(b[m]));
        assert(a.contains(b[m]));
        let k = choose|k: int| 0 <= k < b.len() && b[k] == a[n];
        let l = choose|l: int| 0 <= l < a.len() && a[l] == b[m];
        assert(a[n] == b[m]) by {
            if k < m {
                assert(b[k] < b[m]);
            }
            if l < n {
                assert(a[l] < a[n]);
            }
        }
        let fa = a.drop_last();
        let fb = b.drop_last();
        assert forall|i: int| fa.contains(i) <==> fb.contains(i) by {
            if fa.contains(i) {
                let x = choose|x: int| 0 <= x < fa.len() && fa[x] == i;
                assert(a[x] == i && a[x] < a[n]);
                assert(a.contains(i));
                assert(b.contains(i));
                let y = choose|y: int| 0 <= y < b.len() && b[y] == i;
                assert(fb[y] == i);
            }
            if fb.contains(i) {
                let x = choose|x: int| 0 <= x < fb.len() && fb[x] == i;
                assert(b[x] == i && b[x] < b[m]);
                assert(b.contains(i));
                assert(a.contains(i));
                let y = choose|y: int| 0 <= y < a.len() && a[y] == i;
                assert(fa[y] == i);
            }
        }
        ascents_agree(fa, fb);
        assert(a =~= fa.push(a[n]));
        assert(b =~= fb.push(b[m]));
    }
}

/// Where the selection is held from now on: within a radius of its own middle,
/// or nowhere.
pub open spec fn holds_within(w: &World, at: Seq<int>, radius: Option<i64>, spoken: Seq<Said>) -> bool {
    if at.len() == 0 {
        spoken.len() == 0
    } else {
        spoken == seq![
            Said::Leash {
                units: unit_ids(w, at),
                anchor: if radius is Some {
                    Some(pulled_in(own_centre(w)))
                } else {
                    None
                },
                radius: if radius is Some {
                    radius->0
                } else {
                    0
                },
            },
        ]
    }
}

/// When the selection falls back from now on: below a share of its health, to
/// the hall nearest to its middle, or never.
pub open spec fn falls_back_below(
    cat: &Catalog,
    w: &World,
    at: Seq<int>,
    below: Option<i64>,
    spoken: Seq<Said>,
) -> bool {
    if at.len() == 0 {
        spoken.len() == 0
    } else {
        spoken == seq![
            Said::Retreat {
                units: unit_ids(w, at),
                below: if below is Some {
                    below->0
                } else {
                    0
                },
                rally: if below is Some {
                    Some(refuge(cat, w, own_centre(w)))
                } else {
                    None
                },
            },
        ]
    }
}

/// The guard key holds all of our selected units within eighteen units of their
/// middle where none of them is held yet, and else lets all of them go.
pub proof fn guards_hold_or_let_go(cat: &Catalog, w: &World, last: Option<u64>) -> (at: Seq<int>)
    ensures
        ours_who(w, at, |u: SelUnit| true),
        holds_within(
            w,
            at,
            if any_leashed(w) {
                None
            } else {
                Some(18_000)
            },
            speech(cat, w, CmdAction::ToggleGuard, last),
        ),
{
    let by = policies_are_read_by_slot(cat, w);
    counts_find_ours(cat, w, by, is_leashed());
    leashes_show(cat, w);
    orders_go_to_all_of_ours(w)
}

proof fn leashes_show(cat: &Catalog, w: &World)
    ensures
        any_leashed(w) <==> exists|i: int|
            0 <= i < w.sel_units@.len() && (#[trigger] w.sel_units@[i]).own && is_leashed()(
                doctrine_of(cat, w.sel_units@[i]),
            ),
{
    if any_leashed(w) {
        let i = choose|i: int|
            0 <= i < w.sel_units@.len() && (#[trigger] w.sel_units@[i]).own
                && w.sel_units@[i].leash is Some;
        assert(is_leashed()(doctrine_of(cat, w.sel_units@[i])));
    }
}

proof fn cautions_show(cat: &Catalog, w: &World)
    ensures
        any_cautious(w) <==> exists|i: int|
            0 <= i < w.sel_units@.len() && (#[trigger] w.sel_units@[i]).own && retreats()(
                doctrine_of(cat, w.sel_units@[i]),
            ),
{
    if any_cautious(w) {
        let i = choose|i: int|
            0 <= i < w.sel_units@.len() && (#[trigger] w.sel_units@[i]).own
                && w.sel_units@[i].retreat is Some;
        assert(retreats()(doctrine_of(cat, w.sel_units@[i])));
    }
}

/// The fall-back key makes all of our selected units fall back below thirty-five
/// hundredths of their health where none of them does yet, and else makes none
/// of them.
pub proof fn fallbacks_are_set_or_lifted(cat: &Catalog, w: &World, last: Option<u64>) -> (at: Seq<
    int,
>)
    ensures
        ours_who(w, at, |u: SelUnit| true),
        falls_back_below(
            cat,
            w,
            at,
            if any_cautious(w) {
                None
            } else {
                Some(350)
            },
            speech(cat, w, CmdAction::ToggleFallback, last),
        ),
{
    let by = policies_are_read_by_slot(cat, w);
    counts_find_ours(cat, w, by, retreats());
    cautions_show(cat, w);
    orders_go_to_all_of_ours(w)
}

/// The leash of the first leashed unit of ours, by slot.
pub open spec fn leash_in_force(w: &World, i: int, v: Option<i64>) -> bool {
    match v {
        None => !any_leashed(w),
        Some(r) => leads(w, i, |u: SelUnit| u.leash is Some) && w.sel_units@[i].leash == Some(r),
    }
}

/// The threshold of the first unit of ours, by slot, that has one.
pub open spec fn fallback_in_force(w: &World, i: int, v: Option<i64>) -> bool {
    match v {
        None => !any_cautious(w),
        Some(r) => leads(w, i, |u: SelUnit| u.retreat is Some) && w.sel_units@[i].retreat == Some(
            r,
        ),
    }
}

proof fn leash_is_the_leaders(cat: &Catalog, w: &World) -> (i: int)
    ensures
        leash_in_force(w, i, doc_of(cat, w).leash_now()),
{
    let by = policies_are_read_by_slot(cat, w);
    counts_find_ours(cat, w, by, is_leashed());
    leashes_show(cat, w);
    first_by_slot_leads(cat, w, by, leash_of(), |u: SelUnit| u.leash is Some)
}

proof fn fallback_is_the_leaders(cat: &Catalog, w: &World) -> (i: int)
    ensures
        fallback_in_force(w, i, doc_of(cat, w).fallback_now()),
{
    let by = policies_are_read_by_slot(cat, w);
    counts_find_ours(cat, w, by, retreats());
    cautions_show(cat, w);
    first_by_slot_leads(cat, w, by, retreat_of(), |u: SelUnit| u.retreat is Some)
}

/// One step on among ten, eighteen and thirty units, from where the first
/// leashed unit is: to the next that is clearly wider, and past the last to no
/// leash.
pub proof fn leashes_step_outward(cat: &Catalog, w: &World, last: Option<u64>) -> (r: (
    Seq<int>,
    int,
    Option<i64>,
))
    ensures
        ours_who(w, r.0, |u: SelUnit| true),
        leash_in_force(w, r.1, r.2),
        holds_within(
            w,
            r.0,
            if r.2 is None || r.2->0 < 9_999 {
                Some(10_000)
            } else if r.2->0 < 17_999 {
                Some(18_000)
            } else if r.2->0 < 29_999 {
                Some(30_000)
            } else {
                None
            },
            speech(cat, w, CmdAction::CycleLeash, last),
        ),
{
    let i = leash_is_the_leaders(cat, w);
    let now = doc_of(cat, w).leash_now();
    if let Some(v) = now {
        three_rungs(10_000, 18_000, 30_000, v);
    }
    (orders_go_to_all_of_ours(w), i, now)
}

/// One step on among a quarter, thirty-five hundredths and a half, from where
/// the first unit that falls back is: to the next that is clearly higher, and
/// past the last to none.
pub proof fn fallbacks_step_upward(cat: &Catalog, w: &World, last: Option<u64>) -> (r: (
    Seq<int>,
    int,
    Option<i64>,
))
    ensures
        ours_who(w, r.0, |u: SelUnit| true),
        fallback_in_force(w, r.1, r.2),
        falls_back_below(
            cat,
            w,
            r.0,
            if r.2 is None || r.2->0 < 249 {
                Some(250)
            } else if r.2->0 < 349 {
                Some(350)
            } else if r.2->0 < 499 {
                Some(500)
            } else {
                None
            },
            speech(cat, w, CmdAction::CycleFallback, last),
        ),
{
    let i = fallback_is_the_leaders(cat, w);
    let now = doc_of(cat, w).fallback_now();
    if let Some(v) = now {
        three_rungs(250, 350, 500, v);
    }
    (orders_go_to_all_of_ours(w), i, now)
}

/// A nudge moves the leash of the first leashed unit two units, no wider than
/// sixty; below two units it is off, and from off it starts at eighteen.
pub proof fn leashes_are_nudged(cat: &Catalog, w: &World, up: bool, last: Option<u64>) -> (r: (
    Seq<int>,
    int,
    Option<i64>,
))
    ensures
        ours_who(w, r.0, |u: SelUnit| true),
        leash_in_force(w, r.1, r.2),
        holds_within(
            w,
            r.0,
            if r.2 is None {
                Some(18_000)
            } else if up && r.2->0 > 58_000 || !up && r.2->0 > 62_000 {
                Some(60_000)
            } else if up && r.2->0 >= 0 {
                Some((r.2->0 + 2_000) as i64)
            } else if !up && r.2->0 >= 4_000 {
                Some((r.2->0 - 2_000) as i64)
            } else {
                None
            },
            speech(cat, w, CmdAction::NudgeLeash(up), last),
        ),
{
    let i = leash_is_the_leaders(cat, w);
    (orders_go_to_all_of_ours(w), i, doc_of(cat, w).leash_now())
}

/// A nudge moves the threshold of the first unit that falls back by a
/// twentieth, no higher than nineteen of them; below one it is off, and from
/// off it starts at thirty-five hundredths.
pub proof fn fallbacks_are_nudged(cat: &Catalog, w: &World, up: bool, last: Option<u64>) -> (r: (
    Seq<int>,
    int,
    Option<i64>,
))
    ensures
        ours_who(w, r.0, |u: SelUnit| true),
        fallback_in_force(w, r.1, r.2),
        falls_back_below(
            cat,
            w,
            r.0,
            if r.2 is None {
                Some(350)
            } else if up && r.2->0 > 900 || !up && r.2->0 > 1_000 {
                Some(950)
            } else if up && r.2->0 >= 0 {
                Some((r.2->0 + 50) as i64)
            } else if !up && r.2->0 >= 100 {
                Some((r.2->0 - 50) as i64)
            } else {
                None
            },
            speech(cat, w, CmdAction::NudgeFallback(up), last),
        ),
{
    let i = fallback_is_the_leaders(cat, w);
    (orders_go_to_all_of_ours(w), i, doc_of(cat, w).fallback_now())
}

// ---------------------------------------------------------------------------
// Whom to shoot first, and casting by itself
// ---------------------------------------------------------------------------

/// The classes that come after the ones a list begins with, on the way round:
/// heroes, archers, buildings, flyers, nobody in particular.
pub open spec fn next_targets(first: Option<TargetClass>) -> Seq<TargetClass> {
    match first {
        Some(TargetClass::Hero) => seq![
            TargetClass::Archer,
            TargetClass::Hero,
            TargetClass::Footman,
            TargetClass::Worker,
            TargetClass::Building,
        ],
        Some(TargetClass::Archer) => seq![TargetClass::Building],
        Some(TargetClass::Building) => seq![
            TargetClass::Air,
            TargetClass::Archer,
            TargetClass::Hero,
            TargetClass::Footman,
            TargetClass::Worker,
        ],
        Some(TargetClass::Air) => Seq::empty(),
        _ => seq![
            TargetClass::Hero,
            TargetClass::Archer,
            TargetClass::Footman,
            TargetClass::Worker,
            TargetClass::Building,
        ],
    }
}

/// The priority key tells all of our selected units the targets that come after
/// those of the first of them, by slot.
pub proof fn priorities_go_round(cat: &Catalog, w: &World, last: Option<u64>) -> (r: (Seq<int>, int))
    ensures
        ours_who(w, r.0, |u: SelUnit| true),
        r.0.len() == 0 ==> speech(cat, w, CmdAction::CyclePriority, last).len() == 0,
        r.0.len() > 0 ==> leads(w, r.1, |u: SelUnit| true) && speech(
            cat,
            w,
            CmdAction::CyclePriority,
            last,
        ) == seq![
            Said::Priority {
                units: unit_ids(w, r.0),
                classes: next_targets(w.sel_units@[r.1].first_target),
            },
        ],
{
    let by = policies_are_read_by_slot(cat, w);
    let at = orders_go_to_all_of_ours(w);
    if at.len() > 0 {
        let i = the_first_leads(cat, w, by);
        let d = doctrines(cat, w)[0];
        assert(d.prio == PrioPreset::reading(w.sel_units@[i].first_target));
        assert(d.prio.after().list() =~= next_targets(w.sel_units@[i].first_target));
        (at, i)
    } else {
        (at, 0)
    }
}

proof fn the_first_leads(cat: &Catalog, w: &World, by: Seq<int>) -> (i: int)
    requires
        ours_by_slot(w, by),
        by.len() > 0,
        doctrines(cat, w).len() == by.len(),
        forall|k: int|
            0 <= k < by.len() ==> #[trigger] doctrines(cat, w)[k] == doctrine_of(
                cat,
                w.sel_units@[by[k]],
            ),
    ensures
        leads(w, i, |u: SelUnit| true),
        doctrines(cat, w)[0] == doctrine_of(cat, w.sel_units@[i]),
{
    let i = by[0];
    assert forall|j: int| 0 <= j < w.sel_units@.len() && (#[trigger] w.sel_units@[j]).own implies
        w.sel_units@[i].id % 0x1_0000_0000 < w.sel_units@[j].id % 0x1_0000_0000 || (
    w.sel_units@[i].id % 0x1_0000_0000 == w.sel_units@[j].id % 0x1_0000_0000 && i <= j) by {
        assert(by.contains(j));
        let l = choose|l: int| 0 <= l < by.len() && by[l] == j;
        if l != 0 {
            assert(by[0] == i && by[l] == j);
        }
    }
    i
}

/// The auto-cast key tells all of our selected casters to cast by themselves
/// from three enemies on where nobody selected does so yet, and else not to.
pub proof fn autocasting_is_set_or_lifted(cat: &Catalog, w: &World, last: Option<u64>) -> (at: Seq<
    int,
>)
    ensures
        ours_who(w, at, |u: SelUnit| cat.unit_row(u.kind).abilities@.len() > 0),
        ({
            let spoken = speech(cat, w, CmdAction::ToggleAutoCast, last);
            &&& at.len() == 0 ==> spoken.len() == 0
            &&& at.len() > 0 ==> spoken == seq![
                Said::Autocast {
                    units: unit_ids(w, at),
                    min_enemies: if any_autocast(w) {
                        0
                    } else {
                        3
                    },
                    ability: None,
                },
            ]
        }),
{
    let by = policies_are_read_by_slot(cat, w);
    counts_find_ours(cat, w, by, autocasts());
    if any_autocast(w) {
        let i = choose|i: int|
            0 <= i < w.sel_units@.len() && (#[trigger] w.sel_units@[i]).own
                && w.sel_units@[i].autocast is Some;
        assert(autocasts()(doctrine_of(cat, w.sel_units@[i])));
    }
    let at = casters_are_those_who_can(cat, w);
    assert(caster_ids(casters(cat, w)) =~= unit_ids(w, at));
    at
}

/// A caster of ours that casts what is in the slot by itself.
pub open spec fn casts_slot(cat: &Catalog, u: SelUnit, slot: int) -> bool {
    &&& cat.unit_row(u.kind).abilities@.len() > 0
    &&& u.autocast is Some
    &&& (u.autocast->0)@[slot] is Some
    &&& (u.autocast->0)@[slot]->0 > 0
}

proof fn inserting_counts_one<T>(s: Seq<T>, i: int, x: T, p: spec_fn(T) -> bool)
    requires
        0 <= i <= s.len(),
    ensures
        count(s.insert(i, x), p) == count(s, p) + (if p(x) {
            1nat
        } else {
            0nat
        }),
    decreases s.len(),
{
    let r = s.insert(i, x);
    if i == s.len() {
        assert(r.drop_last() =~= s);
    } else {
        inserting_counts_one(s.drop_last(), i, x, p);
        assert(r.drop_last() =~= s.drop_last().insert(i, x));
        assert(r.last() == s.last());
    }
}

proof fn ordering_keeps_counts(s: Seq<(i64, UnitDoctrine)>, p: spec_fn(UnitDoctrine) -> bool)
    ensures
        count(values(in_order(s)), p) == count(values(s), p),
    decreases s.len(),
{
    if s.len() > 0 {
        let front = s.drop_last();
        ordering_keeps_counts(front, p);
        in_order_sorts(front);
        let sorted = in_order(front);
        place_splits(sorted, s.last().0);
        let i = place(sorted, s.last().0);
        assert(values(in_order(s)) =~= values(sorted).insert(i, s.last().1));
        inserting_counts_one(values(sorted), i, s.last().1, p);
        assert(values(s).drop_last() =~= values(front));
    } else {
        assert(values(in_order(s)) =~= values(s));
    }
}

proof fn picking_counts(
    cat: &Catalog,
    s: Seq<SelUnit>,
    p: spec_fn(UnitDoctrine) -> bool,
    f: spec_fn(SelUnit) -> Option<u64>,
)
    requires
        forall|u: SelUnit| #[trigger] f(u) is Some <==> u.own && p(doctrine_of(cat, u)),
    ensures
        count(values(picked(s, own_doctrine(cat))), p) == picked(s, f).len(),
    decreases s.len(),
{
    let list = picked(s, own_doctrine(cat));
    if s.len() > 0 {
        let front = s.drop_last();
        picking_counts(cat, front, p, f);
        let before = picked(front, own_doctrine(cat));
        let u = s.last();
        assert(f(u) is Some <==> u.own && p(doctrine_of(cat, u)));
        if u.own {
            assert(values(list).drop_last() =~= values(before));
        }
    } else {
        assert(values(list) =~= Seq::empty());
    }
}

/// Our selected units of which `who` holds, and how many there are.
proof fn tallies_count_ours(
    cat: &Catalog,
    w: &World,
    p: spec_fn(UnitDoctrine) -> bool,
    who: spec_fn(SelUnit) -> bool,
) -> (at: Seq<int>)
    requires
        forall|u: SelUnit| #[trigger] who(u) == p(doctrine_of(cat, u)),
    ensures
        ours_who(w, at, who),
        at.len() <= usize::MAX,
        count(doctrines(cat, w), p) == at.len(),
{
    let f = |u: SelUnit|
        if u.own && who(u) {
            Some(u.id)
        } else {
            None::<u64>
        };
    let at = picked_places(w.sel_units@, f);
    assert forall|u: SelUnit| #[trigger] f(u) is Some <==> u.own && p(doctrine_of(cat, u)) by {
        assert(who(u) == p(doctrine_of(cat, u)));
    }
    ordering_keeps_counts(picked(w.sel_units@, own_doctrine(cat)), p);
    picking_counts(cat, w.sel_units@, p, f);
    picking_makes_no_more(w.sel_units@, f);
    assert(w.sel_units@.len() == w.sel_units.len());
    assert forall|i: int|
        0 <= i < w.sel_units@.len() && (#[trigger] w.sel_units@[i]).own && who(
            w.sel_units@[i],
        ) implies at.contains(i) by {
        assert(f(w.sel_units@[i]) is Some);
    }
    at
}

/// The tally of a selection counts what it says: our selected units, and among
/// them the casters, those on a leash, those that fall back, and those that cast
/// by themselves.
pub proof fn tallies_are_true(cat: &Catalog, w: &World) -> (at: Seq<Seq<int>>)
    ensures
        at.len() == 5,
        ours_who(w, at[0], |u: SelUnit| true),
        ours_who(w, at[1], |u: SelUnit| cat.unit_row(u.kind).abilities@.len() > 0),
        ours_who(w, at[2], |u: SelUnit| u.leash is Some),
        ours_who(w, at[3], |u: SelUnit| u.retreat is Some),
        ours_who(w, at[4], |u: SelUnit| u.autocast is Some),
        doc_of(cat, w).units == at[0].len(),
        doc_of(cat, w).casters == at[1].len(),
        doc_of(cat, w).leashed == at[2].len(),
        doc_of(cat, w).fallback == at[3].len(),
        doc_of(cat, w).autocast == at[4].len(),
{
    let by = policies_are_read_by_slot(cat, w);
    let a = orders_go_to_all_of_ours(w);
    let b = tallies_count_ours(
        cat,
        w,
        casts(),
        |u: SelUnit| cat.unit_row(u.kind).abilities@.len() > 0,
    );
    let c = tallies_count_ours(cat, w, is_leashed(), |u: SelUnit| u.leash is Some);
    let d = tallies_count_ours(cat, w, retreats(), |u: SelUnit| u.retreat is Some);
    let e = tallies_count_ours(cat, w, autocasts(), |u: SelUnit| u.autocast is Some);
    seq![a, b, c, d, e]
}

/// One slot is switched off exactly where somebody casts it by itself and at
/// least half of our selected casters do.
pub proof fn half_the_casters_decide(cat: &Catalog, w: &World, slot: usize, last: Option<u64>) -> (r:
    (Seq<int>, Seq<int>))
    requires
        slot < 3,
    ensures
        ours_who(w, r.0, |u: SelUnit| cat.unit_row(u.kind).abilities@.len() > 0),
        ours_who(w, r.1, |u: SelUnit| casts_slot(cat, u, slot as int)),
        ({
            let spoken = speech(cat, w, CmdAction::ToggleAutoCastSlot(slot), last);
            &&& r.0.len() == 0 ==> spoken.len() == 0
            &&& r.0.len() > 0 ==> spoken == seq![
                Said::Autocast {
                    units: unit_ids(w, r.0),
                    min_enemies: if r.1.len() > 0 && 2 * r.1.len() >= r.0.len() {
                        0
                    } else {
                        3
                    },
                    ability: Some(slot),
                },
            ]
        }),
{
    let at = casters_are_those_who_can(cat, w);
    let d = doctrines(cat, w);
    let p = slot_live(slot as int);
    assert(caster_ids(casters(cat, w)) =~= unit_ids(w, at));
    let who = |u: SelUnit| casts_slot(cat, u, slot as int);
    assert forall|u: SelUnit| #[trigger] who(u) == p(doctrine_of(cat, u)) by {
        let dd = doctrine_of(cat, u);
        if slot == 0 {
            assert(dd.autocast_slots@[0] == rule_live(u.autocast, 0));
        } else if slot == 1 {
            assert(dd.autocast_slots@[1] == rule_live(u.autocast, 1));
        } else {
            assert(dd.autocast_slots@[2] == rule_live(u.autocast, 2));
        }
    }
    let live = tallies_count_ours(cat, w, p, who);
    let can = tallies_count_ours(
        cat,
        w,
        casts(),
        |u: SelUnit| cat.unit_row(u.kind).abilities@.len() > 0,
    );
    assert forall|i: int| can.contains(i) <==> at.contains(i) by {
        if can.contains(i) {
            let k = choose|k: int| 0 <= k < can.len() && can[k] == i;
            assert(at.contains(can[k]));
        }
        if at.contains(i) {
            let k = choose|k: int| 0 <= k < at.len() && at[k] == i;
            assert(can.contains(at[k]));
        }
    }
    ascents_agree(can, at);
    let doc = doc_of(cat, w);
    if slot == 0 {
        assert(doc.autocast_slots@[0] == count(d, slot_live(0)));
    } else if slot == 1 {
        assert(doc.autocast_slots@[1] == count(d, slot_live(1)));
    } else {
        assert(doc.autocast_slots@[2] == count(d, slot_live(2)));
    }
    (at, live)
}

// ---------------------------------------------------------------------------
// Squads
// ---------------------------------------------------------------------------

/// Some unit of ours is in the squad.
pub open spec fn squad_has_any(w: &World, id: u8) -> bool {
    exists|i: int|
        0 <= i < w.units@.len() && (#[trigger] w.units@[i]).own && w.units@[i].squad == Some(id)
}

/// The squad a gesture is about: that of the first of our selected units, by
/// slot; where that one is in none, the first of three that nobody is in; and
/// the first where somebody is in each.
pub open spec fn is_squad_of(w: &World, lead: int, id: u8) -> bool {
    match w.sel_units@[lead].squad {
        Some(s) => id == s,
        None => if !squad_has_any(w, 1) {
            id == 1
        } else if !squad_has_any(w, 2) {
            id == 2
        } else if !squad_has_any(w, 3) {
            id == 3
        } else {
            id == 1
        },
    }
}

/// Everybody of ours in the selection is in the squad.
pub open spec fn all_in_squad(w: &World, id: u8) -> bool {
    forall|i: int|
        0 <= i < w.sel_units@.len() && (#[trigger] w.sel_units@[i]).own
            ==> w.sel_units@[i].squad == Some(id)
}

proof fn full_counts<T>(s: Seq<T>, p: spec_fn(T) -> bool)
    ensures
        count(s, p) <= s.len(),
        count(s, p) == s.len() <==> forall|k: int| 0 <= k < s.len() ==> p(#[trigger] s[k]),
    decreases s.len(),
{
    if s.len() > 0 {
        let front = s.drop_last();
        full_counts(front, p);
        assert forall|k: int| 0 <= k < front.len() implies front[k] == #[trigger] s[k] by {}
        assert(s.last() == s[s.len() - 1]);
        if forall|k: int| 0 <= k < s.len() ==> p(#[trigger] s[k]) {
            assert forall|k: int| 0 <= k < front.len() implies p(#[trigger] front[k]) by {
                assert(p(s[k]));
            }
        }
        if count(s, p) == s.len() {
            assert forall|k: int| 0 <= k < s.len() implies p(#[trigger] s[k]) by {
                if k < front.len() {
                    assert(p(front[k]));
                }
            }
        }
    }
}

/// A gesture about a squad first puts all of our selected units into it, unless
/// all of them are in it already.
proof fn squads_are_gathered(cat: &Catalog, w: &World) -> (r: (Seq<int>, int))
    ensures
        ours_who(w, r.0, |u: SelUnit| true),
        r.0.len() == 0 ==> gesture_squad(cat, w) is None && enrolment(cat, w).len() == 0,
        r.0.len() > 0 ==> {
            let id = gesture_squad(cat, w)->0;
            &&& leads(w, r.1, |u: SelUnit| true)
            &&& gesture_squad(cat, w) is Some
            &&& is_squad_of(w, r.1, id)
            &&& doc_of(cat, w).squad == w.sel_units@[r.1].squad
            &&& enrolment(cat, w) == (if all_in_squad(w, id) {
                Seq::empty()
            } else {
                seq![Said::Squad { units: unit_ids(w, r.0), id: Some(id) }]
            })
        },
{
    let by = policies_are_read_by_slot(cat, w);
    let at = orders_go_to_all_of_ours(w);
    if at.len() > 0 {
        let i = the_first_leads(cat, w, by);
        let d = doctrines(cat, w);
        let doc = doc_of(cat, w);
        let id = gesture_squad(cat, w)->0;
        let p = in_the_squad(doc.squad);
        full_counts(d, p);
        assert(doc.units == d.len());
        assert(doc.in_squad == count(d, p));
        assert(w.sel_units@[i].own);
        if all_in_squad(w, id) {
            assert(w.sel_units@[i].squad == Some(id));
            assert forall|k: int| 0 <= k < d.len() implies p(#[trigger] d[k]) by {
                assert(w.sel_units@[by[k]].own);
            }
        } else {
            let j = choose|j: int|
                0 <= j < w.sel_units@.len() && (#[trigger] w.sel_units@[j]).own
                    && w.sel_units@[j].squad != Some(id);
            assert(by.contains(j));
            let k = choose|k: int| 0 <= k < by.len() && by[k] == j;
            assert(doc.squad is Some ==> !p(d[k]));
        }
        (at, i)
    } else {
        (at, 0)
    }
}

/// A posture button makes the selection one squad and waits for the click that
/// says where, for that squad; with none of ours selected it does nothing.
pub proof fn postures_gather_their_squad(
    cat: &Catalog,
    w: &World,
    kind: PostureKind,
    last: Option<u64>,
    ui: UiView,
) -> (r: (Seq<int>, int, u8))
    ensures
        ours_who(w, r.0, |u: SelUnit| true),
        ({
            let spoken = speech(cat, w, CmdAction::SetPosture(kind), last);
            let after = change(cat, w, CmdAction::SetPosture(kind), ui);
            &&& r.0.len() == 0 ==> spoken.len() == 0 && after == ui
            &&& r.0.len() > 0 ==> {
                &&& leads(w, r.1, |u: SelUnit| true)
                &&& is_squad_of(w, r.1, r.2)
                &&& spoken == (if all_in_squad(w, r.2) {
                    Seq::empty()
                } else {
                    seq![Said::Squad { units: unit_ids(w, r.0), id: Some(r.2) }]
                })
                &&& after == (UiView {
                    attack_move_armed: false,
                    placement: None,
                    wall_chain: Seq::empty(),
                    posture_place: Some(PostureArm { squad: r.2, kind }),
                    cast_place: None,
                    region_place: false,
                    teleport_place: None,
                    ..ui
                })
            }
        }),
{
    let (at, i) = squads_are_gathered(cat, w);
    (at, i, gesture_squad(cat, w)->0)
}

/// Standing down is said to the squad of the first of our selected units, and
/// to nobody where that one is in none.
pub proof fn squads_stand_down(cat: &Catalog, w: &World, last: Option<u64>) -> (i: int)
    ensures
        ({
            let spoken = speech(cat, w, CmdAction::ClearPosture, last);
            ||| spoken.len() == 0 && (forall|j: int|
                0 <= j < w.sel_units@.len() ==> !(#[trigger] w.sel_units@[j]).own)
            ||| leads(w, i, |u: SelUnit| true) && (match w.sel_units@[i].squad {
                Some(id) => spoken == seq![Said::Posture { id, posture: None }],
                None => spoken.len() == 0,
            })
        }),
{
    let (at, i) = squads_are_gathered(cat, w);
    if at.len() == 0 {
        let by = policies_are_read_by_slot(cat, w);
        assert forall|j: int| 0 <= j < w.sel_units@.len() implies !(
        #[trigger] w.sel_units@[j]).own by {
            if w.sel_units@[j].own {
                assert(at.contains(j));
            }
        }
    }
    i
}

/// The home guard is dropped where it stands armed. Else the selection becomes
/// one squad, which shall hold the hall nearest to it within twenty-six units
/// when the base is attacked, and again after half a minute.
pub proof fn home_guards_come_and_go(cat: &Catalog, w: &World, last: Option<u64>) -> (r: (
    Seq<int>,
    int,
    u8,
))
    ensures
        ours_who(w, r.0, |u: SelUnit| true),
        ({
            let spoken = speech(cat, w, CmdAction::ToggleHomeGuard, last);
            let armed = exists|i: int|
                0 <= i < w.triggers@.len() && (#[trigger] w.triggers@[i]).armed
                    && w.triggers@[i].name@ == "home-guard"@;
            &&& armed ==> spoken == seq![Said::TriggerClear { name: "home-guard"@ }]
            &&& !armed && r.0.len() == 0 ==> spoken.len() == 0
            &&& !armed && r.0.len() > 0 ==> {
                &&& leads(w, r.1, |u: SelUnit| true)
                &&& is_squad_of(w, r.1, r.2)
                &&& spoken == (if all_in_squad(w, r.2) {
                    Seq::empty()
                } else {
                    seq![Said::Squad { units: unit_ids(w, r.0), id: Some(r.2) }]
                }).push(
                    Said::TriggerSet {
                        name: "home-guard"@,
                        squad: r.2,
                        posture: PostureIntent::Defend {
                            at: refuge(cat, w, own_centre(w)),
                            radius: 26_000,
                        },
                        repeat: 30_000,
                    },
                )
            }
        }),
{
    let (at, i) = squads_are_gathered(cat, w);
    if exists|i: int|
        0 <= i < w.triggers@.len() && (#[trigger] w.triggers@[i]).armed && w.triggers@[i].name@
            == "home-guard"@ {
        let k = choose|i: int|
            0 <= i < w.triggers@.len() && (#[trigger] w.triggers@[i]).armed
                && w.triggers@[i].name@ == "home-guard"@;
        assert(crate::readouts::armed_rule(w.triggers@, crate::readouts::home_guard()));
    }
    (at, i, gesture_squad(cat, w)->0)
}

// ---------------------------------------------------------------------------
// Templates
// ---------------------------------------------------------------------------

/// The first class that a template's list names.
pub open spec fn first_named(list: Option<Vec<TargetClass>>) -> Option<TargetClass> {
    match list {
        Some(v) => if v@.len() > 0 {
            Some(v@[0])
        } else {
            None
        },
        None => None,
    }
}

/// The targets a list that begins with this class stands for: none where it
/// begins with anything else than a hero, an archer, a building or a flyer.
pub open spec fn standing_targets(first: Option<TargetClass>) -> Option<Seq<TargetClass>> {
    match first {
        Some(TargetClass::Hero) => Some(next_targets(None)),
        Some(TargetClass::Archer) => Some(next_targets(Some(TargetClass::Hero))),
        Some(TargetClass::Building) => Some(next_targets(Some(TargetClass::Archer))),
        Some(TargetClass::Air) => Some(next_targets(Some(TargetClass::Building))),
        _ => None,
    }
}

/// A template can be set: a finished building of ours that trains something is
/// the one building selected, and no unit of ours is.
pub open spec fn sets_templates(cat: &Catalog, w: &World) -> bool {
    let b = w.sel_buildings@[0];
    &&& works_here(w)
    &&& b.queue is Some
    &&& cat.building_row(b.kind).trains@.len() > 0
    &&& forall|i: int| 0 <= i < w.sel_units@.len() ==> !(#[trigger] w.sel_units@[i]).own
}

/// A template key moves one piece of what the building stamps on its recruits
/// and says all the others again as they were: the squad goes from none over
/// one, two and three back to none; the threshold steps upward; the targets go
/// round; auto-casting is switched; and clearing leaves nothing.
pub proof fn templates_move_one_piece(cat: &Catalog, w: &World, action: CmdAction, last: Option<u64>)
    requires
        action == CmdAction::TemplateSquad || action == CmdAction::TemplateFallback || action
            == CmdAction::TemplatePriority || action == CmdAction::TemplateAutoCast || action
            == CmdAction::TemplateClear,
    ensures
        ({
            let spoken = speech(cat, w, action, last);
            let b = w.sel_buildings@[0];
            let t = b.template->0;
            let some = b.template is Some;
            let clear = action == CmdAction::TemplateClear;
            let squad = if some {
                t.squad
            } else {
                None
            };
            let retreat = if some {
                t.retreat
            } else {
                None
            };
            let first = if some {
                first_named(t.priority)
            } else {
                None
            };
            let casts = some && t.autocast is Some && t.autocast->0 > 0;
            &&& !sets_templates(cat, w) ==> spoken.len() == 0
            &&& sets_templates(cat, w) ==> {
                &&& spoken.len() == 1
                &&& spoken[0] is Template
                &&& spoken[0]->Template_building == b.id
                &&& spoken[0]->Template_squad == (if clear {
                    None
                } else if action == CmdAction::TemplateSquad {
                    match squad {
                        None => Some(1u8),
                        Some(0) => Some(1u8),
                        Some(1) => Some(2u8),
                        Some(2) => Some(3u8),
                        Some(_) => None,
                    }
                } else {
                    squad
                })
                &&& spoken[0]->retreat == (match (if clear {
                    None
                } else if action == CmdAction::TemplateFallback {
                    if retreat is None || retreat->0 < 249 {
                        Some(250i64)
                    } else if retreat->0 < 349 {
                        Some(350i64)
                    } else if retreat->0 < 499 {
                        Some(500i64)
                    } else {
                        None
                    }
                } else {
                    retreat
                }) {
                    Some(below) => Some((below, refuge(cat, w, home()))),
                    None => None,
                })
                &&& spoken[0]->priority == (if clear {
                    None
                } else if action == CmdAction::TemplatePriority {
                    if next_targets(first).len() > 0 {
                        Some(next_targets(first))
                    } else {
                        None
                    }
                } else {
                    standing_targets(first)
                })
                &&& spoken[0]->autocast == (if !clear && casts == (action
                    != CmdAction::TemplateAutoCast) {
                    Some(3u32)
                } else {
                    None
                })
            }
        }),
{
    let at = orders_go_to_all_of_ours(w);
    if own_ids(w).len() > 0 {
        assert(w.sel_units@[at[0]].own);
    } else {
        assert forall|i: int| 0 <= i < w.sel_units@.len() implies !(
        #[trigger] w.sel_units@[i]).own by {
            if w.sel_units@[i].own {
                assert(at.contains(i));
            }
        }
    }
    if sets_templates(cat, w) {
        let t = template_of(cat, w);
        if let Some(v) = t.retreat {
            three_rungs(250, 350, 500, v);
        }
        let first = if w.sel_buildings@[0].template is Some {
            first_named(w.sel_buildings@[0].template->0.priority)
        } else {
            None
        };
        assert(t.prio == PrioPreset::reading(first));
        if t.prio != PrioPreset::Off {
            assert(t.prio.list() =~= standing_targets(first)->0);
        }
        assert(t.prio.after().list() =~= next_targets(first));
    }
}

} // verus!
