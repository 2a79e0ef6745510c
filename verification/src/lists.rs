//! Counting, finding and ordering over sequences.

use vstd::prelude::*;

verus! {

/// How many elements satisfy `p`.
pub open spec fn count<T>(s: Seq<T>, p: spec_fn(T) -> bool) -> nat
    decreases s.len(),
{
    if s.len() == 0 {
        0
    } else {
        count(s.drop_last(), p) + (if p(s.last()) {
            1nat
        } else {
            0nat
        })
    }
}

/// The first value that `f` yields, front to back.
pub open spec fn first_some<T, U>(s: Seq<T>, f: spec_fn(T) -> Option<U>) -> Option<U>
    decreases s.len(),
{
    if s.len() == 0 {
        None
    } else {
        match first_some(s.drop_last(), f) {
            Some(u) => Some(u),
            None => f(s.last()),
        }
    }
}

/// The values that `f` yields, in order.
pub open spec fn picked<T, U>(s: Seq<T>, f: spec_fn(T) -> Option<U>) -> Seq<U>
    decreases s.len(),
{
    if s.len() == 0 {
        Seq::empty()
    } else {
        let front = picked(s.drop_last(), f);
        match f(s.last()) {
            Some(u) => front.push(u),
            None => front,
        }
    }
}

/// The values that `f` yields from each position and its element, in order.
pub open spec fn picked_at<T, U>(s: Seq<T>, f: spec_fn(int, T) -> Option<U>) -> Seq<U>
    decreases s.len(),
{
    if s.len() == 0 {
        Seq::empty()
    } else {
        let front = picked_at(s.drop_last(), f);
        match f(s.len() - 1, s.last()) {
            Some(u) => front.push(u),
            None => front,
        }
    }
}

/// A single element when `b` holds, and nothing otherwise.
pub open spec fn only_if<T>(b: bool, x: T) -> Seq<T> {
    if b {
        seq![x]
    } else {
        Seq::empty()
    }
}

pub proof fn count_bound<T>(s: Seq<T>, p: spec_fn(T) -> bool)
    ensures
        count(s, p) <= s.len(),
    decreases s.len(),
{
    if s.len() > 0 {
        count_bound(s.drop_last(), p);
    }
}

pub proof fn count_finds<T>(s: Seq<T>, i: int, p: spec_fn(T) -> bool)
    requires
        0 <= i < s.len(),
        p(s[i]),
    ensures
        count(s, p) > 0,
    decreases s.len(),
{
    if i < s.len() - 1 {
        assert(s.drop_last()[i] == s[i]);
        count_finds(s.drop_last(), i, p);
    }
}

pub proof fn count_witness<T>(s: Seq<T>, p: spec_fn(T) -> bool) -> (i: int)
    requires
        count(s, p) > 0,
    ensures
        0 <= i < s.len(),
        p(s[i]),
    decreases s.len(),
{
    if p(s.last()) {
        s.len() - 1
    } else {
        let i = count_witness(s.drop_last(), p);
        assert(s.drop_last()[i] == s[i]);
        i
    }
}

pub proof fn count_step<T>(s: Seq<T>, i: int, p: spec_fn(T) -> bool)
    requires
        0 <= i < s.len(),
    ensures
        count(s.take(i + 1), p) == count(s.take(i), p) + (if p(s[i]) {
            1nat
        } else {
            0nat
        }),
        count(s.take(i + 1), p) <= i + 1,
{
    assert(s.take(i + 1).drop_last() =~= s.take(i));
    count_bound(s.take(i + 1), p);
}

pub proof fn first_some_step<T, U>(s: Seq<T>, i: int, f: spec_fn(T) -> Option<U>)
    requires
        0 <= i < s.len(),
    ensures
        first_some(s.take(i + 1), f) == (match first_some(s.take(i), f) {
            Some(u) => Some(u),
            None => f(s[i]),
        }),
{
    assert(s.take(i + 1).drop_last() =~= s.take(i));
}

pub proof fn picked_step<T, U>(s: Seq<T>, i: int, f: spec_fn(T) -> Option<U>)
    requires
        0 <= i < s.len(),
    ensures
        picked(s.take(i + 1), f) == (match f(s[i]) {
            Some(u) => picked(s.take(i), f).push(u),
            None => picked(s.take(i), f),
        }),
{
    assert(s.take(i + 1).drop_last() =~= s.take(i));
}

pub proof fn picked_at_step<T, U>(s: Seq<T>, i: int, f: spec_fn(int, T) -> Option<U>)
    requires
        0 <= i < s.len(),
    ensures
        picked_at(s.take(i + 1), f) == (match f(i, s[i]) {
            Some(u) => picked_at(s.take(i), f).push(u),
            None => picked_at(s.take(i), f),
        }),
{
    assert(s.take(i + 1).drop_last() =~= s.take(i));
}

/// What a prefix has found, the whole list finds too.
pub proof fn first_stays<T, U>(s: Seq<T>, n: int, f: spec_fn(T) -> Option<U>)
    requires
        0 <= n <= s.len(),
        first_some(s.take(n), f) is Some,
    ensures
        first_some(s, f) == first_some(s.take(n), f),
    decreases s.len() - n,
{
    if n < s.len() {
        first_some_step(s, n, f);
        first_stays(s, n + 1, f);
    } else {
        assert(s.take(n) =~= s);
    }
}

/// The first value found is yielded by some element, and by none before it.
pub proof fn first_some_is_first<T, U>(s: Seq<T>, f: spec_fn(T) -> Option<U>)
    ensures
        match first_some(s, f) {
            Some(u) => exists|i: int|
                0 <= i < s.len() && f(#[trigger] s[i]) == Some(u) && forall|j: int|
                    0 <= j < i ==> f(#[trigger] s[j]) is None,
            None => forall|i: int| 0 <= i < s.len() ==> f(#[trigger] s[i]) is None,
        },
    decreases s.len(),
{
    if s.len() > 0 {
        let front = s.drop_last();
        first_some_is_first(front, f);
        match first_some(front, f) {
            Some(u) => {
                let i = choose|i: int|
                    0 <= i < front.len() && f(#[trigger] front[i]) == Some(u) && forall|j: int|
                        0 <= j < i ==> f(#[trigger] front[j]) is None;
                assert(s[i] == front[i]);
                assert forall|j: int| 0 <= j < i implies f(#[trigger] s[j]) is None by {
                    assert(front[j] == s[j]);
                }
            },
            None => {
                assert forall|j: int| 0 <= j < s.len() - 1 implies f(#[trigger] s[j]) is None by {
                    assert(front[j] == s[j]);
                }
                assert(s[s.len() - 1] == s.last());
            },
        }
    }
}

/// A list holds what `f` yields and nothing else.
pub proof fn picked_holds<T, U>(s: Seq<T>, f: spec_fn(T) -> Option<U>, u: U)
    ensures
        picked(s, f).contains(u) <==> exists|i: int|
            0 <= i < s.len() && f(#[trigger] s[i]) == Some(u),
    decreases s.len(),
{
    if s.len() > 0 {
        let front = s.drop_last();
        picked_holds(front, f, u);
        let all = picked(s, f);
        let before = picked(front, f);
        if before.contains(u) {
            let i = choose|i: int| 0 <= i < before.len() && before[i] == u;
            assert(all[i] == u);
            let j = choose|j: int| 0 <= j < front.len() && f(#[trigger] front[j]) == Some(u);
            assert(s[j] == front[j]);
        }
        if all.contains(u) {
            let i = choose|i: int| 0 <= i < all.len() && all[i] == u;
            if i < before.len() {
                assert(before[i] == u);
            } else {
                assert(f(s[s.len() - 1]) == Some(u));
            }
        }
        if exists|i: int| 0 <= i < s.len() && f(#[trigger] s[i]) == Some(u) {
            let i = choose|i: int| 0 <= i < s.len() && f(#[trigger] s[i]) == Some(u);
            if i < front.len() {
                assert(front[i] == s[i]);
            } else {
                assert(all[all.len() - 1] == u);
            }
        }
    }
}

/// Where each value that `f` yields stands in the list: one position for each,
/// in the same order, and none of the positions that yield anything is left out.
pub proof fn picked_places<T, U>(s: Seq<T>, f: spec_fn(T) -> Option<U>) -> (at: Seq<int>)
    ensures
        at.len() == picked(s, f).len(),
        forall|k: int|
            0 <= k < at.len() ==> 0 <= #[trigger] at[k] < s.len() && f(s[at[k]]) == Some(
                picked(s, f)[k],
            ),
        forall|k: int, l: int| 0 <= k < l < at.len() ==> #[trigger] at[k] < #[trigger] at[l],
        forall|i: int| 0 <= i < s.len() && f(#[trigger] s[i]) is Some ==> at.contains(i),
    decreases s.len(),
{
    if s.len() == 0 {
        Seq::empty()
    } else {
        let front = s.drop_last();
        let before = picked_places(front, f);
        let last = s.len() - 1;
        assert forall|i: int| 0 <= i < front.len() implies front[i] == #[trigger] s[i] by {}
        match f(s.last()) {
            Some(_) => {
                let at = before.push(last);
                assert forall|i: int| 0 <= i < s.len() && f(#[trigger] s[i]) is Some implies
                    at.contains(i) by {
                    if i < last {
                        assert(f(front[i]) is Some);
                        let k = choose|k: int| 0 <= k < before.len() && before[k] == i;
                        assert(at[k] == i);
                    } else {
                        assert(at[at.len() - 1] == i);
                    }
                }
                at
            },
            None => {
                assert forall|i: int| 0 <= i < s.len() && f(#[trigger] s[i]) is Some implies
                    before.contains(i) by {
                    assert(f(front[i]) is Some);
                }
                before
            },
        }
    }
}

/// Where an element of key `k` goes in an ordered list: behind every element
/// whose key is no larger.
pub open spec fn place<T>(s: Seq<(i64, T)>, k: i64) -> int
    decreases s.len(),
{
    if s.len() == 0 || s.last().0 <= k {
        s.len() as int
    } else {
        place(s.drop_last(), k)
    }
}

/// The list in order of its keys. Elements with equal keys keep their order.
pub open spec fn in_order<T>(s: Seq<(i64, T)>) -> Seq<(i64, T)>
    decreases s.len(),
{
    if s.len() == 0 {
        Seq::empty()
    } else {
        let front = in_order(s.drop_last());
        front.insert(place(front, s.last().0), s.last())
    }
}

/// The values of a list of keyed values.
pub open spec fn values<T>(s: Seq<(i64, T)>) -> Seq<T> {
    s.map_values(|kv: (i64, T)| kv.1)
}

pub open spec fn ascending<T>(s: Seq<(i64, T)>) -> bool {
    forall|i: int, j: int| 0 <= i <= j < s.len() ==> (#[trigger] s[i]).0 <= (#[trigger] s[j]).0
}

pub proof fn place_splits<T>(s: Seq<(i64, T)>, k: i64)
    requires
        ascending(s),
    ensures
        0 <= place(s, k) <= s.len(),
        forall|i: int| 0 <= i < place(s, k) ==> (#[trigger] s[i]).0 <= k,
        forall|i: int| place(s, k) <= i < s.len() ==> (#[trigger] s[i]).0 > k,
    decreases s.len(),
{
    if s.len() > 0 {
        if s.last().0 <= k {
            assert forall|i: int| 0 <= i < s.len() implies (#[trigger] s[i]).0 <= k by {
                assert(s[s.len() - 1] == s.last());
            }
        } else {
            let front = s.drop_last();
            assert forall|i: int, j: int| 0 <= i <= j < front.len() implies (#[trigger] front[i]).0
                <= (#[trigger] front[j]).0 by {
                assert(front[i] == s[i] && front[j] == s[j]);
            }
            place_splits(front, k);
            assert forall|i: int| 0 <= i < place(s, k) implies (#[trigger] s[i]).0 <= k by {
                assert(front[i] == s[i]);
            }
            assert forall|i: int| place(s, k) <= i < s.len() implies (#[trigger] s[i]).0 > k by {
                if i < s.len() - 1 {
                    assert(front[i] == s[i]);
                }
            }
        }
    }
}

/// Ordering a list keeps its elements and puts its keys in ascending order.
pub proof fn in_order_sorts<T>(s: Seq<(i64, T)>)
    ensures
        ascending(in_order(s)),
        in_order(s).to_multiset() == s.to_multiset(),
        in_order(s).len() == s.len(),
    decreases s.len(),
{
    broadcast use vstd::seq_lib::group_to_multiset_ensures;

    if s.len() == 0 {
        assert(in_order(s) =~= s);
    } else {
        let front = in_order(s.drop_last());
        in_order_sorts(s.drop_last());
        let x = s.last();
        let p = place(front, x.0);
        place_splits(front, x.0);
        let r = front.insert(p, x);
        assert forall|i: int, j: int| 0 <= i <= j < r.len() implies (#[trigger] r[i]).0 <= (
        #[trigger] r[j]).0 by {
            if i < p {
                assert(r[i] == front[i]);
            } else if i > p {
                assert(r[i] == front[i - 1]);
            }
            if j < p {
                assert(r[j] == front[j]);
            } else if j > p {
                assert(r[j] == front[j - 1]);
            }
        }
        assert(s =~= s.drop_last().push(x));
        assert(front.insert(p, x).to_multiset() == front.to_multiset().insert(x));
        assert(s.to_multiset() == s.drop_last().to_multiset().insert(x));
    }
}

/// Where each element of an ordered list stood before: every position once, and
/// those of equal keys in the order they had.
pub proof fn ordered_places<T>(s: Seq<(i64, T)>) -> (at: Seq<int>)
    ensures
        at.len() == s.len(),
        in_order(s).len() == s.len(),
        forall|k: int|
            0 <= k < at.len() ==> 0 <= #[trigger] at[k] < s.len() && s[at[k]] == in_order(s)[k],
        forall|k: int, l: int|
            0 <= k < l < at.len() ==> s[#[trigger] at[k]].0 <= s[#[trigger] at[l]].0 && at[k]
                != at[l] && (s[at[k]].0 == s[at[l]].0 ==> at[k] < at[l]),
        forall|i: int| 0 <= i < s.len() ==> #[trigger] at.contains(i),
    decreases s.len(),
{
    if s.len() == 0 {
        Seq::empty()
    } else {
        let front = s.drop_last();
        let sorted = in_order(front);
        let last = s.len() - 1;
        let x = s.last();
        let before = ordered_places(front);
        in_order_sorts(front);
        place_splits(sorted, x.0);
        let p = place(sorted, x.0);
        let at = before.insert(p, last);
        assert forall|k: int| 0 <= k < at.len() implies 0 <= #[trigger] at[k] < s.len() && s[at[k]]
            == in_order(s)[k] by {
            if k < p {
                assert(at[k] == before[k]);
            } else if k > p {
                assert(at[k] == before[k - 1]);
            }
        }
        assert forall|k: int, l: int| 0 <= k < l < at.len() implies s[#[trigger] at[k]].0
            <= s[#[trigger] at[l]].0 && at[k] != at[l] && (s[at[k]].0 == s[at[l]].0 ==> at[k]
            < at[l]) by {
            let kk = if k < p {
                k
            } else {
                k - 1
            };
            let ll = if l < p {
                l
            } else {
                l - 1
            };
            if k != p {
                assert(at[k] == before[kk]);
                assert(front[before[kk]] == sorted[kk]);
            }
            if l != p {
                assert(at[l] == before[ll]);
                assert(front[before[ll]] == sorted[ll]);
            }
        }
        assert forall|i: int| 0 <= i < s.len() implies #[trigger] at.contains(i) by {
            if i == last {
                assert(at[p] == i);
            } else {
                assert(before.contains(i));
                let k = choose|k: int| 0 <= k < before.len() && before[k] == i;
                if k < p {
                    assert(at[k] == i);
                } else {
                    assert(at[k + 1] == i);
                }
            }
        }
        at
    }
}

/// Orders a list by its keys, keeping the order of equal ones.
pub fn order_by_key<T: Copy>(list: &Vec<(i64, T)>) -> (r: Vec<(i64, T)>)
    ensures
        r@ == in_order(list@),
{
    let mut out: Vec<(i64, T)> = Vec::new();
    let mut i: usize = 0;
    while i < list.len()
        invariant
            i <= list.len(),
            out@ == in_order(list@.take(i as int)),
            out.len() == i,
        decreases list.len() - i,
    {
        let x = list[i];
        proof {
            in_order_sorts(list@.take(i as int));
            assert(list@.take(i + 1).drop_last() =~= list@.take(i as int));
        }
        let ghost whole = out@;
        let mut p: usize = out.len();
        assert(whole.take(p as int) =~= whole);
        while p > 0 && out[p - 1].0 > x.0
            invariant
                p <= out.len(),
                out@ == whole,
                place(whole, x.0) == place(whole.take(p as int), x.0),
            decreases p,
        {
            assert(whole.take(p as int).drop_last() =~= whole.take(p - 1));
            p = p - 1;
        }
        assert(p == place(whole, x.0));
        out.insert(p, x);
        i = i + 1;
    }
    assert(list@.take(i as int) =~= list@);
    out
}

/// Whether a list of ids holds `x`.
pub fn holds(list: &Vec<u64>, x: u64) -> (r: bool)
    ensures
        r == list@.contains(x),
{
    let mut i: usize = 0;
    while i < list.len()
        invariant
            i <= list.len(),
            forall|j: int| 0 <= j < i ==> list@[j] != x,
        decreases list.len() - i,
    {
        if list[i] == x {
            return true;
        }
        i = i + 1;
    }
    false
}

/// The element at the smallest distance; the first of them where several tie.
pub open spec fn nearest<T>(s: Seq<(T, i128)>) -> Option<(T, i128)>
    decreases s.len(),
{
    if s.len() == 0 {
        None
    } else {
        match nearest(s.drop_last()) {
            Some(best) => if s.last().1 < best.1 {
                Some(s.last())
            } else {
                Some(best)
            },
            None => Some(s.last()),
        }
    }
}

/// The nearest element is in the list, none is nearer, and every one before it
/// is farther.
pub proof fn nearest_is_nearest<T>(s: Seq<(T, i128)>) -> (i: int)
    requires
        s.len() > 0,
    ensures
        0 <= i < s.len(),
        nearest(s) == Some(s[i]),
        forall|j: int| 0 <= j < s.len() ==> s[i].1 <= (#[trigger] s[j]).1,
        forall|j: int| 0 <= j < i ==> s[i].1 < (#[trigger] s[j]).1,
    decreases s.len(),
{
    if s.len() == 1 {
        assert(nearest(s.drop_last()) is None);
        0
    } else {
        let front = s.drop_last();
        let i = nearest_is_nearest(front);
        assert forall|j: int| 0 <= j < front.len() implies front[j] == #[trigger] s[j] by {}
        if s.last().1 < front[i].1 {
            s.len() - 1
        } else {
            i
        }
    }
}

/// The element at the smallest distance; the first of them where several tie.
pub fn find_nearest<T: Copy>(list: &Vec<(T, i128)>) -> (r: Option<(T, i128)>)
    ensures
        r == nearest(list@),
{
    let mut best: Option<(T, i128)> = None;
    let mut i: usize = 0;
    while i < list.len()
        invariant
            i <= list.len(),
            best == nearest(list@.take(i as int)),
        decreases list.len() - i,
    {
        assert(list@.take(i + 1).drop_last() =~= list@.take(i as int));
        let x = list[i];
        match best {
            Some(b) => {
                if x.1 < b.1 {
                    best = Some(x);
                }
            },
            None => {
                best = Some(x);
            },
        }
        i = i + 1;
    }
    assert(list@.take(i as int) =~= list@);
    best
}

} // verus!
