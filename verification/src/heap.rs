//! A binary min-heap of numbers.

use vstd::multiset::Multiset;
use vstd::prelude::*;

verus! {

/// Numbers, smallest first.
#[derive(Debug)]
pub struct MinHeap {
    items: Vec<u64>,
}

/// Swapping two elements keeps all of them.
proof fn swap_keeps(s: Seq<u64>, i: int, j: int)
    requires
        0 <= i < s.len(),
        0 <= j < s.len(),
    ensures
        s.update(i, s[j]).update(j, s[i]).to_multiset() =~= s.to_multiset(),
{
    broadcast use vstd::seq_lib::group_to_multiset_ensures;

    let a = s.update(i, s[j]);
    assert(a.to_multiset() =~= s.to_multiset().insert(s[j]).remove(s[i]));
    let b = a.update(j, s[i]);
    if i == j {
        assert(b =~= s);
    } else {
        assert(a[j] == s[j]);
        assert(b.to_multiset() =~= a.to_multiset().insert(s[i]).remove(s[j]));
        assert(s.contains(s[i]) && s.contains(s[j]));
    }
}

/// No element is smaller than its parent, except perhaps the one at `hole`,
/// whose children are in order with its parent.
spec fn ordered_but(s: Seq<u64>, hole: int) -> bool {
    &&& forall|i: int| 0 < i < s.len() && i != hole ==> s[(i - 1) / 2] <= #[trigger] s[i]
    &&& forall|i: int|
        0 < i < s.len() && (i - 1) / 2 == hole && hole > 0 ==> s[(hole - 1) / 2] <= #[trigger] s[i]
}

/// No element is smaller than its parent.
spec fn ordered(s: Seq<u64>) -> bool {
    forall|i: int| 0 < i < s.len() ==> s[(i - 1) / 2] <= #[trigger] s[i]
}

/// No element is smaller than its parent, except perhaps the children of
/// `hole`, which are in order with its parent.
spec fn ordered_above(s: Seq<u64>, hole: int) -> bool {
    &&& forall|i: int|
        0 < i < s.len() && (i - 1) / 2 != hole ==> s[(i - 1) / 2] <= #[trigger] s[i]
    &&& forall|i: int|
        0 < i < s.len() && (i - 1) / 2 == hole && hole > 0 ==> s[(hole - 1) / 2] <= #[trigger] s[i]
}

proof fn root_is_least(s: Seq<u64>, i: int)
    requires
        ordered(s),
        0 <= i < s.len(),
    ensures
        s[0] <= s[i],
    decreases i,
{
    if i > 0 {
        root_is_least(s, (i - 1) / 2);
        assert(s[(i - 1) / 2] <= s[i]);
    }
}

impl MinHeap {
    /// What the heap holds.
    pub closed spec fn view(&self) -> Multiset<u64> {
        self.items@.to_multiset()
    }

    #[verifier::type_invariant]
    closed spec fn inv(&self) -> bool {
        ordered(self.items@)
    }

    /// An empty heap.
    pub fn new() -> (r: MinHeap)
        ensures
            r.view() == Multiset::<u64>::empty(),
    {
        broadcast use vstd::seq_lib::group_to_multiset_ensures;

        let items: Vec<u64> = Vec::new();
        assert(items@.to_multiset() =~= Multiset::<u64>::empty()) by {
            assert(items@ =~= Seq::<u64>::empty());
            items@.to_multiset_ensures();
            assert(items@.to_multiset().len() == 0);
        }
        MinHeap { items }
    }

    /// Puts a number in.
    pub fn push(&mut self, x: u64)
        ensures
            final(self).view() == old(self).view().insert(x),
    {
        broadcast use vstd::seq_lib::group_to_multiset_ensures;

        proof {
            use_type_invariant(&*self);
        }
        let mut items: Vec<u64> = Vec::new();
        std::mem::swap(&mut items, &mut self.items);
        let ghost before = items@;
        items.push(x);
        let mut i: usize = items.len() - 1;
        assert(items@.to_multiset() =~= before.to_multiset().insert(x));
        assert(ordered_but(items@, i as int));
        while i > 0 && items[(i - 1) / 2] > items[i]
            invariant
                i < items.len(),
                ordered_but(items@, i as int),
                items@.to_multiset() == before.to_multiset().insert(x),
            decreases i,
        {
            let p: usize = (i - 1) / 2;
            let ghost s = items@;
            let a: u64 = items[i];
            let b: u64 = items[p];
            items.set(i, b);
            items.set(p, a);
            proof {
                swap_keeps(s, i as int, p as int);
                assert(items@ =~= s.update(i as int, s[p as int]).update(p as int, s[i as int]));
                let t = items@;
                assert forall|k: int| 0 < k < t.len() && k != p implies t[(k - 1) / 2]
                    <= #[trigger] t[k] by {
                    assert(s[(k - 1) / 2] <= s[k] || k == i);
                }
                assert forall|k: int|
                    0 < k < t.len() && (k - 1) / 2 == p && p > 0 implies t[(p - 1) / 2]
                    <= #[trigger] t[k] by {
                    assert(s[(p - 1) / 2] <= s[p as int]);
                    assert(k != i ==> s[(k - 1) / 2] <= s[k]);
                }
            }
            i = p;
        }
        assert(ordered(items@)) by {
            assert forall|k: int| 0 < k < items@.len() implies items@[(k - 1) / 2]
                <= #[trigger] items@[k] by {}
        }
        self.items = items;
    }

    /// Takes the smallest number out.
    pub fn pop(&mut self) -> (r: Option<u64>)
        ensures
            match r {
                Some(x) => {
                    &&& old(self).view().count(x) > 0
                    &&& forall|y: u64| #[trigger] old(self).view().count(y) > 0 ==> x <= y
                    &&& final(self).view() == old(self).view().remove(x)
                },
                None => {
                    &&& old(self).view() == Multiset::<u64>::empty()
                    &&& final(self).view() == old(self).view()
                },
            },
    {
        broadcast use vstd::seq_lib::group_to_multiset_ensures;

        proof {
            use_type_invariant(&*self);
        }
        let n: usize = self.items.len();
        if n == 0 {
            assert(self.items@.to_multiset() =~= Multiset::<u64>::empty()) by {
                assert(self.items@ =~= Seq::<u64>::empty());
                self.items@.to_multiset_ensures();
            }
            return None;
        }
        let mut items: Vec<u64> = Vec::new();
        std::mem::swap(&mut items, &mut self.items);
        let ghost before = items@;
        let top: u64 = items[0];
        let last: u64 = items[n - 1];
        items.set(0, last);
        items.set(n - 1, top);
        proof {
            swap_keeps(before, 0, n - 1);
            assert(items@ =~= before.update(0, before[n - 1]).update(n - 1, before[0]));
        }
        let ghost swapped = items@;
        items.pop();
        proof {
            assert(swapped =~= items@.push(top));
            assert(items@.to_multiset() =~= before.to_multiset().remove(top)) by {
                assert(swapped.to_multiset() =~= items@.to_multiset().insert(top));
            }
            assert forall|y: u64| #[trigger] before.to_multiset().count(y) > 0 implies top <= y by {
                assert(before.contains(y));
                let k = choose|k: int| 0 <= k < before.len() && before[k] == y;
                root_is_least(before, k);
            }
            assert(before.contains(top));
            let t = items@;
            assert forall|k: int| 0 < k < t.len() && (k - 1) / 2 != 0 implies t[(k - 1) / 2]
                <= #[trigger] t[k] by {
                assert(before[(k - 1) / 2] <= before[k]);
            }
        }
        let m: usize = n - 1;
        let mut i: usize = 0;
        let mut done = false;
        while !done
            invariant
                m == items.len(),
                i <= m,
                i < m || m == 0,
                ordered_above(items@, i as int) || (done && ordered(items@)),
                items@.to_multiset() == before.to_multiset().remove(top),
                done ==> ordered(items@),
            decreases (if done { 0int } else { m - i + 1 }),
        {
            if i >= m / 2 {
                assert(ordered(items@)) by {
                    assert forall|k: int| 0 < k < items@.len() implies items@[(k - 1) / 2]
                        <= #[trigger] items@[k] by {}
                }
                done = true;
            } else {
                let l: usize = 2 * i + 1;
                let c: usize = if l + 1 < m && items[l + 1] < items[l] {
                    l + 1
                } else {
                    l
                };
                if items[c] < items[i] {
                    let ghost s = items@;
                    let a: u64 = items[i];
                    let b: u64 = items[c];
                    items.set(i, b);
                    items.set(c, a);
                    proof {
                        swap_keeps(s, i as int, c as int);
                        assert(items@ =~= s.update(i as int, s[c as int]).update(
                            c as int,
                            s[i as int],
                        ));
                        let t = items@;
                        assert forall|k: int| 0 < k < t.len() && (k - 1) / 2 != c implies t[(k - 1)
                            / 2] <= #[trigger] t[k] by {
                            if (k - 1) / 2 == i {
                                assert(k == l || k == l + 1);
                            } else if k == i {
                                assert(s[(i - 1) / 2] <= s[c as int]);
                            } else {
                                assert(s[(k - 1) / 2] <= s[k]);
                            }
                        }
                        assert forall|k: int|
                            0 < k < t.len() && (k - 1) / 2 == c && c > 0 implies t[(c - 1) / 2]
                            <= #[trigger] t[k] by {
                            assert(s[(k - 1) / 2] <= s[k]);
                        }
                    }
                    i = c;
                } else {
                    assert(ordered(items@)) by {
                        assert forall|k: int| 0 < k < items@.len() implies items@[(k - 1) / 2]
                            <= #[trigger] items@[k] by {
                            if (k - 1) / 2 == i {
                                assert(k == l || k == l + 1);
                            }
                        }
                    }
                    done = true;
                }
            }
        }
        self.items = items;
        Some(top)
    }
}

} // verus!
