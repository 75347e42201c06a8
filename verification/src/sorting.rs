//! Sorting by a strict total order.
//!
//! Because the order is strict and total, a sorted sequence holds each item
//! once, and the sorted form of a set of items is unique: there is nothing
//! left for a sort to choose. [`sort`] is a merge sort that drops repeats.
use vstd::prelude::*;

verus! {

/// Items with a strict total order that can be tested at run time.
pub trait SortKey: Copy {
    /// Whether `self` comes strictly before `other`.
    spec fn precedes(self, other: Self) -> bool;

    fn comes_before(&self, other: &Self) -> (before: bool)
        ensures
            before == self.precedes(*other),
    ;

    /// Nothing comes before itself.
    proof fn lemma_irreflexive(a: Self)
        ensures
            !a.precedes(a),
    ;

    /// What comes before something that comes before a third comes before
    /// the third.
    proof fn lemma_transitive(a: Self, b: Self, c: Self)
        requires
            a.precedes(b),
            b.precedes(c),
        ensures
            a.precedes(c),
    ;

    /// Of two different items one comes before the other.
    proof fn lemma_total(a: Self, b: Self)
        ensures
            a.precedes(b) || b.precedes(a) || a == b,
    ;
}

/// Plain numbers, smallest first.
impl SortKey for u64 {
    open spec fn precedes(self, other: Self) -> bool {
        self < other
    }

    fn comes_before(&self, other: &Self) -> (before: bool) {
        *self < *other
    }

    proof fn lemma_irreflexive(a: Self) {
    }

    proof fn lemma_transitive(a: Self, b: Self, c: Self) {
    }

    proof fn lemma_total(a: Self, b: Self) {
    }
}

/// Every item comes strictly before every later one.
pub open spec fn strictly_sorted<T: SortKey>(s: Seq<T>) -> bool {
    forall|i: int, j: int| 0 <= i < j < s.len() ==> (#[trigger] s[i]).precedes(#[trigger] s[j])
}

/// The two sequences hold the same items, however often and in whatever
/// order.
pub open spec fn same_items<T>(a: Seq<T>, b: Seq<T>) -> bool {
    forall|x: T| a.contains(x) <==> b.contains(x)
}

/// No item of `a` is an item of `b`.
pub open spec fn no_common_item<T>(a: Seq<T>, b: Seq<T>) -> bool {
    forall|i: int, j: int| 0 <= i < a.len() && 0 <= j < b.len() ==> a[i] != b[j]
}

/// A strictly sorted sequence holds no item twice.
pub proof fn lemma_sorted_no_duplicates<T: SortKey>(s: Seq<T>)
    requires
        strictly_sorted(s),
    ensures
        s.no_duplicates(),
{
    assert forall|i: int, j: int| 0 <= i < s.len() && 0 <= j < s.len() && i != j implies s[i]
        != s[j] by {
        T::lemma_irreflexive(s[i]);
        if i < j {
            assert(s[i].precedes(s[j]));
        } else {
            assert(s[j].precedes(s[i]));
        }
    }
}

/// Two strictly sorted sequences of the same items are the same sequence.
pub proof fn lemma_sorted_unique<T: SortKey>(a: Seq<T>, b: Seq<T>)
    requires
        strictly_sorted(a),
        strictly_sorted(b),
        same_items(a, b),
    ensures
        a == b,
{
    lemma_sorted_no_duplicates(a);
    lemma_sorted_no_duplicates(b);
    a.unique_seq_to_set();
    b.unique_seq_to_set();
    assert(a.to_set() =~= b.to_set()) by {
        assert forall|x: T| a.to_set().contains(x) <==> b.to_set().contains(x) by {
            assert(a.contains(x) <==> b.contains(x));
        }
    }
    lemma_sorted_agree(a, b, a.len() as int);
    assert(a =~= b);
}

/// Two strictly sorted sequences of the same items agree on their first `n`
/// places.
proof fn lemma_sorted_agree<T: SortKey>(a: Seq<T>, b: Seq<T>, n: int)
    requires
        strictly_sorted(a),
        strictly_sorted(b),
        same_items(a, b),
        a.len() == b.len(),
        0 <= n <= a.len(),
    ensures
        forall|i: int| 0 <= i < n ==> a[i] == b[i],
    decreases n,
{
    if n > 0 {
        lemma_sorted_agree(a, b, n - 1);
        let i = n - 1;
        lemma_not_before(a, b, i);
        lemma_not_before(b, a, i);
        T::lemma_total(a[i], b[i]);
    }
}

/// Where two strictly sorted sequences of the same items agree before place
/// `i`, the item of the second at `i` does not come before that of the first.
proof fn lemma_not_before<T: SortKey>(a: Seq<T>, b: Seq<T>, i: int)
    requires
        strictly_sorted(a),
        strictly_sorted(b),
        same_items(a, b),
        0 <= i < a.len(),
        i < b.len(),
        forall|k: int| 0 <= k < i ==> a[k] == b[k],
    ensures
        !b[i].precedes(a[i]),
{
    // `b[i]` lies in `a`, at some place `p`.
    assert(b.contains(b[i]));
    assert(a.contains(b[i]));
    let p = choose|p: int| 0 <= p < a.len() && a[p] == b[i];
    if p < i {
        // Then `b[p] == a[p] == b[i]` with `p < i`: `b` would hold it twice.
        assert(b[p].precedes(b[i]));
        T::lemma_irreflexive(b[i]);
    } else if p > i {
        assert(a[i].precedes(a[p]));
        if b[i].precedes(a[i]) {
            T::lemma_transitive(b[i], a[i], a[p]);
            T::lemma_irreflexive(b[i]);
        }
    } else {
        T::lemma_irreflexive(a[i]);
    }
}

/// Merges two strictly sorted vectors into one, keeping one of each pair of
/// equal items.
pub fn merge<T: SortKey>(a: &Vec<T>, b: &Vec<T>) -> (out: Vec<T>)
    requires
        strictly_sorted(a@),
        strictly_sorted(b@),
    ensures
        strictly_sorted(out@),
        forall|x: T| out@.contains(x) <==> a@.contains(x) || b@.contains(x),
        out@.len() <= a@.len() + b@.len(),
        no_common_item(a@, b@) ==> out@.len() == a@.len() + b@.len(),
{
    let mut out: Vec<T> = Vec::new();
    let mut i: usize = 0;
    let mut j: usize = 0;
    while i < a.len() || j < b.len()
        invariant
            i <= a@.len(),
            j <= b@.len(),
            strictly_sorted(a@),
            strictly_sorted(b@),
            strictly_sorted(out@),
            forall|x: T|
                #[trigger] out@.contains(x) <==> a@.take(i as int).contains(x) || b@.take(
                    j as int,
                ).contains(x),
            out@.len() > 0 && i < a@.len() ==> out@.last().precedes(a@[i as int]),
            out@.len() > 0 && j < b@.len() ==> out@.last().precedes(b@[j as int]),
            out@.len() <= i + j,
            no_common_item(a@, b@) ==> out@.len() == i + j,
        decreases a@.len() - i + b@.len() - j,
    {
        let ghost before = out@;
        let take_a: bool = if j >= b.len() {
            true
        } else if i >= a.len() {
            false
        } else {
            !b[j].comes_before(&a[i])
        };
        if take_a {
            let x: T = a[i];
            let twin: bool = j < b.len() && !x.comes_before(&b[j]);
            proof {
                if twin {
                    T::lemma_total(x, b@[j as int]);
                    assert(x == b@[j as int]);
                }
                lemma_push_sorted(before, x);
                lemma_take_next(a@, i as int);
                if twin {
                    lemma_take_next(b@, j as int);
                }
                if i + 1 < a@.len() {
                    assert(a@[i as int].precedes(a@[i + 1]));
                }
                if twin && j + 1 < b@.len() {
                    assert(b@[j as int].precedes(b@[j + 1]));
                }
            }
            let ghost i0 = i as int;
            let ghost j0 = j as int;
            out.push(x);
            i = i + 1;
            if twin {
                j = j + 1;
            }
            proof {
                lemma_push_contains(before, x);
                assert forall|y: T| #[trigger]
                    out@.contains(y) <==> a@.take(i as int).contains(y) || b@.take(
                        j as int,
                    ).contains(y) by {
                    assert(before.push(x).contains(y) <==> before.contains(y) || y == x);
                    assert(before.contains(y) <==> a@.take(i0).contains(y) || b@.take(
                        j0,
                    ).contains(y));
                    assert(a@.take(i0 + 1).contains(y) <==> a@.take(i0).contains(y) || y == x);
                    if twin {
                        assert(b@.take(j0 + 1).contains(y) <==> b@.take(j0).contains(y) || y
                            == x);
                    }
                }
            }
        } else {
            let x: T = b[j];
            proof {
                lemma_push_sorted(before, x);
                lemma_take_next(b@, j as int);
                if j + 1 < b@.len() {
                    assert(b@[j as int].precedes(b@[j + 1]));
                }
            }
            let ghost i0 = i as int;
            let ghost j0 = j as int;
            out.push(x);
            j = j + 1;
            proof {
                lemma_push_contains(before, x);
                assert forall|y: T| #[trigger]
                    out@.contains(y) <==> a@.take(i as int).contains(y) || b@.take(
                        j as int,
                    ).contains(y) by {
                    assert(before.push(x).contains(y) <==> before.contains(y) || y == x);
                    assert(before.contains(y) <==> a@.take(i0).contains(y) || b@.take(
                        j0,
                    ).contains(y));
                    assert(b@.take(j0 + 1).contains(y) <==> b@.take(j0).contains(y) || y == x);
                }
            }
        }
    }
    proof {
        assert(a@.take(i as int) =~= a@);
        assert(b@.take(j as int) =~= b@);
    }
    out
}

/// Pushing an item that the last one precedes keeps a sequence strictly
/// sorted.
proof fn lemma_push_sorted<T: SortKey>(s: Seq<T>, x: T)
    requires
        strictly_sorted(s),
        s.len() > 0 ==> s.last().precedes(x),
    ensures
        strictly_sorted(s.push(x)),
{
    let t = s.push(x);
    assert forall|i: int, j: int| 0 <= i < j < t.len() implies (#[trigger] t[i]).precedes(
        #[trigger] t[j],
    ) by {
        if j < s.len() {
            assert(s[i].precedes(s[j]));
        } else if i < s.len() - 1 {
            assert(s[i].precedes(s[s.len() - 1]));
            T::lemma_transitive(s[i], s.last(), x);
        }
    }
}

/// What a sequence holds after a push.
proof fn lemma_push_contains<T>(s: Seq<T>, x: T)
    ensures
        forall|y: T| #[trigger] s.push(x).contains(y) <==> s.contains(y) || y == x,
{
    let t = s.push(x);
    assert forall|y: T| #[trigger] t.contains(y) <==> s.contains(y) || y == x by {
        if t.contains(y) {
            let k = choose|k: int| 0 <= k < t.len() && t[k] == y;
            if k < s.len() {
                assert(s[k] == y);
            }
        }
        if s.contains(y) {
            let k = choose|k: int| 0 <= k < s.len() && s[k] == y;
            assert(t[k] == y);
        }
        if y == x {
            assert(t[s.len() as int] == y);
        }
    }
}

/// What one more place of a sequence holds.
proof fn lemma_take_next<T>(s: Seq<T>, i: int)
    requires
        0 <= i < s.len(),
    ensures
        forall|y: T| #[trigger] s.take(i + 1).contains(y) <==> s.take(i).contains(y) || y == s[i],
{
    assert(s.take(i + 1) =~= s.take(i).push(s[i]));
    lemma_push_contains(s.take(i), s[i]);
}

/// Sorts the items of `items` from place `lo` up to place `hi`.
fn sort_range<T: SortKey>(items: &Vec<T>, lo: usize, hi: usize) -> (out: Vec<T>)
    requires
        lo <= hi <= items@.len(),
    ensures
        strictly_sorted(out@),
        same_items(out@, items@.subrange(lo as int, hi as int)),
        out@.len() <= hi - lo,
        items@.subrange(lo as int, hi as int).no_duplicates() ==> out@.len() == hi - lo,
    decreases hi - lo,
{
    let ghost part = items@.subrange(lo as int, hi as int);
    if hi - lo == 0 {
        let out: Vec<T> = Vec::new();
        proof {
            assert forall|x: T| out@.contains(x) <==> part.contains(x) by {
                if part.contains(x) {
                    let k = choose|k: int| 0 <= k < part.len() && part[k] == x;
                }
                if out@.contains(x) {
                    let k = choose|k: int| 0 <= k < out@.len() && out@[k] == x;
                }
            }
        }
        out
    } else if hi - lo == 1 {
        let mut out: Vec<T> = Vec::new();
        out.push(items[lo]);
        proof {
            assert(out@ =~= part);
        }
        out
    } else {
        let mid: usize = lo + (hi - lo) / 2;
        let left = sort_range(items, lo, mid);
        let right = sort_range(items, mid, hi);
        let out = merge(&left, &right);
        proof {
            let l = items@.subrange(lo as int, mid as int);
            let r = items@.subrange(mid as int, hi as int);
            assert(part =~= l + r);
            assert forall|x: T| out@.contains(x) <==> part.contains(x) by {
                lemma_concat_contains(l, r, x);
            }
            if part.no_duplicates() {
                assert(l.no_duplicates()) by {
                    assert forall|i: int, j: int|
                        0 <= i < l.len() && 0 <= j < l.len() && i != j implies l[i] != l[j] by {
                        assert(l[i] == part[i] && l[j] == part[j]);
                    }
                }
                assert(r.no_duplicates()) by {
                    assert forall|i: int, j: int|
                        0 <= i < r.len() && 0 <= j < r.len() && i != j implies r[i] != r[j] by {
                        assert(r[i] == part[l.len() + i] && r[j] == part[l.len() + j]);
                    }
                }
                assert(no_common_item(left@, right@)) by {
                    assert forall|i: int, j: int|
                        0 <= i < left@.len() && 0 <= j < right@.len() implies left@[i]
                        != right@[j] by {
                        assert(left@.contains(left@[i]));
                        assert(right@.contains(right@[j]));
                        assert(l.contains(left@[i]));
                        assert(r.contains(right@[j]));
                        let p = choose|p: int| 0 <= p < l.len() && l[p] == left@[i];
                        let q = choose|q: int| 0 <= q < r.len() && r[q] == right@[j];
                        assert(part[p] == l[p]);
                        assert(part[l.len() + q] == r[q]);
                    }
                }
            }
        }
        out
    }
}

/// What two sequences joined hold.
proof fn lemma_concat_contains<T>(a: Seq<T>, b: Seq<T>, x: T)
    ensures
        (a + b).contains(x) <==> a.contains(x) || b.contains(x),
{
    let c = a + b;
    if c.contains(x) {
        let k = choose|k: int| 0 <= k < c.len() && c[k] == x;
        if k < a.len() {
            assert(a[k] == x);
        } else {
            assert(b[k - a.len()] == x);
        }
    }
    if a.contains(x) {
        let k = choose|k: int| 0 <= k < a.len() && a[k] == x;
        assert(c[k] == x);
    }
    if b.contains(x) {
        let k = choose|k: int| 0 <= k < b.len() && b[k] == x;
        assert(c[a.len() + k] == x);
    }
}

/// Sorts the items and drops repeats.
///
/// The result is strictly sorted and holds exactly the items of `items`;
/// by [`lemma_sorted_unique`] it is the only sequence that does. Where no
/// item is repeated, none is dropped.
pub fn sort<T: SortKey>(items: &Vec<T>) -> (out: Vec<T>)
    ensures
        strictly_sorted(out@),
        same_items(out@, items@),
        out@.len() <= items@.len(),
        items@.no_duplicates() ==> out@.len() == items@.len(),
{
    proof {
        assert(items@.subrange(0, items@.len() as int) =~= items@);
    }
    sort_range(items, 0, items.len())
}

} // verus!
