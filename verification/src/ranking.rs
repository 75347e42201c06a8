//! Ranking indices by a key: largest key first, and of two equal keys the
//! smaller index first.
//!
//! That is what a stable sort by descending key gives when it starts from
//! the indices in ascending order. With the index as tie-break the order is
//! strict and total, so a ranking is unique ([`lemma_ranking_unique`]).
use vstd::prelude::*;
use crate::sorting::{lemma_sorted_unique, sort, strictly_sorted, SortKey};

verus! {

/// An index with the key it is ranked by.
#[derive(Debug, Clone, Copy, PartialEq, Eq, Structural)]
pub struct Ranked {
    pub key: u64,
    pub index: usize,
}

impl SortKey for Ranked {
    open spec fn precedes(self, other: Self) -> bool {
        self.key > other.key || (self.key == other.key && self.index < other.index)
    }

    fn comes_before(&self, other: &Self) -> (before: bool) {
        self.key > other.key || (self.key == other.key && self.index < other.index)
    }

    proof fn lemma_irreflexive(a: Self) {
    }

    proof fn lemma_transitive(a: Self, b: Self, c: Self) {
    }

    proof fn lemma_total(a: Self, b: Self) {
    }
}

/// Whether index `i` ranks before index `j`: its key is larger, or the keys
/// are equal and `i` is the smaller index.
pub open spec fn ranks_before(keys: Seq<u64>, i: usize, j: usize) -> bool {
    keys[i as int] > keys[j as int] || (keys[i as int] == keys[j as int] && i < j)
}

/// Whether `order` lists exactly the eligible indices, each once, every one
/// before all that it ranks before.
pub open spec fn is_ranking(order: Seq<usize>, keys: Seq<u64>, eligible: Seq<bool>) -> bool
    recommends
        eligible.len() == keys.len(),
{
    &&& forall|a: int|
        0 <= a < order.len() ==> (#[trigger] order[a]) < keys.len() && eligible[order[a] as int]
    &&& forall|i: int|
        0 <= i < keys.len() && #[trigger] eligible[i] ==> order.contains(i as usize)
    &&& forall|a: int, b: int|
        0 <= a < b < order.len() ==> ranks_before(keys, #[trigger] order[a], #[trigger] order[b])
}

/// The ranking of the eligible indices.
pub open spec fn ranking(keys: Seq<u64>, eligible: Seq<bool>) -> Seq<usize> {
    choose|order: Seq<usize>| is_ranking(order, keys, eligible)
}

/// Flags that make every one of `n` indices eligible.
pub open spec fn everyone(n: nat) -> Seq<bool> {
    Seq::new(n, |i: int| true)
}

/// The indices of `order`, each with its key.
pub open spec fn with_keys(order: Seq<usize>, keys: Seq<u64>) -> Seq<Ranked> {
    Seq::new(order.len(), |a: int| Ranked { key: keys[order[a] as int], index: order[a] })
}

/// There is only one ranking: two sequences that both rank the eligible
/// indices are equal, and equal to [`ranking`].
pub proof fn lemma_ranking_unique(
    first: Seq<usize>,
    second: Seq<usize>,
    keys: Seq<u64>,
    eligible: Seq<bool>,
)
    requires
        is_ranking(first, keys, eligible),
        is_ranking(second, keys, eligible),
    ensures
        first == second,
        first == ranking(keys, eligible),
{
    lemma_rankings_equal(first, second, keys, eligible);
    lemma_rankings_equal(first, ranking(keys, eligible), keys, eligible);
}

/// Two sequences that both rank the eligible indices are equal.
proof fn lemma_rankings_equal(
    first: Seq<usize>,
    second: Seq<usize>,
    keys: Seq<u64>,
    eligible: Seq<bool>,
)
    requires
        is_ranking(first, keys, eligible),
        is_ranking(second, keys, eligible),
    ensures
        first == second,
{
    let p = with_keys(first, keys);
    let q = with_keys(second, keys);
    lemma_with_keys_sorted(first, keys, eligible);
    lemma_with_keys_sorted(second, keys, eligible);
    assert forall|x: Ranked| p.contains(x) <==> q.contains(x) by {
        if p.contains(x) {
            let a = choose|a: int| 0 <= a < p.len() && p[a] == x;
            assert(eligible[first[a] as int]);
            assert(second.contains(first[a]));
            let b = choose|b: int| 0 <= b < second.len() && second[b] == first[a];
            assert(q[b] == x);
        }
        if q.contains(x) {
            let b = choose|b: int| 0 <= b < q.len() && q[b] == x;
            assert(eligible[second[b] as int]);
            assert(first.contains(second[b]));
            let a = choose|a: int| 0 <= a < first.len() && first[a] == second[b];
            assert(p[a] == x);
        }
    }
    lemma_sorted_unique(p, q);
    assert(first =~= second) by {
        assert(first.len() == p.len());
        assert(second.len() == q.len());
        assert forall|a: int| 0 <= a < first.len() implies first[a] == second[a] by {
            assert(p[a].index == first[a]);
            assert(q[a].index == second[a]);
        }
    }
}

/// A ranking, each index taken with its key, is strictly sorted.
proof fn lemma_with_keys_sorted(order: Seq<usize>, keys: Seq<u64>, eligible: Seq<bool>)
    requires
        is_ranking(order, keys, eligible),
    ensures
        strictly_sorted(with_keys(order, keys)),
{
    let p = with_keys(order, keys);
    assert forall|a: int, b: int| 0 <= a < b < p.len() implies (#[trigger] p[a]).precedes(
        #[trigger] p[b],
    ) by {
        assert(ranks_before(keys, order[a], order[b]));
    }
}

/// Where index `i` goes in a ranking that does not hold it: after the last
/// index that ranks before it.
spec fn place_of(keys: Seq<u64>, order: Seq<usize>, i: usize) -> int
    decreases order.len(),
{
    if order.len() == 0 {
        0
    } else if ranks_before(keys, order.last(), i) {
        order.len() as int
    } else {
        place_of(keys, order.drop_last(), i)
    }
}

/// The eligible indices below `m`, ranked: each index put in its place
/// among those below it.
spec fn ranking_below(keys: Seq<u64>, eligible: Seq<bool>, m: nat) -> Seq<usize>
    decreases m,
{
    if m == 0 {
        Seq::empty()
    } else {
        let before = ranking_below(keys, eligible, (m - 1) as nat);
        let i = (m - 1) as usize;
        if eligible[m - 1] {
            before.insert(place_of(keys, before, i), i)
        } else {
            before
        }
    }
}

/// Whether `order` ranks the eligible indices below `m`.
spec fn is_ranking_below(order: Seq<usize>, keys: Seq<u64>, eligible: Seq<bool>, m: nat) -> bool {
    &&& forall|a: int|
        0 <= a < order.len() ==> (#[trigger] order[a]) < m && eligible[order[a] as int]
    &&& forall|i: int| 0 <= i < m && #[trigger] eligible[i] ==> order.contains(i as usize)
    &&& forall|a: int, b: int|
        0 <= a < b < order.len() ==> ranks_before(keys, #[trigger] order[a], #[trigger] order[b])
}

/// The place of a new index splits a ranking: all before the place rank
/// before the index, and the index ranks before all from the place on.
proof fn lemma_place_of(keys: Seq<u64>, order: Seq<usize>, i: usize)
    requires
        forall|a: int, b: int|
            0 <= a < b < order.len() ==> ranks_before(keys, #[trigger] order[a], #[trigger] order[b]),
        forall|a: int| 0 <= a < order.len() ==> (#[trigger] order[a]) != i,
    ensures
        0 <= place_of(keys, order, i) <= order.len(),
        forall|a: int| 0 <= a < place_of(keys, order, i) ==> ranks_before(keys, #[trigger] order[a], i),
        forall|a: int|
            place_of(keys, order, i) <= a < order.len() ==> ranks_before(keys, i, #[trigger] order[a]),
    decreases order.len(),
{
    if order.len() > 0 {
        let last = order.len() - 1;
        if ranks_before(keys, order.last(), i) {
            assert forall|a: int| 0 <= a < order.len() implies ranks_before(
                keys,
                #[trigger] order[a],
                i,
            ) by {
                if a < last {
                    assert(ranks_before(keys, order[a], order[last]));
                }
            }
        } else {
            let head = order.drop_last();
            assert forall|a: int, b: int| 0 <= a < b < head.len() implies ranks_before(
                keys,
                #[trigger] head[a],
                #[trigger] head[b],
            ) by {
                assert(head[a] == order[a] && head[b] == order[b]);
            }
            assert forall|a: int| 0 <= a < head.len() implies (#[trigger] head[a]) != i by {
                assert(head[a] == order[a]);
            }
            lemma_place_of(keys, head, i);
            let p = place_of(keys, head, i);
            assert forall|a: int| 0 <= a < p implies ranks_before(keys, #[trigger] order[a], i) by {
                assert(head[a] == order[a]);
            }
            assert forall|a: int| p <= a < order.len() implies ranks_before(
                keys,
                i,
                #[trigger] order[a],
            ) by {
                if a < last {
                    assert(head[a] == order[a]);
                } else {
                    assert(order[last] != i);
                }
            }
        }
    }
}

/// The eligible indices below `m`, each put in its place, are ranked.
proof fn lemma_ranking_below(keys: Seq<u64>, eligible: Seq<bool>, m: nat)
    requires
        m <= keys.len() <= usize::MAX,
        eligible.len() == keys.len(),
    ensures
        is_ranking_below(ranking_below(keys, eligible, m), keys, eligible, m),
    decreases m,
{
    if m > 0 {
        let before = ranking_below(keys, eligible, (m - 1) as nat);
        let now = ranking_below(keys, eligible, m);
        let i = (m - 1) as usize;
        lemma_ranking_below(keys, eligible, (m - 1) as nat);
        if eligible[m - 1] {
            lemma_place_of(keys, before, i);
            let p = place_of(keys, before, i);
            assert forall|a: int| 0 <= a < now.len() implies (#[trigger] now[a]) < m
                && eligible[now[a] as int] by {
                if a < p {
                    assert(now[a] == before[a]);
                } else if a > p {
                    assert(now[a] == before[a - 1]);
                }
            }
            assert forall|x: int| 0 <= x < m && #[trigger] eligible[x] implies now.contains(
                x as usize,
            ) by {
                if x < m - 1 {
                    assert(before.contains(x as usize));
                    let a = choose|a: int| 0 <= a < before.len() && before[a] == x as usize;
                    if a < p {
                        assert(now[a] == x as usize);
                    } else {
                        assert(now[a + 1] == x as usize);
                    }
                } else {
                    assert(now[p] == i);
                }
            }
            assert forall|a: int, b: int| 0 <= a < b < now.len() implies ranks_before(
                keys,
                #[trigger] now[a],
                #[trigger] now[b],
            ) by {
                let x = if a < p {
                    before[a]
                } else if a == p {
                    i
                } else {
                    before[a - 1]
                };
                let y = if b < p {
                    before[b]
                } else if b == p {
                    i
                } else {
                    before[b - 1]
                };
                assert(now[a] == x && now[b] == y);
                if a < p && b < p {
                    assert(ranks_before(keys, before[a], before[b]));
                } else if a < p && b > p {
                    if a < b - 1 {
                        assert(ranks_before(keys, before[a], before[b - 1]));
                    } else {
                        assert(ranks_before(keys, before[a], i));
                        assert(ranks_before(keys, i, before[b - 1]));
                    }
                } else if a > p {
                    assert(ranks_before(keys, before[a - 1], before[b - 1]));
                }
            }
        } else {
            assert forall|x: int| 0 <= x < m && #[trigger] eligible[x] implies now.contains(
                x as usize,
            ) by {
                assert(x < m - 1);
            }
        }
    }
}

/// Every choice of keys and eligible indices has its ranking.
pub proof fn lemma_ranking_exists(keys: Seq<u64>, eligible: Seq<bool>)
    requires
        keys.len() <= usize::MAX,
        eligible.len() == keys.len(),
    ensures
        is_ranking(ranking(keys, eligible), keys, eligible),
{
    lemma_ranking_below(keys, eligible, keys.len());
    let found = ranking_below(keys, eligible, keys.len());
    assert(is_ranking(found, keys, eligible));
}

/// A ranking of all indices holds each once: it is as long as the keys.
pub proof fn lemma_ranking_of_everyone(order: Seq<usize>, keys: Seq<u64>)
    requires
        keys.len() <= usize::MAX,
        is_ranking(order, keys, everyone(keys.len())),
    ensures
        order.len() == keys.len(),
        order.no_duplicates(),
{
    let n = keys.len();
    let all = everyone(n);
    let pairs = with_keys(order, keys);
    lemma_with_keys_sorted(order, keys, all);
    crate::sorting::lemma_sorted_no_duplicates(pairs);
    assert forall|a: int, b: int| 0 <= a < order.len() && 0 <= b < order.len() && a != b implies order[a]
        != order[b] by {
        assert(pairs[a] != pairs[b]);
    }
    let ids = Seq::new(n, |i: int| i as usize);
    assert(ids.no_duplicates());
    assert(order.to_set() =~= ids.to_set()) by {
        assert forall|x: usize| order.to_set().contains(x) <==> ids.to_set().contains(x) by {
            if order.contains(x) {
                let a = choose|a: int| 0 <= a < order.len() && order[a] == x;
                assert(order[a] < n);
                assert(ids[x as int] == x);
            }
            if ids.contains(x) {
                let i = choose|i: int| 0 <= i < ids.len() && ids[i] == x;
                assert(all[i]);
                assert(order.contains(i as usize));
            }
        }
    }
    order.unique_seq_to_set();
    ids.unique_seq_to_set();
}

/// Ranks the eligible indices by their keys.
pub fn rank(keys: &Vec<u64>, eligible: &Vec<bool>) -> (order: Vec<usize>)
    requires
        eligible@.len() == keys@.len(),
    ensures
        is_ranking(order@, keys@, eligible@),
        order@ == ranking(keys@, eligible@),
        order@.len() <= keys@.len(),
        eligible@ == everyone(keys@.len()) ==> order@.len() == keys@.len(),
{
    let n = keys.len();
    let mut pairs: Vec<Ranked> = Vec::new();
    let mut i: usize = 0;
    while i < n
        invariant
            n == keys@.len(),
            eligible@.len() == n,
            i <= n,
            pairs@.len() <= i,
            eligible@ == everyone(n as nat) ==> pairs@.len() == i,
            forall|j: int|
                0 <= j < pairs@.len() ==> (#[trigger] pairs@[j]).index < i && eligible@[pairs@[j].index as int]
                    && pairs@[j].key == keys@[pairs@[j].index as int],
            forall|j: int, k: int|
                0 <= j < k < pairs@.len() ==> (#[trigger] pairs@[j]).index < (
                #[trigger] pairs@[k]).index,
            forall|x: int|
                0 <= x < i && #[trigger] eligible@[x] ==> pairs@.contains(
                    Ranked { key: keys@[x], index: x as usize },
                ),
        decreases n - i,
    {
        if eligible[i] {
            let ghost before = pairs@;
            let pair = Ranked { key: keys[i], index: i };
            pairs.push(pair);
            proof {
                assert forall|x: int| 0 <= x < i + 1 && #[trigger] eligible@[x] implies pairs@.contains(
                    Ranked { key: keys@[x], index: x as usize },
                ) by {
                    if x < i {
                        let r = Ranked { key: keys@[x], index: x as usize };
                        assert(before.contains(r));
                        let k = choose|k: int| 0 <= k < before.len() && before[k] == r;
                        assert(pairs@[k] == r);
                    } else {
                        assert(pairs@[before.len() as int] == pair);
                    }
                }
            }
        } else {
            proof {
                assert(everyone(n as nat)[i as int]);
            }
        }
        i = i + 1;
    }
    let sorted = sort(&pairs);
    proof {
        assert(pairs@.no_duplicates());
    }
    let mut order: Vec<usize> = Vec::new();
    let mut a: usize = 0;
    while a < sorted.len()
        invariant
            a <= sorted@.len(),
            order@.len() == a,
            forall|b: int| 0 <= b < a ==> #[trigger] order@[b] == sorted@[b].index,
        decreases sorted@.len() - a,
    {
        order.push(sorted[a].index);
        a = a + 1;
    }
    proof {
        assert forall|b: int| 0 <= b < order@.len() implies (#[trigger] order@[b]) < keys@.len()
            && eligible@[order@[b] as int] && sorted@[b].key == keys@[order@[b] as int] by {
            assert(sorted@.contains(sorted@[b]));
            assert(pairs@.contains(sorted@[b]));
            let j = choose|j: int| 0 <= j < pairs@.len() && pairs@[j] == sorted@[b];
            assert(pairs@[j].index < n);
        }
        assert forall|x: int| 0 <= x < keys@.len() && #[trigger] eligible@[x] implies order@.contains(
            x as usize,
        ) by {
            let r = Ranked { key: keys@[x], index: x as usize };
            assert(pairs@.contains(r));
            assert(sorted@.contains(r));
            let b = choose|b: int| 0 <= b < sorted@.len() && sorted@[b] == r;
            assert(order@[b] == x as usize);
        }
        assert forall|b: int, c: int| 0 <= b < c < order@.len() implies ranks_before(
            keys@,
            #[trigger] order@[b],
            #[trigger] order@[c],
        ) by {
            assert(sorted@[b].precedes(sorted@[c]));
            assert(sorted@[b].key == keys@[order@[b] as int]);
            assert(sorted@[c].key == keys@[order@[c] as int]);
        }
        lemma_ranking_unique(order@, order@, keys@, eligible@);
    }
    order
}

} // verus!
