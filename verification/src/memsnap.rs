//! The allocation store: the allocations of one capture, the set of all
//! sampled times, and the orderings and the timeline that are computed on
//! first use and kept.
//!
//! The store is described by a model, [`MemSnapView`]. Each query is a pair
//! of functions on the model, one that gives the answer and one that gives
//! the store after the query; the executable query is proved to return the
//! one and leave the other. What holds across queries is then a theorem
//! about the model.
use std::collections::BTreeMap;
use vstd::prelude::*;
use crate::allocation::{lemma_max_offset, max_offset, Allocation, AllocationView};
use crate::ranking::{
    everyone, is_ranking, lemma_ranking_exists, lemma_ranking_of_everyone, rank, ranking,
    ranks_before,
};
use crate::sorting::{
    lemma_sorted_no_duplicates, same_items, sort, strictly_sorted, SortKey,
};

verus! {

/// The position of an allocation in the store. It never changes.
pub type AllocationIndex = usize;

/// Why a query was refused.
#[derive(Debug, Clone, Copy, PartialEq, Eq, Structural)]
pub enum QueryError {
    /// The rank bound `k` that was asked for, and the number of allocations,
    /// which it must stay below.
    OutOfBounds(usize, usize),
}

/// The memory occupied over time.
#[derive(Debug, Clone, PartialEq, Eq)]
pub struct Timeline {
    /// For each sampled time, in ascending order, the highest byte that any
    /// allocation sampled at that time reached.
    pub timeline: Vec<(u64, u64)>,
    /// The latest sampled time; 0 where there is none.
    pub max_time: u64,
    /// The highest byte reached at any time; 0 where there is no sample.
    pub max_alloc: u64,
}

/// The model of a [`Timeline`].
pub struct TimelineView {
    pub timeline: Seq<(u64, u64)>,
    pub max_time: u64,
    pub max_alloc: u64,
}

impl View for Timeline {
    type V = TimelineView;

    open spec fn view(&self) -> TimelineView {
        TimelineView {
            timeline: self.timeline@,
            max_time: self.max_time,
            max_alloc: self.max_alloc,
        }
    }
}

// ---------------------------------------------------------------------------
// What the store computes
// ---------------------------------------------------------------------------

/// The size of each allocation.
pub open spec fn sizes(allocations: Seq<AllocationView>) -> Seq<u64> {
    Seq::new(allocations.len(), |i: int| allocations[i].size)
}

/// The peak of each allocation.
pub open spec fn peaks(allocations: Seq<AllocationView>) -> Seq<u64> {
    Seq::new(allocations.len(), |i: int| allocations[i].peak_mem)
}

/// For each allocation, whether it is alive at `time`.
pub open spec fn alive_at(allocations: Seq<AllocationView>, time: u64) -> Seq<bool> {
    Seq::new(allocations.len(), |i: int| allocations[i].is_alive_at(time))
}

/// Every sampled time of every allocation, one allocation after another.
pub open spec fn all_times(allocations: Seq<AllocationView>) -> Seq<u64>
    decreases allocations.len(),
{
    if allocations.len() == 0 {
        Seq::empty()
    } else {
        all_times(allocations.drop_last()) + allocations.last().timesteps
    }
}

/// Whether `timestamps` is the set of all sampled times, in ascending order.
pub open spec fn is_timestamp_set(timestamps: Seq<u64>, allocations: Seq<AllocationView>) -> bool {
    &&& strictly_sorted(timestamps)
    &&& same_items(timestamps, all_times(allocations))
}

/// Whether `i` is the place a query time snaps to: the first place whose
/// time is not before the query, or the last place where every time is
/// before it.
pub open spec fn is_snap_index(timestamps: Seq<u64>, time: u64, i: int) -> bool {
    &&& 0 <= i < timestamps.len()
    &&& forall|j: int| 0 <= j < i ==> timestamps[j] < time
    &&& (timestamps[i] >= time || i == timestamps.len() - 1)
}

/// The sampled time that a query time snaps to: the next one at or after
/// it, or the last one where the query is later than all.
pub open spec fn snap(timestamps: Seq<u64>, time: u64) -> u64 {
    timestamps[choose|i: int| is_snap_index(timestamps, time, i)]
}

/// The larger of two numbers.
pub open spec fn larger(a: nat, b: nat) -> nat {
    if a >= b {
        a
    } else {
        b
    }
}

/// The highest byte that an allocation reaches in those of its first `n`
/// samples that were taken at `time`; 0 where there is none.
pub open spec fn reach_at(a: AllocationView, time: u64, n: nat) -> nat
    decreases n,
{
    if n == 0 {
        0
    } else {
        let before = reach_at(a, time, (n - 1) as nat);
        if a.timesteps[n - 1] == time {
            larger(before, (a.offsets[n - 1] + a.size) as nat)
        } else {
            before
        }
    }
}

/// The memory occupied at `time`: the highest byte that any allocation
/// reaches in a sample taken at that time. It is a maximum, not a sum.
pub open spec fn occupied_at(allocations: Seq<AllocationView>, time: u64) -> nat
    decreases allocations.len(),
{
    if allocations.len() == 0 {
        0
    } else {
        let a = allocations.last();
        larger(occupied_at(allocations.drop_last(), time), reach_at(a, time, a.timesteps.len()))
    }
}

/// The highest byte that an allocation reaches in its first `n` samples.
pub open spec fn reach(a: AllocationView, n: nat) -> nat
    decreases n,
{
    if n == 0 {
        0
    } else {
        larger(reach(a, (n - 1) as nat), (a.offsets[n - 1] + a.size) as nat)
    }
}

/// The highest byte that any allocation reaches in any sample.
pub open spec fn highest(allocations: Seq<AllocationView>) -> nat
    decreases allocations.len(),
{
    if allocations.len() == 0 {
        0
    } else {
        let a = allocations.last();
        larger(highest(allocations.drop_last()), reach(a, a.timesteps.len()))
    }
}

/// The timeline of a store.
pub open spec fn timeline_of(allocations: Seq<AllocationView>, timestamps: Seq<u64>) -> TimelineView {
    TimelineView {
        timeline: Seq::new(
            timestamps.len(),
            |j: int| (timestamps[j], occupied_at(allocations, timestamps[j]) as u64),
        ),
        max_time: if timestamps.len() == 0 {
            0
        } else {
            timestamps.last()
        },
        max_alloc: highest(allocations) as u64,
    }
}

// ---------------------------------------------------------------------------
// The model
// ---------------------------------------------------------------------------

/// The model of a [`MemSnap`].
pub struct MemSnapView {
    pub allocations: Seq<AllocationView>,
    pub timestamps: Seq<u64>,
    pub global_sorted_sizes: Option<Seq<usize>>,
    pub peak_sorted_sizes: Option<Seq<usize>>,
    pub timestamp_sorted_sizes: Map<u64, Seq<usize>>,
    pub timeline: Option<TimelineView>,
}

impl MemSnapView {
    /// The ranking of all allocations by size.
    pub open spec fn size_ranking(self) -> Seq<usize> {
        ranking(sizes(self.allocations), everyone(self.allocations.len()))
    }

    /// The ranking of all allocations by peak.
    pub open spec fn peak_ranking(self) -> Seq<usize> {
        ranking(peaks(self.allocations), everyone(self.allocations.len()))
    }

    /// The ranking by size of the allocations alive at `time`.
    pub open spec fn alive_ranking(self, time: u64) -> Seq<usize> {
        ranking(sizes(self.allocations), alive_at(self.allocations, time))
    }

    /// The store is consistent: every allocation is whole, the timestamps
    /// are the set of all sampled times, and whatever is cached is what
    /// would be computed.
    pub open spec fn wf(self) -> bool {
        &&& forall|i: int|
            0 <= i < self.allocations.len() ==> (#[trigger] self.allocations[i]).wf()
        &&& is_timestamp_set(self.timestamps, self.allocations)
        &&& self.global_sorted_sizes matches Some(order) ==> {
            &&& order == self.size_ranking()
            &&& order.len() == self.allocations.len()
            &&& is_ranking(order, sizes(self.allocations), everyone(self.allocations.len()))
        }
        &&& self.peak_sorted_sizes matches Some(order) ==> {
            &&& order == self.peak_ranking()
            &&& order.len() == self.allocations.len()
            &&& is_ranking(order, peaks(self.allocations), everyone(self.allocations.len()))
        }
        &&& forall|t: u64| #[trigger]
            self.timestamp_sorted_sizes.contains_key(t) ==> {
                &&& self.timestamps.contains(t)
                &&& self.timestamp_sorted_sizes[t] == self.alive_ranking(t)
                &&& is_ranking(
                    self.timestamp_sorted_sizes[t],
                    sizes(self.allocations),
                    alive_at(self.allocations, t),
                )
            }
        &&& self.timeline matches Some(timeline) ==> timeline == timeline_of(
            self.allocations,
            self.timestamps,
        )
    }

    /// What [`MemSnap::global_topk`] answers.
    pub open spec fn global_topk(self, k: usize) -> Result<Seq<usize>, QueryError> {
        if k >= self.allocations.len() {
            Err(QueryError::OutOfBounds(k, self.allocations.len() as usize))
        } else {
            Ok(self.size_ranking().take(k as int))
        }
    }

    /// The store after [`MemSnap::global_topk`].
    pub open spec fn after_global_topk(self, k: usize) -> MemSnapView {
        if k >= self.allocations.len() {
            self
        } else {
            MemSnapView { global_sorted_sizes: Some(self.size_ranking()), ..self }
        }
    }

    /// What [`MemSnap::peak_topk`] answers.
    pub open spec fn peak_topk(self, k: usize) -> Result<Seq<usize>, QueryError> {
        if k >= self.allocations.len() {
            Err(QueryError::OutOfBounds(k, self.allocations.len() as usize))
        } else {
            Ok(self.peak_ranking().take(k as int))
        }
    }

    /// The store after [`MemSnap::peak_topk`].
    pub open spec fn after_peak_topk(self, k: usize) -> MemSnapView {
        if k >= self.allocations.len() {
            self
        } else {
            MemSnapView { peak_sorted_sizes: Some(self.peak_ranking()), ..self }
        }
    }

    /// What [`MemSnap::timestamp_topk`] answers: the first `k` of the
    /// allocations alive at the time the query snaps to, or all of them
    /// where fewer are alive.
    pub open spec fn timestamp_topk(self, timestamp: u64, k: usize) -> Result<
        Seq<usize>,
        QueryError,
    > {
        if k >= self.allocations.len() {
            Err(QueryError::OutOfBounds(k, self.allocations.len() as usize))
        } else {
            let order = self.alive_ranking(snap(self.timestamps, timestamp));
            if k <= order.len() {
                Ok(order.take(k as int))
            } else {
                Ok(order)
            }
        }
    }

    /// The store after [`MemSnap::timestamp_topk`].
    pub open spec fn after_timestamp_topk(self, timestamp: u64, k: usize) -> MemSnapView {
        if k >= self.allocations.len() {
            self
        } else {
            let time = snap(self.timestamps, timestamp);
            MemSnapView {
                timestamp_sorted_sizes: self.timestamp_sorted_sizes.insert(
                    time,
                    self.alive_ranking(time),
                ),
                ..self
            }
        }
    }

    /// The store after [`MemSnap::build_timeline`].
    pub open spec fn after_build_timeline(self) -> MemSnapView {
        MemSnapView { timeline: Some(timeline_of(self.allocations, self.timestamps)), ..self }
    }
}

// ---------------------------------------------------------------------------
// What holds across queries
// ---------------------------------------------------------------------------

/// What a ranking of all allocations by `keys` gives as its first `k`:
/// exactly `k` indices of the store, no index twice, every one before all
/// that it ranks before.
pub open spec fn is_top(top: Seq<usize>, keys: Seq<u64>, k: usize) -> bool {
    &&& top.len() == k
    &&& top.no_duplicates()
    &&& forall|a: int| 0 <= a < top.len() ==> (#[trigger] top[a]) < keys.len()
    &&& forall|a: int, b: int|
        0 <= a < b < top.len() ==> ranks_before(keys, #[trigger] top[a], #[trigger] top[b])
}

/// A query for the `k` largest allocations, or for the `k` with the highest
/// peak, gives exactly `k` indices of the store, largest first, and of two
/// equal ones the smaller index first.
pub proof fn lemma_topk_is_ranked(s: MemSnapView, k: usize)
    requires
        k < s.allocations.len() <= usize::MAX,
    ensures
        s.global_topk(k) matches Ok(top) && is_top(top, sizes(s.allocations), k),
        s.peak_topk(k) matches Ok(top) && is_top(top, peaks(s.allocations), k),
{
    let n = s.allocations.len();
    lemma_prefix_is_top(s.size_ranking(), sizes(s.allocations), k);
    lemma_prefix_is_top(s.peak_ranking(), peaks(s.allocations), k);
}

/// The first `k` of the ranking of all indices are ranked.
proof fn lemma_prefix_is_top(order: Seq<usize>, keys: Seq<u64>, k: usize)
    requires
        k < keys.len() <= usize::MAX,
        order == ranking(keys, everyone(keys.len())),
    ensures
        is_top(order.take(k as int), keys, k),
{
    lemma_ranking_exists(keys, everyone(keys.len()));
    lemma_ranking_of_everyone(order, keys);
    let top = order.take(k as int);
    assert forall|a: int| 0 <= a < top.len() implies (#[trigger] top[a]) < keys.len() by {
        assert(top[a] == order[a]);
    }
    assert forall|a: int, b: int| 0 <= a < b < top.len() implies ranks_before(
        keys,
        #[trigger] top[a],
        #[trigger] top[b],
    ) by {
        assert(top[a] == order[a] && top[b] == order[b]);
    }
    assert forall|a: int, b: int| 0 <= a < top.len() && 0 <= b < top.len() && a != b implies top[a]
        != top[b] by {
        assert(top[a] == order[a] && top[b] == order[b]);
    }
}

/// A query for the largest allocations alive at a time gives at most `k`
/// indices, all of allocations alive at the sampled time the query snaps
/// to, largest first, and of two equal ones the smaller index first.
pub proof fn lemma_timestamp_topk_is_ranked(s: MemSnapView, timestamp: u64, k: usize)
    requires
        k < s.allocations.len() <= usize::MAX,
    ensures
        s.timestamp_topk(timestamp, k) matches Ok(top) && top.len() <= k && (forall|a: int|
            0 <= a < top.len() ==> (#[trigger] top[a]) < s.allocations.len()
                && s.allocations[top[a] as int].is_alive_at(snap(s.timestamps, timestamp)))
            && (forall|a: int, b: int|
            0 <= a < b < top.len() ==> ranks_before(
                sizes(s.allocations),
                #[trigger] top[a],
                #[trigger] top[b],
            )),
{
    let time = snap(s.timestamps, timestamp);
    let keys = sizes(s.allocations);
    let alive = alive_at(s.allocations, time);
    lemma_ranking_exists(keys, alive);
    let order = s.alive_ranking(time);
    let top = s.timestamp_topk(timestamp, k).unwrap();
    assert forall|a: int| 0 <= a < top.len() implies (#[trigger] top[a]) < s.allocations.len()
        && s.allocations[top[a] as int].is_alive_at(time) by {
        assert(top[a] == order[a]);
        assert(alive[order[a] as int]);
    }
    assert forall|a: int, b: int| 0 <= a < b < top.len() implies ranks_before(
        keys,
        #[trigger] top[a],
        #[trigger] top[b],
    ) by {
        assert(top[a] == order[a] && top[b] == order[b]);
    }
}

/// Asking for the largest allocations twice gives the same answer twice,
/// and the second query leaves the store as the first left it: the ordering
/// that the first query cached is the one the second finds.
pub proof fn lemma_global_topk_twice(s: MemSnapView, k: usize)
    ensures
        s.after_global_topk(k).global_topk(k) == s.global_topk(k),
        s.after_global_topk(k).after_global_topk(k) == s.after_global_topk(k),
        k < s.allocations.len() ==> s.after_global_topk(k).global_sorted_sizes == Some(
            s.size_ranking(),
        ),
{
}

/// The same of the ordering by peak.
pub proof fn lemma_peak_topk_twice(s: MemSnapView, k: usize)
    ensures
        s.after_peak_topk(k).peak_topk(k) == s.peak_topk(k),
        s.after_peak_topk(k).after_peak_topk(k) == s.after_peak_topk(k),
        k < s.allocations.len() ==> s.after_peak_topk(k).peak_sorted_sizes == Some(
            s.peak_ranking(),
        ),
{
}

/// Two query times that snap to the same sampled time get the same answer,
/// before and after each other, and both queries together add one entry to
/// the cache: the one under the time they snap to.
pub proof fn lemma_snapped_queries_agree(s: MemSnapView, first: u64, second: u64, k: usize)
    requires
        snap(s.timestamps, first) == snap(s.timestamps, second),
    ensures
        s.timestamp_topk(first, k) == s.timestamp_topk(second, k),
        s.after_timestamp_topk(first, k).timestamp_topk(second, k) == s.timestamp_topk(first, k),
        s.after_timestamp_topk(first, k).after_timestamp_topk(second, k) == s.after_timestamp_topk(
            first,
            k,
        ),
        k < s.allocations.len() ==> s.after_timestamp_topk(first, k).after_timestamp_topk(
            second,
            k,
        ).timestamp_sorted_sizes.dom() == s.timestamp_sorted_sizes.dom().insert(
            snap(s.timestamps, first),
        ),
{
    let once = s.after_timestamp_topk(first, k);
    let twice = once.after_timestamp_topk(second, k);
    assert(twice.timestamp_sorted_sizes =~= once.timestamp_sorted_sizes);
    if k < s.allocations.len() {
        assert(twice.timestamp_sorted_sizes.dom() =~= s.timestamp_sorted_sizes.dom().insert(
            snap(s.timestamps, first),
        ));
    }
}

/// A query whose ordering is already cached leaves a consistent store as it
/// was: there is nothing for it to compute or to keep.
pub proof fn lemma_cached_query_changes_nothing(s: MemSnapView, timestamp: u64, k: usize)
    requires
        s.wf(),
    ensures
        s.global_sorted_sizes is Some ==> s.after_global_topk(k) == s,
        s.peak_sorted_sizes is Some ==> s.after_peak_topk(k) == s,
        s.timestamp_sorted_sizes.contains_key(snap(s.timestamps, timestamp))
            ==> s.after_timestamp_topk(timestamp, k) == s,
        s.timeline is Some ==> s.after_build_timeline() == s,
{
    let time = snap(s.timestamps, timestamp);
    if s.timestamp_sorted_sizes.contains_key(time) {
        assert(s.timestamp_sorted_sizes.insert(time, s.alive_ranking(time))
            =~= s.timestamp_sorted_sizes);
    }
}

/// A query that is refused leaves the store as it was.
pub proof fn lemma_refused_query_changes_nothing(s: MemSnapView, timestamp: u64, k: usize)
    requires
        k >= s.allocations.len(),
    ensures
        s.global_topk(k) is Err,
        s.peak_topk(k) is Err,
        s.timestamp_topk(timestamp, k) is Err,
        s.after_global_topk(k) == s,
        s.after_peak_topk(k) == s,
        s.after_timestamp_topk(timestamp, k) == s,
{
}

/// The sampled times are exactly the times of the samples: every sample's
/// time is among them, and each of them is the time of some sample.
pub proof fn lemma_all_times(allocations: Seq<AllocationView>)
    ensures
        forall|x: int, i: int|
            0 <= x < allocations.len() && 0 <= i < allocations[x].timesteps.len() ==> all_times(
                allocations,
            ).contains(#[trigger] allocations[x].timesteps[i]),
        forall|t: u64|
            all_times(allocations).contains(t) ==> exists|x: int, i: int|
                0 <= x < allocations.len() && 0 <= i < allocations[x].timesteps.len()
                    && #[trigger] allocations[x].timesteps[i] == t,
    decreases allocations.len(),
{
    if allocations.len() > 0 {
        let before = allocations.drop_last();
        let last = allocations.last();
        let n = allocations.len() - 1;
        lemma_all_times(before);
        let all = all_times(allocations);
        assert forall|x: int, i: int|
            0 <= x < allocations.len() && 0 <= i < allocations[x].timesteps.len() implies all.contains(
            #[trigger] allocations[x].timesteps[i],
        ) by {
            let t = allocations[x].timesteps[i];
            if x < n {
                assert(before[x] == allocations[x]);
                assert(all_times(before).contains(before[x].timesteps[i]));
                let k = choose|k: int|
                    0 <= k < all_times(before).len() && all_times(before)[k] == t;
                assert(all[k] == t);
            } else {
                assert(all[all_times(before).len() + i] == t);
            }
        }
        assert forall|t: u64| all.contains(t) implies exists|x: int, i: int|
            0 <= x < allocations.len() && 0 <= i < allocations[x].timesteps.len()
                && #[trigger] allocations[x].timesteps[i] == t by {
            let k = choose|k: int| 0 <= k < all.len() && all[k] == t;
            if k < all_times(before).len() {
                assert(all_times(before)[k] == t);
                assert(all_times(before).contains(t));
                let (x, i) = choose|x: int, i: int|
                    0 <= x < before.len() && 0 <= i < before[x].timesteps.len()
                        && #[trigger] before[x].timesteps[i] == t;
                assert(allocations[x].timesteps[i] == t);
            } else {
                let i = k - all_times(before).len();
                assert(allocations[n].timesteps[i] == t);
            }
        }
    }
}

/// The highest byte an allocation reaches at a time is no lower than any of
/// its samples taken at that time, and is the height of one of them if
/// there is any.
pub proof fn lemma_reach_at(a: AllocationView, time: u64, n: nat)
    requires
        n <= a.timesteps.len(),
    ensures
        forall|i: int|
            0 <= i < n && #[trigger] a.timesteps[i] == time ==> a.offsets[i] + a.size <= reach_at(
                a,
                time,
                n,
            ),
        reach_at(a, time, n) == 0 || exists|i: int|
            0 <= i < n && #[trigger] a.timesteps[i] == time && a.offsets[i] + a.size == reach_at(
                a,
                time,
                n,
            ),
    decreases n,
{
    if n > 0 {
        let m = (n - 1) as nat;
        lemma_reach_at(a, time, m);
        if reach_at(a, time, n) != 0 {
            if a.timesteps[m as int] == time && a.offsets[m as int] + a.size == reach_at(
                a,
                time,
                n,
            ) {
            } else {
                let i = choose|i: int|
                    0 <= i < m && #[trigger] a.timesteps[i] == time && a.offsets[i] + a.size
                        == reach_at(a, time, m);
                assert(a.timesteps[i] == time && a.offsets[i] + a.size == reach_at(a, time, n));
            }
        }
    }
}

/// The memory occupied at a time is no lower than any sample taken at that
/// time, and is the height of one of them if there is any: it is their
/// maximum.
pub proof fn lemma_occupied_at(allocations: Seq<AllocationView>, time: u64)
    ensures
        forall|x: int, i: int|
            0 <= x < allocations.len() && 0 <= i < allocations[x].timesteps.len()
                && #[trigger] allocations[x].timesteps[i] == time ==> allocations[x].offsets[i]
                + allocations[x].size <= occupied_at(allocations, time),
        occupied_at(allocations, time) == 0 || exists|x: int, i: int|
            0 <= x < allocations.len() && 0 <= i < allocations[x].timesteps.len()
                && #[trigger] allocations[x].timesteps[i] == time && allocations[x].offsets[i]
                + allocations[x].size == occupied_at(allocations, time),
    decreases allocations.len(),
{
    if allocations.len() > 0 {
        let before = allocations.drop_last();
        let last = allocations.last();
        let n = allocations.len() - 1;
        lemma_occupied_at(before, time);
        lemma_reach_at(last, time, last.timesteps.len());
        assert forall|x: int, i: int|
            0 <= x < allocations.len() && 0 <= i < allocations[x].timesteps.len()
                && #[trigger] allocations[x].timesteps[i] == time implies allocations[x].offsets[i]
            + allocations[x].size <= occupied_at(allocations, time) by {
            if x < n {
                assert(before[x] == allocations[x]);
                assert(before[x].timesteps[i] == time);
            }
        }
        if occupied_at(allocations, time) != 0 {
            if occupied_at(allocations, time) == reach_at(last, time, last.timesteps.len()) {
                let i = choose|i: int|
                    0 <= i < last.timesteps.len() && #[trigger] last.timesteps[i] == time
                        && last.offsets[i] + last.size == reach_at(
                        last,
                        time,
                        last.timesteps.len(),
                    );
                assert(allocations[n].timesteps[i] == time && allocations[n].offsets[i]
                    + allocations[n].size == occupied_at(allocations, time));
            } else {
                let (x, i) = choose|x: int, i: int|
                    0 <= x < before.len() && 0 <= i < before[x].timesteps.len()
                        && #[trigger] before[x].timesteps[i] == time && before[x].offsets[i]
                        + before[x].size == occupied_at(before, time);
                assert(allocations[x].timesteps[i] == time && allocations[x].offsets[i]
                    + allocations[x].size == occupied_at(allocations, time));
            }
        }
    }
}

/// In a sorted set of times only one place is the place a query snaps to.
pub proof fn lemma_snap_index_unique(timestamps: Seq<u64>, time: u64, i: int, j: int)
    requires
        is_snap_index(timestamps, time, i),
        is_snap_index(timestamps, time, j),
    ensures
        i == j,
        snap(timestamps, time) == timestamps[i],
{
    let c = choose|c: int| is_snap_index(timestamps, time, c);
    assert(is_snap_index(timestamps, time, c));
    lemma_snap_index_same(timestamps, time, i, j);
    lemma_snap_index_same(timestamps, time, i, c);
}

/// Two places that a query snaps to are one place.
proof fn lemma_snap_index_same(timestamps: Seq<u64>, time: u64, i: int, j: int)
    requires
        is_snap_index(timestamps, time, i),
        is_snap_index(timestamps, time, j),
    ensures
        i == j,
{
    if i < j {
        assert(timestamps[i] < time);
    } else if j < i {
        assert(timestamps[j] < time);
    }
}

/// A query time that is itself a sampled time snaps to itself; one at or
/// before the first sampled time snaps to the first; one after the last
/// snaps to the last.
pub proof fn lemma_snap_cases(timestamps: Seq<u64>, time: u64)
    requires
        strictly_sorted(timestamps),
        timestamps.len() >= 1,
    ensures
        timestamps.contains(time) ==> snap(timestamps, time) == time,
        time <= timestamps[0] ==> snap(timestamps, time) == timestamps[0],
        time > timestamps.last() ==> snap(timestamps, time) == timestamps.last(),
        timestamps.contains(snap(timestamps, time)),
{
    let last = timestamps.len() - 1;
    if timestamps.contains(time) {
        let p = choose|p: int| 0 <= p < timestamps.len() && timestamps[p] == time;
        assert forall|j: int| 0 <= j < p implies timestamps[j] < time by {
            assert(timestamps[j].precedes(timestamps[p]));
        }
        lemma_snap_index_unique(timestamps, time, p, p);
    }
    if time <= timestamps[0] {
        lemma_snap_index_unique(timestamps, time, 0, 0);
    }
    if time > timestamps.last() {
        assert forall|j: int| 0 <= j < last implies timestamps[j] < time by {
            assert(timestamps[j].precedes(timestamps[last]));
        }
        lemma_snap_index_unique(timestamps, time, last, last);
    }
    lemma_snap_exists(timestamps, time, last);
    let c = choose|c: int| is_snap_index(timestamps, time, c);
    assert(timestamps[c] == snap(timestamps, time));
}

/// Some place is the place a query snaps to.
proof fn lemma_snap_exists(timestamps: Seq<u64>, time: u64, n: int)
    requires
        strictly_sorted(timestamps),
        0 <= n < timestamps.len(),
        n < timestamps.len() - 1 ==> timestamps[n] >= time,
    ensures
        exists|i: int| is_snap_index(timestamps, time, i),
    decreases n,
{
    if n == 0 {
        assert(is_snap_index(timestamps, time, 0));
    } else if timestamps[n - 1] >= time {
        lemma_snap_exists(timestamps, time, n - 1);
    } else {
        assert forall|j: int| 0 <= j < n implies timestamps[j] < time by {
            if j < n - 1 {
                assert(timestamps[j].precedes(timestamps[n - 1]));
            }
        }
        assert(is_snap_index(timestamps, time, n));
    }
}

// ---------------------------------------------------------------------------
// Computing
// ---------------------------------------------------------------------------

/// The place that `time` snaps to, by binary search.
pub fn snap_index(timestamps: &Vec<u64>, time: u64) -> (i: usize)
    requires
        strictly_sorted(timestamps@),
        timestamps@.len() >= 1,
    ensures
        is_snap_index(timestamps@, time, i as int),
        timestamps@[i as int] == snap(timestamps@, time),
{
    let mut lo: usize = 0;
    let mut hi: usize = timestamps.len() - 1;
    while lo < hi
        invariant
            strictly_sorted(timestamps@),
            lo <= hi < timestamps@.len(),
            forall|j: int| 0 <= j < lo ==> timestamps@[j] < time,
            timestamps@[hi as int] >= time || hi == timestamps@.len() - 1,
        decreases hi - lo,
    {
        let mid: usize = lo + (hi - lo) / 2;
        if timestamps[mid] < time {
            proof {
                assert forall|j: int| 0 <= j < mid + 1 implies timestamps@[j] < time by {
                    if j < mid {
                        assert(timestamps@[j].precedes(timestamps@[mid as int]));
                    }
                }
            }
            lo = mid + 1;
        } else {
            hi = mid;
        }
    }
    proof {
        lemma_snap_index_unique(timestamps@, time, lo as int, lo as int);
    }
    lo
}

/// The first `k` entries of an ordering.
fn prefix(order: &Vec<usize>, k: usize) -> (top: Vec<usize>)
    requires
        k <= order@.len(),
    ensures
        top@ == order@.take(k as int),
{
    let mut top: Vec<usize> = Vec::new();
    let mut a: usize = 0;
    while a < k
        invariant
            a <= k <= order@.len(),
            top@ == order@.take(a as int),
        decreases k - a,
    {
        top.push(order[a]);
        proof {
            assert(order@.take(a as int).push(order@[a as int]) =~= order@.take(a + 1));
        }
        a = a + 1;
    }
    top
}

/// The set of all sampled times, in ascending order.
fn gather_timestamps(allocations: &Vec<Allocation>) -> (timestamps: Vec<u64>)
    ensures
        is_timestamp_set(timestamps@, allocations.deep_view()),
{
    let ghost model = allocations.deep_view();
    let mut all: Vec<u64> = Vec::new();
    let mut x: usize = 0;
    while x < allocations.len()
        invariant
            x <= allocations@.len(),
            model == allocations.deep_view(),
            all@ == all_times(model.take(x as int)),
        decreases allocations@.len() - x,
    {
        let a = &allocations[x];
        let ghost done = all@;
        let mut i: usize = 0;
        while i < a.timesteps.len()
            invariant
                i <= a.timesteps@.len(),
                all@ == done + a.timesteps@.take(i as int),
            decreases a.timesteps@.len() - i,
        {
            all.push(a.timesteps[i]);
            proof {
                assert(a.timesteps@.take(i as int).push(a.timesteps@[i as int])
                    =~= a.timesteps@.take(i + 1));
            }
            i = i + 1;
        }
        proof {
            let now = model.take(x + 1);
            assert(a.timesteps@.take(i as int) =~= a.timesteps@);
            assert(now.drop_last() =~= model.take(x as int));
            assert(now.last().timesteps == a.timesteps@);
        }
        x = x + 1;
    }
    proof {
        assert(model.take(x as int) =~= model);
    }
    sort(&all)
}

/// The keys to rank by size.
fn size_keys(allocations: &Vec<Allocation>) -> (keys: Vec<u64>)
    ensures
        keys@ == sizes(allocations.deep_view()),
{
    let mut keys: Vec<u64> = Vec::new();
    let mut x: usize = 0;
    while x < allocations.len()
        invariant
            x <= allocations@.len(),
            keys@.len() == x,
            forall|j: int| 0 <= j < x ==> keys@[j] == allocations@[j].size,
        decreases allocations@.len() - x,
    {
        keys.push(allocations[x].size);
        x = x + 1;
    }
    proof {
        assert(keys@ =~= sizes(allocations.deep_view()));
    }
    keys
}

/// The keys to rank by peak.
fn peak_keys(allocations: &Vec<Allocation>) -> (keys: Vec<u64>)
    ensures
        keys@ == peaks(allocations.deep_view()),
{
    let mut keys: Vec<u64> = Vec::new();
    let mut x: usize = 0;
    while x < allocations.len()
        invariant
            x <= allocations@.len(),
            keys@.len() == x,
            forall|j: int| 0 <= j < x ==> keys@[j] == allocations@[j].peak_mem,
        decreases allocations@.len() - x,
    {
        keys.push(allocations[x].peak_mem);
        x = x + 1;
    }
    proof {
        assert(keys@ =~= peaks(allocations.deep_view()));
    }
    keys
}

/// Flags that make every allocation eligible.
fn all_eligible(n: usize) -> (flags: Vec<bool>)
    ensures
        flags@ == everyone(n as nat),
{
    let mut flags: Vec<bool> = Vec::new();
    let mut x: usize = 0;
    while x < n
        invariant
            x <= n,
            flags@.len() == x,
            forall|j: int| 0 <= j < x ==> flags@[j],
        decreases n - x,
    {
        flags.push(true);
        x = x + 1;
    }
    proof {
        assert(flags@ =~= everyone(n as nat));
    }
    flags
}

/// For each allocation, whether it is alive at `time`.
fn alive_flags(allocations: &Vec<Allocation>, time: u64) -> (flags: Vec<bool>)
    requires
        forall|i: int| 0 <= i < allocations@.len() ==> (#[trigger] allocations@[i])@.wf(),
    ensures
        flags@ == alive_at(allocations.deep_view(), time),
{
    let mut flags: Vec<bool> = Vec::new();
    let mut x: usize = 0;
    while x < allocations.len()
        invariant
            x <= allocations@.len(),
            flags@.len() == x,
            forall|i: int| 0 <= i < allocations@.len() ==> (#[trigger] allocations@[i])@.wf(),
            forall|j: int| 0 <= j < x ==> flags@[j] == allocations@[j]@.is_alive_at(time),
        decreases allocations@.len() - x,
    {
        assert(allocations@[x as int]@.wf());
        flags.push(allocations[x].is_alive_at(time));
        x = x + 1;
    }
    proof {
        assert(flags@ =~= alive_at(allocations.deep_view(), time));
    }
    flags
}

/// The timeline: one scan over every sample of every allocation.
fn compute_timeline(allocations: &Vec<Allocation>, timestamps: &Vec<u64>) -> (timeline: Timeline)
    requires
        forall|i: int| 0 <= i < allocations@.len() ==> (#[trigger] allocations@[i])@.wf(),
        is_timestamp_set(timestamps@, allocations.deep_view()),
    ensures
        timeline@ == timeline_of(allocations.deep_view(), timestamps@),
{
    let ghost model = allocations.deep_view();
    let n = timestamps.len();
    let mut values: Vec<u64> = Vec::new();
    let mut j: usize = 0;
    while j < n
        invariant
            j <= n,
            values@.len() == j,
            forall|q: int| 0 <= q < j ==> values@[q] == 0,
        decreases n - j,
    {
        values.push(0);
        j = j + 1;
    }
    let mut top: u64 = 0;
    let mut x: usize = 0;
    proof {
        lemma_all_times(model);
        lemma_sorted_no_duplicates(timestamps@);
    }
    while x < allocations.len()
        invariant
            x <= allocations@.len(),
            n == timestamps@.len(),
            model == allocations.deep_view(),
            forall|i: int| 0 <= i < allocations@.len() ==> (#[trigger] allocations@[i])@.wf(),
            is_timestamp_set(timestamps@, model),
            timestamps@.no_duplicates(),
            forall|y: int, i: int|
                0 <= y < model.len() && 0 <= i < model[y].timesteps.len() ==> all_times(
                    model,
                ).contains(#[trigger] model[y].timesteps[i]),
            values@.len() == n,
            forall|q: int|
                0 <= q < n ==> #[trigger] values@[q] == occupied_at(
                    model.take(x as int),
                    timestamps@[q],
                ),
            top == highest(model.take(x as int)),
        decreases allocations@.len() - x,
    {
        let a = &allocations[x];
        let ghost av = model[x as int];
        let ghost before = model.take(x as int);
        proof {
            assert(allocations@[x as int]@.wf());
            assert(av == a@);
            lemma_max_offset(av.offsets);
        }
        let mut i: usize = 0;
        while i < a.timesteps.len()
            invariant
                i <= a.timesteps@.len(),
                n == timestamps@.len(),
                av == a@,
                av.wf(),
                av == model[x as int],
                0 <= x < model.len(),
                forall|p: int| 0 <= p < av.offsets.len() ==> av.offsets[p] <= max_offset(av.offsets),
                is_timestamp_set(timestamps@, model),
                timestamps@.no_duplicates(),
                forall|y: int, p: int|
                    0 <= y < model.len() && 0 <= p < model[y].timesteps.len() ==> all_times(
                        model,
                    ).contains(#[trigger] model[y].timesteps[p]),
                values@.len() == n,
                forall|q: int|
                    0 <= q < n ==> #[trigger] values@[q] == larger(
                        occupied_at(before, timestamps@[q]),
                        reach_at(av, timestamps@[q], i as nat),
                    ),
                top == larger(highest(before), reach(av, i as nat)),
            decreases a.timesteps@.len() - i,
        {
            let time = a.timesteps[i];
            let mem: u64 = a.offsets[i] + a.size;
            proof {
                assert(all_times(model).contains(model[x as int].timesteps[i as int]));
                assert(timestamps@.contains(time));
                lemma_snap_cases(timestamps@, time);
            }
            let at = snap_index(timestamps, time);
            let ghost old_values = values@;
            if mem > values[at] {
                values.set(at, mem);
            }
            if mem > top {
                top = mem;
            }
            proof {
                assert forall|q: int| 0 <= q < n implies #[trigger] values@[q] == larger(
                    occupied_at(before, timestamps@[q]),
                    reach_at(av, timestamps@[q], (i + 1) as nat),
                ) by {
                    assert(old_values[q] == larger(
                        occupied_at(before, timestamps@[q]),
                        reach_at(av, timestamps@[q], i as nat),
                    ));
                    if q != at {
                        assert(timestamps@[q] != timestamps@[at as int]);
                    }
                }
            }
            i = i + 1;
        }
        proof {
            let now = model.take(x + 1);
            assert(now.drop_last() =~= before);
            assert(now.last() == av);
        }
        x = x + 1;
    }
    proof {
        assert(model.take(x as int) =~= model);
    }
    let mut curve: Vec<(u64, u64)> = Vec::new();
    let mut q: usize = 0;
    while q < n
        invariant
            q <= n,
            n == timestamps@.len(),
            values@.len() == n,
            curve@.len() == q,
            forall|p: int| 0 <= p < q ==> #[trigger] curve@[p] == (timestamps@[p], values@[p]),
        decreases n - q,
    {
        curve.push((timestamps[q], values[q]));
        q = q + 1;
    }
    let max_time: u64 = if n == 0 {
        0
    } else {
        timestamps[n - 1]
    };
    let timeline = Timeline { timeline: curve, max_time, max_alloc: top };
    proof {
        assert(timeline@.timeline =~= timeline_of(model, timestamps@).timeline);
    }
    timeline
}

// ---------------------------------------------------------------------------
// The store
// ---------------------------------------------------------------------------

/// The allocations of one capture, with what has been computed of them.
/// Nothing is added to or removed from a store once it is made; queries fill
/// its caches.
pub struct MemSnap {
    allocations: Vec<Allocation>,
    timestamps: Vec<u64>,
    global_sorted_sizes: Option<Vec<AllocationIndex>>,
    timestamp_sorted_sizes: BTreeMap<u64, Vec<AllocationIndex>>,
    peak_sorted_sizes: Option<Vec<AllocationIndex>>,
    timeline: Option<Timeline>,
}

/// The model of an ordering that may not have been computed yet.
pub open spec fn cached(order: Option<Vec<usize>>) -> Option<Seq<usize>> {
    match order {
        Some(v) => Some(v@),
        None => None,
    }
}

impl View for MemSnap {
    type V = MemSnapView;

    closed spec fn view(&self) -> MemSnapView {
        MemSnapView {
            allocations: self.allocations.deep_view(),
            timestamps: self.timestamps@,
            global_sorted_sizes: cached(self.global_sorted_sizes),
            peak_sorted_sizes: cached(self.peak_sorted_sizes),
            timestamp_sorted_sizes: self.timestamp_sorted_sizes@.map_values(|v: Vec<usize>| v@),
            timeline: match self.timeline {
                Some(t) => Some(t@),
                None => None,
            },
        }
    }
}

impl MemSnap {
    #[verifier::type_invariant]
    spec fn consistent(self) -> bool {
        self@.wf()
    }

    /// A store of the given allocations, with nothing computed yet but the
    /// set of sampled times.
    pub fn new(allocations: Vec<Allocation>) -> (store: MemSnap)
        requires
            forall|i: int| 0 <= i < allocations@.len() ==> (#[trigger] allocations@[i])@.wf(),
        ensures
            store@.wf(),
            store@.allocations == allocations.deep_view(),
            store@.global_sorted_sizes is None,
            store@.peak_sorted_sizes is None,
            store@.timestamp_sorted_sizes == Map::<u64, Seq<usize>>::empty(),
            store@.timeline is None,
    {
        let timestamps = gather_timestamps(&allocations);
        let store = MemSnap {
            allocations,
            timestamps,
            global_sorted_sizes: None,
            timestamp_sorted_sizes: BTreeMap::new(),
            peak_sorted_sizes: None,
            timeline: None,
        };
        proof {
            assert(store@.timestamp_sorted_sizes =~= Map::<u64, Seq<usize>>::empty());
        }
        store
    }

    /// The allocations, in the order they were given.
    pub fn allocations(&self) -> (allocations: &Vec<Allocation>)
        ensures
            allocations.deep_view() == self@.allocations,
            forall|i: int| 0 <= i < allocations@.len() ==> (#[trigger] allocations@[i])@.wf(),
    {
        proof {
            use_type_invariant(self);
            assert forall|i: int| 0 <= i < self.allocations@.len() implies (
            #[trigger] self.allocations@[i])@.wf() by {
                assert(self@.allocations[i].wf());
            }
        }
        &self.allocations
    }

    /// The set of all sampled times, in ascending order.
    pub fn timestamps(&self) -> (timestamps: &Vec<u64>)
        ensures
            timestamps@ == self@.timestamps,
    {
        &self.timestamps
    }

    /// The number of allocations.
    pub fn len(&self) -> (n: usize)
        ensures
            n == self@.allocations.len(),
            self@.wf(),
    {
        proof {
            use_type_invariant(self);
        }
        self.allocations.len()
    }

    /// The indices of the `k` largest allocations, largest first, and of
    /// two of the same size the one with the smaller index first.
    ///
    /// `k` must be below the number of allocations; otherwise the query is
    /// refused and the store stays as it was. The first query that is
    /// answered ranks all allocations and keeps the ranking.
    pub fn global_topk(&mut self, k: usize) -> (r: Result<Vec<AllocationIndex>, QueryError>)
        ensures
            final(self)@ == old(self)@.after_global_topk(k),
            final(self)@.wf(),
            match r {
                Ok(top) => old(self)@.global_topk(k) == Ok::<Seq<usize>, QueryError>(top@),
                Err(e) => old(self)@.global_topk(k) == Err::<Seq<usize>, QueryError>(e),
            },
            r matches Ok(top) ==> is_top(top@, sizes(old(self)@.allocations), k),
    {
        proof {
            use_type_invariant(&*self);
        }
        let n = self.allocations.len();
        if k >= n {
            return Err(QueryError::OutOfBounds(k, n));
        }
        proof {
            lemma_topk_is_ranked(self@, k);
        }
        let top = match &self.global_sorted_sizes {
            Some(order) => prefix(order, k),
            None => {
                let keys = size_keys(&self.allocations);
                let flags = all_eligible(n);
                let order = rank(&keys, &flags);
                let top = prefix(&order, k);
                self.global_sorted_sizes = Some(order);
                top
            },
        };
        proof {
            use_type_invariant(&*self);
        }
        Ok(top)
    }

    /// The indices of the `k` allocations with the highest peak, highest
    /// first, and of two with the same peak the one with the smaller index
    /// first.
    ///
    /// `k` must be below the number of allocations; otherwise the query is
    /// refused and the store stays as it was. The first query that is
    /// answered ranks all allocations and keeps the ranking.
    pub fn peak_topk(&mut self, k: usize) -> (r: Result<Vec<AllocationIndex>, QueryError>)
        ensures
            final(self)@ == old(self)@.after_peak_topk(k),
            final(self)@.wf(),
            match r {
                Ok(top) => old(self)@.peak_topk(k) == Ok::<Seq<usize>, QueryError>(top@),
                Err(e) => old(self)@.peak_topk(k) == Err::<Seq<usize>, QueryError>(e),
            },
            r matches Ok(top) ==> is_top(top@, peaks(old(self)@.allocations), k),
    {
        proof {
            use_type_invariant(&*self);
        }
        let n = self.allocations.len();
        if k >= n {
            return Err(QueryError::OutOfBounds(k, n));
        }
        proof {
            lemma_topk_is_ranked(self@, k);
        }
        let top = match &self.peak_sorted_sizes {
            Some(order) => prefix(order, k),
            None => {
                let keys = peak_keys(&self.allocations);
                let flags = all_eligible(n);
                let order = rank(&keys, &flags);
                let top = prefix(&order, k);
                self.peak_sorted_sizes = Some(order);
                top
            },
        };
        proof {
            use_type_invariant(&*self);
        }
        Ok(top)
    }

    /// The indices of the largest allocations alive at a time: at most `k`
    /// of them, largest first, and of two of the same size the one with the
    /// smaller index first.
    ///
    /// The query time snaps to a sampled time: the next one at or after it,
    /// or the last one where the query is later than all. An allocation is
    /// alive from its first sampled time to its last, both included. Fewer
    /// than `k` indices come back where fewer allocations are alive.
    ///
    /// `k` must be below the number of allocations; otherwise the query is
    /// refused and the store stays as it was. The first query that snaps to
    /// a sampled time ranks the allocations alive at it and keeps the
    /// ranking under that time.
    pub fn timestamp_topk(&mut self, timestamp: u64, k: usize) -> (r: Result<
        Vec<AllocationIndex>,
        QueryError,
    >)
        ensures
            final(self)@ == old(self)@.after_timestamp_topk(timestamp, k),
            final(self)@.wf(),
            match r {
                Ok(top) => old(self)@.timestamp_topk(timestamp, k) == Ok::<Seq<usize>, QueryError>(
                    top@,
                ),
                Err(e) => old(self)@.timestamp_topk(timestamp, k) == Err::<Seq<usize>, QueryError>(
                    e,
                ),
            },
            r matches Ok(top) ==> {
                let time = snap(old(self)@.timestamps, timestamp);
                &&& old(self)@.timestamps.contains(time)
                &&& top@.len() <= k
                &&& forall|a: int|
                    0 <= a < top@.len() ==> (#[trigger] top@[a]) < old(self)@.allocations.len()
                        && old(self)@.allocations[top@[a] as int].is_alive_at(time)
                &&& forall|a: int, b: int|
                    0 <= a < b < top@.len() ==> ranks_before(
                        sizes(old(self)@.allocations),
                        #[trigger] top@[a],
                        #[trigger] top@[b],
                    )
            },
    {
        proof {
            use_type_invariant(&*self);
        }
        let n = self.allocations.len();
        if k >= n {
            return Err(QueryError::OutOfBounds(k, n));
        }
        proof {
            let model = self@.allocations;
            lemma_all_times(model);
            assert(model[0].wf());
            assert(all_times(model).contains(model[0].timesteps[0]));
            assert(self.timestamps@.contains(model[0].timesteps[0]));
        }
        let at = snap_index(&self.timestamps, timestamp);
        let time = self.timestamps[at];
        let ghost before = self@;
        let ghost fresh = before.alive_ranking(time);
        let top = match self.timestamp_sorted_sizes.get(&time) {
            Some(order) => {
                let m: usize = if k <= order.len() {
                    k
                } else {
                    order.len()
                };
                proof {
                    assert(before.timestamp_sorted_sizes.contains_key(time));
                    assert(before.timestamp_sorted_sizes[time] == order@);
                    assert(before.timestamp_sorted_sizes.insert(time, fresh)
                        =~= before.timestamp_sorted_sizes);
                    assert(order@.take(order@.len() as int) =~= order@);
                }
                prefix(order, m)
            },
            None => {
                proof {
                    assert forall|i: int| 0 <= i < self.allocations@.len() implies (
                    #[trigger] self.allocations@[i])@.wf() by {
                        assert(self@.allocations[i].wf());
                    }
                }
                let keys = size_keys(&self.allocations);
                let flags = alive_flags(&self.allocations, time);
                let order = rank(&keys, &flags);
                let m: usize = if k <= order.len() {
                    k
                } else {
                    order.len()
                };
                let top = prefix(&order, m);
                let ghost ranked = order@;
                let mut cache: BTreeMap<u64, Vec<AllocationIndex>> = BTreeMap::new();
                proof {
                    assert(cache@.map_values(|v: Vec<usize>| v@) =~= Map::<
                        u64,
                        Seq<usize>,
                    >::empty());
                    assert(order@.take(order@.len() as int) =~= order@);
                }
                core::mem::swap(&mut cache, &mut self.timestamp_sorted_sizes);
                cache.insert(time, order);
                proof {
                    assert(cache@.map_values(|v: Vec<usize>| v@)
                        =~= before.timestamp_sorted_sizes.insert(time, ranked));
                    assert(self.timestamps@[at as int] == time);
                }
                self.timestamp_sorted_sizes = cache;
                top
            },
        };
        proof {
            use_type_invariant(&*self);
        }
        Ok(top)
    }

    /// Computes the timeline, unless it has been computed before.
    pub fn build_timeline(&mut self)
        ensures
            final(self)@ == old(self)@.after_build_timeline(),
            final(self)@.wf(),
    {
        proof {
            use_type_invariant(&*self);
        }
        if self.timeline.is_none() {
            proof {
                assert forall|i: int| 0 <= i < self.allocations@.len() implies (
                #[trigger] self.allocations@[i])@.wf() by {
                    assert(self@.allocations[i].wf());
                }
            }
            let timeline = compute_timeline(&self.allocations, &self.timestamps);
            self.timeline = Some(timeline);
        }
        proof {
            use_type_invariant(&*self);
        }
    }

    /// The memory occupied at each sampled time, in ascending order of
    /// time. Computes the timeline first, unless it has been computed
    /// before.
    pub fn timeline(&mut self) -> (curve: Vec<(u64, u64)>)
        ensures
            final(self)@ == old(self)@.after_build_timeline(),
            final(self)@.wf(),
            curve@ == timeline_of(old(self)@.allocations, old(self)@.timestamps).timeline,
    {
        self.build_timeline();
        let mut curve: Vec<(u64, u64)> = Vec::new();
        match &self.timeline {
            Some(timeline) => {
                let mut q: usize = 0;
                while q < timeline.timeline.len()
                    invariant
                        q <= timeline.timeline@.len(),
                        curve@ == timeline.timeline@.take(q as int),
                    decreases timeline.timeline@.len() - q,
                {
                    curve.push(timeline.timeline[q]);
                    proof {
                        assert(timeline.timeline@.take(q as int).push(timeline.timeline@[q as int])
                            =~= timeline.timeline@.take(q + 1));
                    }
                    q = q + 1;
                }
                proof {
                    assert(timeline.timeline@.take(q as int) =~= timeline.timeline@);
                }
            },
            None => {},
        }
        curve
    }

    /// The latest sampled time and the highest byte ever reached, both 0
    /// for a store without samples. Computes the timeline first, unless it
    /// has been computed before.
    pub fn timeline_bounds(&mut self) -> (bounds: (u64, u64))
        ensures
            final(self)@ == old(self)@.after_build_timeline(),
            final(self)@.wf(),
            bounds.0 == timeline_of(old(self)@.allocations, old(self)@.timestamps).max_time,
            bounds.1 == timeline_of(old(self)@.allocations, old(self)@.timestamps).max_alloc,
    {
        self.build_timeline();
        match &self.timeline {
            Some(timeline) => (timeline.max_time, timeline.max_alloc),
            None => (0, 0),
        }
    }
}

} // verus!
