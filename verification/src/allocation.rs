//! The record of one allocation's lifetime, and what holds of it.
use vstd::prelude::*;

verus! {

/// One entry of a call stack, outermost first in a stack.
#[derive(Debug, Clone, PartialEq, Eq)]
pub struct Frame {
    pub name: String,
    pub filename: String,
    pub line: u32,
}

/// The model of a [`Frame`].
pub struct FrameView {
    pub name: Seq<char>,
    pub filename: Seq<char>,
    pub line: u32,
}

impl View for Frame {
    type V = FrameView;

    open spec fn view(&self) -> FrameView {
        FrameView { name: self.name@, filename: self.filename@, line: self.line }
    }
}

impl DeepView for Frame {
    type V = FrameView;

    open spec fn deep_view(&self) -> FrameView {
        self@
    }
}

/// One allocation: where it lay at each sampled time, how large it was, who
/// made it, and how high it reached.
#[derive(Debug, Clone, PartialEq, Eq)]
pub struct Allocation {
    /// The sampled times, in the order they were taken.
    pub timesteps: Vec<u64>,
    /// The allocation's offset at each sampled time.
    pub offsets: Vec<u64>,
    /// The allocation's extent in bytes.
    pub size: u64,
    /// The call stack that made the allocation.
    pub callstack: Vec<Frame>,
    /// The highest byte the allocation ever reached: its largest offset
    /// plus its size.
    pub peak_mem: u64,
    /// The sampled times at which it was at its largest offset.
    pub peak_timestamps: Vec<u64>,
}

/// The model of an [`Allocation`].
pub struct AllocationView {
    pub timesteps: Seq<u64>,
    pub offsets: Seq<u64>,
    pub size: u64,
    pub callstack: Seq<FrameView>,
    pub peak_mem: u64,
    pub peak_timestamps: Seq<u64>,
}

impl View for Allocation {
    type V = AllocationView;

    open spec fn view(&self) -> AllocationView {
        AllocationView {
            timesteps: self.timesteps@,
            offsets: self.offsets@,
            size: self.size,
            callstack: self.callstack.deep_view(),
            peak_mem: self.peak_mem,
            peak_timestamps: self.peak_timestamps@,
        }
    }
}

impl DeepView for Allocation {
    type V = AllocationView;

    open spec fn deep_view(&self) -> AllocationView {
        self@
    }
}

/// The samples and the size of one allocation, as they are given before the
/// peak is known.
#[derive(Debug, Clone, PartialEq, Eq)]
pub struct RawAllocationData {
    pub timesteps: Vec<u64>,
    pub offsets: Vec<u64>,
    pub size: u64,
}

/// The model of a [`RawAllocationData`].
pub struct RawAllocationView {
    pub timesteps: Seq<u64>,
    pub offsets: Seq<u64>,
    pub size: u64,
}

impl View for RawAllocationData {
    type V = RawAllocationView;

    open spec fn view(&self) -> RawAllocationView {
        RawAllocationView { timesteps: self.timesteps@, offsets: self.offsets@, size: self.size }
    }
}

impl DeepView for RawAllocationData {
    type V = RawAllocationView;

    open spec fn deep_view(&self) -> RawAllocationView {
        self@
    }
}

/// The call stack of one allocation, as it is given.
#[derive(Debug, Clone, PartialEq, Eq)]
pub struct ElementData {
    pub frames: Vec<Frame>,
}

impl View for ElementData {
    type V = Seq<FrameView>;

    open spec fn view(&self) -> Seq<FrameView> {
        self.frames.deep_view()
    }
}

impl DeepView for ElementData {
    type V = Seq<FrameView>;

    open spec fn deep_view(&self) -> Seq<FrameView> {
        self@
    }
}

/// The largest of the offsets; 0 where there is none.
pub open spec fn max_offset(offsets: Seq<u64>) -> u64
    decreases offsets.len(),
{
    if offsets.len() == 0 {
        0
    } else {
        let before = max_offset(offsets.drop_last());
        if offsets.last() >= before {
            offsets.last()
        } else {
            before
        }
    }
}

/// Of the first `n` samples, the times at which the offset is `base`, in
/// the order they were taken.
pub open spec fn times_at(timesteps: Seq<u64>, offsets: Seq<u64>, base: u64, n: nat) -> Seq<u64>
    decreases n,
{
    if n == 0 {
        Seq::empty()
    } else {
        let before = times_at(timesteps, offsets, base, (n - 1) as nat);
        if offsets[n - 1] == base {
            before.push(timesteps[n - 1])
        } else {
            before
        }
    }
}

/// The times at which the offset is the largest one.
pub open spec fn peak_times(timesteps: Seq<u64>, offsets: Seq<u64>) -> Seq<u64> {
    times_at(timesteps, offsets, max_offset(offsets), offsets.len())
}

impl AllocationView {
    /// The record is whole: there is at least one sample, each sampled time
    /// has its offset, and the peak fields are what the samples say.
    pub open spec fn wf(self) -> bool {
        &&& self.timesteps.len() >= 1
        &&& self.offsets.len() == self.timesteps.len()
        &&& self.peak_mem == max_offset(self.offsets) + self.size
        &&& self.peak_timestamps == peak_times(self.timesteps, self.offsets)
    }

    /// The sampled times never go back.
    pub open spec fn ordered(self) -> bool {
        forall|i: int, j: int|
            0 <= i <= j < self.timesteps.len() ==> self.timesteps[i] <= self.timesteps[j]
    }

    /// The first sampled time.
    pub open spec fn start(self) -> u64
        recommends
            self.timesteps.len() >= 1,
    {
        self.timesteps[0]
    }

    /// The last sampled time.
    pub open spec fn end(self) -> u64
        recommends
            self.timesteps.len() >= 1,
    {
        self.timesteps.last()
    }

    /// Whether `timestamp` lies between the first and the last sampled time,
    /// both included.
    pub open spec fn is_alive_at(self, timestamp: u64) -> bool {
        self.start() <= timestamp <= self.end()
    }

    /// Whether the allocation is alive at both ends of an interval.
    pub open spec fn is_alive_in_interval(self, start: u64, stop: u64) -> bool {
        self.is_alive_at(start) && self.is_alive_at(stop)
    }
}

impl Allocation {
    /// Whether the allocation is alive at both ends of an interval.
    pub fn is_alive_in_interval(&self, start: u64, stop: u64) -> (alive: bool)
        requires
            self.timesteps@.len() >= 1,
        ensures
            alive == self@.is_alive_in_interval(start, stop),
    {
        self.is_alive_at(start) && self.is_alive_at(stop)
    }

    /// Whether `timestamp` lies between the first and the last sampled time,
    /// both included.
    pub fn is_alive_at(&self, timestamp: u64) -> (alive: bool)
        requires
            self.timesteps@.len() >= 1,
        ensures
            alive == self@.is_alive_at(timestamp),
    {
        self.timesteps[0] <= timestamp && timestamp <= self.timesteps[self.timesteps.len() - 1]
    }

    /// The first and the last sampled time.
    pub fn start_end_time(&self) -> (span: (u64, u64))
        requires
            self.timesteps@.len() >= 1,
        ensures
            span == (self@.start(), self@.end()),
    {
        (self.timesteps[0], self.timesteps[self.timesteps.len() - 1])
    }

    /// Whether the record is whole, tested at run time.
    pub fn is_wf(&self) -> (whole: bool)
        ensures
            whole == self@.wf(),
    {
        let n = self.timesteps.len();
        if n == 0 || self.offsets.len() != n {
            return false;
        }
        let base = largest_offset(&self.offsets);
        let peak = match base.checked_add(self.size) {
            Some(peak) => peak,
            None => {
                return false;
            },
        };
        if self.peak_mem != peak {
            return false;
        }
        let times = times_of_offset(&self.timesteps, &self.offsets, base);
        let same = same_numbers(&self.peak_timestamps, &times);
        same
    }
}

/// Whether two vectors hold the same numbers in the same order.
pub fn same_numbers(a: &Vec<u64>, b: &Vec<u64>) -> (same: bool)
    ensures
        same == (a@ == b@),
{
    if a.len() != b.len() {
        return false;
    }
    let mut i: usize = 0;
    while i < a.len()
        invariant
            i <= a@.len(),
            a@.len() == b@.len(),
            forall|j: int| 0 <= j < i ==> a@[j] == b@[j],
        decreases a@.len() - i,
    {
        if a[i] != b[i] {
            return false;
        }
        i = i + 1;
    }
    assert(a@ =~= b@);
    true
}

/// The largest offset of a vector of offsets.
pub fn largest_offset(offsets: &Vec<u64>) -> (base: u64)
    ensures
        base == max_offset(offsets@),
{
    let mut base: u64 = 0;
    let mut i: usize = 0;
    while i < offsets.len()
        invariant
            i <= offsets@.len(),
            base == max_offset(offsets@.take(i as int)),
        decreases offsets@.len() - i,
    {
        assert(offsets@.take(i + 1).drop_last() =~= offsets@.take(i as int));
        if offsets[i] >= base {
            base = offsets[i];
        }
        i = i + 1;
    }
    assert(offsets@.take(i as int) =~= offsets@);
    base
}

/// The sampled times at which the offset is `base`.
pub fn times_of_offset(timesteps: &Vec<u64>, offsets: &Vec<u64>, base: u64) -> (times: Vec<u64>)
    requires
        timesteps@.len() == offsets@.len(),
    ensures
        times@ == times_at(timesteps@, offsets@, base, offsets@.len()),
{
    let mut times: Vec<u64> = Vec::new();
    let mut i: usize = 0;
    while i < offsets.len()
        invariant
            i <= offsets@.len(),
            timesteps@.len() == offsets@.len(),
            times@ == times_at(timesteps@, offsets@, base, i as nat),
        decreases offsets@.len() - i,
    {
        if offsets[i] == base {
            times.push(timesteps[i]);
        }
        i = i + 1;
    }
    times
}

/// The largest offset is one of the offsets, and none is larger.
pub proof fn lemma_max_offset(offsets: Seq<u64>)
    requires
        offsets.len() >= 1,
    ensures
        forall|i: int| 0 <= i < offsets.len() ==> offsets[i] <= max_offset(offsets),
        exists|i: int| 0 <= i < offsets.len() && offsets[i] == max_offset(offsets),
    decreases offsets.len(),
{
    let before = offsets.drop_last();
    let last = offsets.len() - 1;
    if before.len() == 0 {
        assert(offsets[last] == max_offset(offsets));
    } else {
        lemma_max_offset(before);
        let k = choose|i: int| 0 <= i < before.len() && before[i] == max_offset(before);
        assert(before[k] == offsets[k]);
        if offsets.last() >= max_offset(before) {
            assert(offsets[last] == max_offset(offsets));
        } else {
            assert(offsets[k] == max_offset(offsets));
        }
        assert forall|i: int| 0 <= i < offsets.len() implies offsets[i] <= max_offset(offsets) by {
            if i < last {
                assert(before[i] == offsets[i]);
            }
        }
    }
}

/// Whether `time` is the time of one of the first `n` samples whose offset
/// is `base`.
pub open spec fn sampled_at(
    timesteps: Seq<u64>,
    offsets: Seq<u64>,
    base: u64,
    n: nat,
    time: u64,
) -> bool {
    exists|i: int| 0 <= i < n && offsets[i] == base && #[trigger] timesteps[i] == time
}

/// What `times_at` holds: exactly the times of the samples whose offset is
/// `base`.
pub proof fn lemma_times_at(timesteps: Seq<u64>, offsets: Seq<u64>, base: u64, n: nat)
    requires
        n <= offsets.len(),
        n <= timesteps.len(),
    ensures
        forall|k: int|
            0 <= k < times_at(timesteps, offsets, base, n).len() ==> sampled_at(
                timesteps,
                offsets,
                base,
                n,
                #[trigger] times_at(timesteps, offsets, base, n)[k],
            ),
        forall|i: int|
            0 <= i < n && offsets[i] == base ==> times_at(timesteps, offsets, base, n).contains(
                #[trigger] timesteps[i],
            ),
    decreases n,
{
    if n > 0 {
        let m = (n - 1) as nat;
        let before = times_at(timesteps, offsets, base, m);
        let now = times_at(timesteps, offsets, base, n);
        lemma_times_at(timesteps, offsets, base, m);
        assert forall|k: int| 0 <= k < now.len() implies sampled_at(
            timesteps,
            offsets,
            base,
            n,
            #[trigger] now[k],
        ) by {
            if k < before.len() {
                assert(sampled_at(timesteps, offsets, base, m, before[k]));
                let i = choose|i: int|
                    0 <= i < m && offsets[i] == base && #[trigger] timesteps[i] == before[k];
                assert(0 <= i < n && offsets[i] == base && timesteps[i] == now[k]);
            } else {
                assert(0 <= m < n && offsets[m as int] == base && timesteps[m as int] == now[k]);
            }
        }
        assert forall|i: int| 0 <= i < n && offsets[i] == base implies now.contains(
            #[trigger] timesteps[i],
        ) by {
            if i < m {
                assert(before.contains(timesteps[i]));
                let k = choose|k: int| 0 <= k < before.len() && before[k] == timesteps[i];
                assert(now[k] == timesteps[i]);
            } else {
                assert(now[now.len() - 1] == timesteps[i]);
            }
        }
    }
}

/// An allocation is alive at its first and at its last sampled time, and
/// not at the time just before the first, as long as its times never go
/// back.
pub proof fn lemma_alive_at_ends(a: AllocationView)
    requires
        a.timesteps.len() >= 1,
        a.ordered(),
    ensures
        a.is_alive_at(a.timesteps[0]),
        a.is_alive_at(a.timesteps.last()),
        a.timesteps[0] > 0 ==> !a.is_alive_at((a.timesteps[0] - 1) as u64),
{
}

/// The peak of a whole record is its largest offset plus its size; that
/// offset is one the allocation had; and the peak times are exactly the
/// sampled times at which it had that offset.
pub proof fn lemma_peak(a: AllocationView)
    requires
        a.wf(),
    ensures
        a.peak_mem == max_offset(a.offsets) + a.size,
        forall|i: int| 0 <= i < a.offsets.len() ==> a.offsets[i] <= max_offset(a.offsets),
        a.peak_timestamps.len() >= 1,
        forall|k: int|
            0 <= k < a.peak_timestamps.len() ==> sampled_at(
                a.timesteps,
                a.offsets,
                max_offset(a.offsets),
                a.offsets.len(),
                #[trigger] a.peak_timestamps[k],
            ),
        forall|i: int|
            0 <= i < a.offsets.len() && a.offsets[i] == max_offset(a.offsets)
                ==> a.peak_timestamps.contains(#[trigger] a.timesteps[i]),
{
    lemma_max_offset(a.offsets);
    lemma_times_at(a.timesteps, a.offsets, max_offset(a.offsets), a.offsets.len());
    let top = choose|i: int| 0 <= i < a.offsets.len() && a.offsets[i] == max_offset(a.offsets);
    assert(a.peak_timestamps.contains(a.timesteps[top]));
}

} // verus!
