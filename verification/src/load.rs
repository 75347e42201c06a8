//! Reconstruction: from the samples and call stacks that a capture gives to
//! whole allocation records.
use vstd::prelude::*;
use crate::words::chars_of;
use crate::allocation::{
    largest_offset, max_offset, peak_times, times_of_offset, Allocation, AllocationView,
    ElementData, Frame, FrameView, RawAllocationData, RawAllocationView,
};

verus! {

/// Where a capture was read from.
#[derive(Debug, Clone, PartialEq, Eq)]
pub enum SnapType {
    Json { allocations_path: String, elements_path: String },
    Zip { path: String },
}

/// The two documents of a capture, as text, and where they came from.
#[derive(Debug, Clone, PartialEq, Eq)]
pub struct RawSnap {
    pub dumptype: SnapType,
    pub allocations: String,
    pub elements: String,
}

/// Why a capture could not be turned into allocation records.
#[derive(Debug, Clone, Copy, PartialEq, Eq, Structural)]
pub enum LoadError {
    /// The number of allocations, and the different number of call stacks.
    ArityMismatch(usize, usize),
    /// The index of an allocation, the number of its sampled times, and the
    /// different number of its offsets.
    SampleCountMismatch(usize, usize, usize),
    /// The index of an allocation without samples.
    NoSamples(usize),
    /// The index of an allocation whose largest offset plus its size does
    /// not fit in 64 bits.
    PeakOverflow(usize),
    /// An archive that lacks the document of allocations, of call stacks, or
    /// both: for each of the two, whether it is missing.
    MissingDocuments(bool, bool),
}

/// The record of the allocation at `index`, or why it has none.
///
/// The peak is the largest offset plus the size; the peak times are the
/// sampled times at which the offset is the largest, in the order they were
/// taken.
pub open spec fn reconstruct_one(index: int, raw: RawAllocationView, frames: Seq<FrameView>) -> Result<
    AllocationView,
    LoadError,
> {
    if raw.timesteps.len() != raw.offsets.len() {
        Err(
            LoadError::SampleCountMismatch(
                index as usize,
                raw.timesteps.len() as usize,
                raw.offsets.len() as usize,
            ),
        )
    } else if raw.offsets.len() == 0 {
        Err(LoadError::NoSamples(index as usize))
    } else if max_offset(raw.offsets) + raw.size > u64::MAX {
        Err(LoadError::PeakOverflow(index as usize))
    } else {
        Ok(
            AllocationView {
                timesteps: raw.timesteps,
                offsets: raw.offsets,
                size: raw.size,
                callstack: frames,
                peak_mem: (max_offset(raw.offsets) + raw.size) as u64,
                peak_timestamps: peak_times(raw.timesteps, raw.offsets),
            },
        )
    }
}

/// The records of the first `n` allocations, or why the first of them
/// that has none has none.
pub open spec fn reconstruct_first(
    raws: Seq<RawAllocationView>,
    elements: Seq<Seq<FrameView>>,
    n: nat,
) -> Result<Seq<AllocationView>, LoadError>
    decreases n,
{
    if n == 0 {
        Ok(Seq::empty())
    } else {
        match reconstruct_first(raws, elements, (n - 1) as nat) {
            Err(e) => Err(e),
            Ok(done) => match reconstruct_one(n - 1, raws[n - 1], elements[n - 1]) {
                Err(e) => Err(e),
                Ok(a) => Ok(done.push(a)),
            },
        }
    }
}

/// The records of all allocations, each with the call stack at its
/// position; or the first reason why there are none.
pub open spec fn reconstruct(raws: Seq<RawAllocationView>, elements: Seq<Seq<FrameView>>) -> Result<
    Seq<AllocationView>,
    LoadError,
> {
    if raws.len() != elements.len() {
        Err(LoadError::ArityMismatch(raws.len() as usize, elements.len() as usize))
    } else {
        reconstruct_first(raws, elements, raws.len())
    }
}

/// Once one allocation has no record, taking more of them does not help.
pub proof fn lemma_reconstruct_fails_on(
    raws: Seq<RawAllocationView>,
    elements: Seq<Seq<FrameView>>,
    n: nat,
    m: nat,
)
    requires
        n <= m,
        reconstruct_first(raws, elements, n) is Err,
    ensures
        reconstruct_first(raws, elements, m) == reconstruct_first(raws, elements, n),
    decreases m,
{
    if n < m {
        lemma_reconstruct_fails_on(raws, elements, n, (m - 1) as nat);
    }
}

/// Reconstruction gives one record for each allocation, in order, and each
/// is whole.
pub proof fn lemma_reconstruct(raws: Seq<RawAllocationView>, elements: Seq<Seq<FrameView>>, n: nat)
    ensures
        reconstruct_first(raws, elements, n) matches Ok(done) ==> done.len() == n && forall|
            i: int,
        |
            0 <= i < n ==> (#[trigger] done[i]).wf() && reconstruct_one(i, raws[i], elements[i])
                == Ok::<AllocationView, LoadError>(done[i]),
    decreases n,
{
    if n > 0 {
        lemma_reconstruct(raws, elements, (n - 1) as nat);
    }
}

/// Turns samples and call stacks into allocation records.
///
/// The two vectors are matched by position and must be of one length. Each
/// allocation must have as many offsets as sampled times, and at least one;
/// and its largest offset plus its size must fit in 64 bits. The first
/// allocation that does not is reported.
pub fn load_allocations(raw_allocs: Vec<RawAllocationData>, elements_data: Vec<ElementData>) -> (r:
    Result<Vec<Allocation>, LoadError>)
    ensures
        match reconstruct(raw_allocs.deep_view(), elements_data.deep_view()) {
            Ok(records) => r matches Ok(allocations) && allocations.deep_view() == records,
            Err(e) => r == Err::<Vec<Allocation>, LoadError>(e),
        },
        r matches Ok(allocations) ==> forall|i: int|
            0 <= i < allocations@.len() ==> (#[trigger] allocations@[i])@.wf(),
{
    let ghost raws = raw_allocs.deep_view();
    let ghost elements = elements_data.deep_view();
    let n = raw_allocs.len();
    if n != elements_data.len() {
        return Err(LoadError::ArityMismatch(n, elements_data.len()));
    }
    let mut raw_left = raw_allocs;
    let mut elements_left = elements_data;
    let mut allocations: Vec<Allocation> = Vec::new();
    proof {
        assert(allocations.deep_view() =~= Seq::<AllocationView>::empty());
    }
    let mut i: usize = 0;
    while i < n
        invariant
            i <= n,
            raws == raw_allocs.deep_view(),
            elements == elements_data.deep_view(),
            n == raws.len(),
            n == elements.len(),
            raw_left@.len() == n,
            elements_left@.len() == n,
            forall|j: int| i <= j < n ==> (#[trigger] raw_left@[j])@ == raws[j],
            forall|j: int| i <= j < n ==> (#[trigger] elements_left@[j])@ == elements[j],
            reconstruct_first(raws, elements, i as nat) == Ok::<Seq<AllocationView>, LoadError>(
                allocations.deep_view(),
            ),
            forall|j: int| 0 <= j < allocations@.len() ==> (#[trigger] allocations@[j])@.wf(),
        decreases n - i,
    {
        let ghost raw = raws[i as int];
        let ghost frames = elements[i as int];
        let ghost done = allocations.deep_view();
        assert(raw_left@[i as int]@ == raw);
        assert(elements_left@[i as int]@ == frames);
        let times = raw_left[i].timesteps.len();
        let places = raw_left[i].offsets.len();
        if times != places {
            proof {
                lemma_reconstruct_fails_on(raws, elements, (i + 1) as nat, n as nat);
            }
            return Err(LoadError::SampleCountMismatch(i, times, places));
        }
        if places == 0 {
            proof {
                lemma_reconstruct_fails_on(raws, elements, (i + 1) as nat, n as nat);
            }
            return Err(LoadError::NoSamples(i));
        }
        let size = raw_left[i].size;
        let peak_base = largest_offset(&raw_left[i].offsets);
        let peak_mem = match peak_base.checked_add(size) {
            Some(peak) => peak,
            None => {
                proof {
                    lemma_reconstruct_fails_on(raws, elements, (i + 1) as nat, n as nat);
                }
                return Err(LoadError::PeakOverflow(i));
            },
        };
        let peak_timestamps = times_of_offset(
            &raw_left[i].timesteps,
            &raw_left[i].offsets,
            peak_base,
        );
        let mut timesteps: Vec<u64> = Vec::new();
        let mut offsets: Vec<u64> = Vec::new();
        let mut callstack: Vec<Frame> = Vec::new();
        core::mem::swap(&mut timesteps, &mut raw_left[i].timesteps);
        core::mem::swap(&mut offsets, &mut raw_left[i].offsets);
        core::mem::swap(&mut callstack, &mut elements_left[i].frames);
        let allocation = Allocation {
            timesteps,
            offsets,
            size,
            callstack,
            peak_mem,
            peak_timestamps,
        };
        proof {
            assert(reconstruct_one(i as int, raw, frames) == Ok::<AllocationView, LoadError>(
                allocation@,
            ));
        }
        allocations.push(allocation);
        proof {
            assert(allocations.deep_view() =~= done.push(allocation@));
        }
        i = i + 1;
    }
    Ok(allocations)
}

// ---------------------------------------------------------------------------
// The documents of an archive
// ---------------------------------------------------------------------------

/// What an entry of an archive is taken for.
#[derive(Debug, Clone, Copy, PartialEq, Eq, Structural)]
pub enum DocumentKind {
    /// The document of allocations.
    Allocations,
    /// The document of call stacks.
    Elements,
    /// Neither.
    Other,
}

/// Whether `text` ends with `suffix`.
pub open spec fn ends_with(text: Seq<char>, suffix: Seq<char>) -> bool {
    text.len() >= suffix.len() && text.skip(text.len() - suffix.len()) == suffix
}

/// Whether `word` stands in `text` from place `at` on.
pub open spec fn stands_at(text: Seq<char>, word: Seq<char>, at: int) -> bool {
    0 <= at && at + word.len() <= text.len() && text.subrange(at, at + word.len()) == word
}

/// Whether `word` stands somewhere in `text`.
pub open spec fn holds(text: Seq<char>, word: Seq<char>) -> bool {
    exists|at: int| stands_at(text, word, at)
}

/// The name of a file without the directories before it: what follows the
/// last `/` of its path.
pub open spec fn base_name(path: Seq<char>) -> Seq<char>
    decreases path.len(),
{
    if path.len() == 0 || path.last() == '/' {
        Seq::empty()
    } else {
        base_name(path.drop_last()).push(path.last())
    }
}

/// What the entry at `path` is taken for: a document if its path ends in
/// `.json`; the document of allocations if the name of the file holds
/// `allocations`, else that of call stacks if it holds `elements`.
pub open spec fn kind_of(path: Seq<char>) -> DocumentKind {
    if !ends_with(path, ".json"@) {
        DocumentKind::Other
    } else if holds(base_name(path), "allocations"@) {
        DocumentKind::Allocations
    } else if holds(base_name(path), "elements"@) {
        DocumentKind::Elements
    } else {
        DocumentKind::Other
    }
}

/// Whether `word` stands in `text` from place `at` on.
fn found_at(text: &Vec<char>, from: usize, to: usize, word: &Vec<char>, at: usize) -> (found: bool)
    requires
        from <= at,
        from <= to <= text@.len(),
    ensures
        found == stands_at(text@.subrange(from as int, to as int), word@, at - from),
{
    let ghost part = text@.subrange(from as int, to as int);
    if at > to || to - at < word.len() {
        return false;
    }
    let mut i: usize = 0;
    while i < word.len()
        invariant
            i <= word@.len(),
            from <= at,
            at + word@.len() <= to <= text@.len(),
            part == text@.subrange(from as int, to as int),
            forall|j: int| 0 <= j < i ==> text@[at + j] == word@[j],
        decreases word@.len() - i,
    {
        if text[at + i] != word[i] {
            proof {
                let taken = part.subrange(at - from, at - from + word@.len());
                assert(taken[i as int] == text@[at + i]);
            }
            return false;
        }
        i = i + 1;
    }
    proof {
        assert(part.subrange(at - from, at - from + word@.len()) =~= word@);
    }
    true
}

/// Whether `word` stands somewhere in the text between two places.
fn found_in(text: &Vec<char>, from: usize, to: usize, word: &Vec<char>) -> (found: bool)
    requires
        from <= to <= text@.len(),
    ensures
        found == holds(text@.subrange(from as int, to as int), word@),
{
    let ghost part = text@.subrange(from as int, to as int);
    let mut at: usize = from;
    loop
        invariant
            from <= at <= to <= text@.len(),
            part == text@.subrange(from as int, to as int),
            forall|p: int| 0 <= p < at - from ==> !stands_at(part, word@, p),
        decreases to - at,
    {
        if found_at(text, from, to, word, at) {
            return true;
        }
        if at == to {
            proof {
                assert forall|p: int| !stands_at(part, word@, p) by {
                    if 0 <= p <= at - from {
                    }
                }
            }
            return false;
        }
        at = at + 1;
    }
}

/// What the entry at `path` is taken for.
pub fn document_kind(path: &str) -> (kind: DocumentKind)
    ensures
        kind == kind_of(path@),
{
    let chars = chars_of(path);
    let n = chars.len();
    let suffix = chars_of(".json");
    let allocations = chars_of("allocations");
    let elements = chars_of("elements");
    if n < suffix.len() || !found_at(&chars, 0, n, &suffix, n - suffix.len()) {
        proof {
            assert(chars@.subrange(0, n as int) =~= chars@);
            if n >= suffix@.len() {
                assert(chars@.subrange(n - suffix@.len(), n as int) =~= chars@.skip(
                    n - suffix@.len(),
                ));
            }
        }
        return DocumentKind::Other;
    }
    proof {
        assert(chars@.subrange(0, n as int) =~= chars@);
        assert(chars@.subrange(n - suffix@.len(), n as int) =~= chars@.skip(n - suffix@.len()));
    }
    let mut start: usize = n;
    while start > 0 && chars[start - 1] != '/'
        invariant
            start <= n,
            n == chars@.len(),
            base_name(chars@) == base_name(chars@.take(start as int)) + chars@.skip(start as int),
        decreases start,
    {
        proof {
            let head = chars@.take(start as int);
            assert(head.drop_last() =~= chars@.take(start - 1));
            assert(base_name(head) == base_name(chars@.take(start - 1)).push(
                chars@[start - 1],
            ));
            assert(base_name(chars@.take(start - 1)).push(chars@[start - 1]) + chars@.skip(
                start as int,
            ) =~= base_name(chars@.take(start - 1)) + chars@.skip(start - 1));
        }
        start = start - 1;
    }
    proof {
        if start == 0 {
            assert(chars@.take(0) =~= Seq::<char>::empty());
            assert(chars@.take(n as int) =~= chars@);
        }
        assert(base_name(chars@.take(start as int)) =~= Seq::<char>::empty());
        assert(base_name(chars@) =~= chars@.subrange(start as int, n as int));
    }
    if found_in(&chars, start, n, &allocations) {
        DocumentKind::Allocations
    } else if found_in(&chars, start, n, &elements) {
        DocumentKind::Elements
    } else {
        DocumentKind::Other
    }
}

/// The capture that the documents of an archive make up, or which of them
/// are missing.
pub fn raw_snap_from_documents(
    path: String,
    allocations: Option<String>,
    elements: Option<String>,
) -> (r: Result<RawSnap, LoadError>)
    ensures
        match (allocations, elements) {
            (Some(a), Some(e)) => r matches Ok(snap) && snap.allocations@ == a@ && snap.elements@
                == e@ && (snap.dumptype matches SnapType::Zip { path: p } && p@ == path@),
            _ => r == Err::<RawSnap, LoadError>(
                LoadError::MissingDocuments(allocations is None, elements is None),
            ),
        },
{
    match (allocations, elements) {
        (None, None) => Err(LoadError::MissingDocuments(true, true)),
        (None, Some(_)) => Err(LoadError::MissingDocuments(true, false)),
        (Some(_), None) => Err(LoadError::MissingDocuments(false, true)),
        (Some(allocations), Some(elements)) => Ok(
            RawSnap { dumptype: SnapType::Zip { path }, allocations, elements },
        ),
    }
}

} // verus!
