//! The data carried by a binary allocator capture, and its mathematical model.
//!
//! Every executable type here has a view: the same record with `Seq` in place
//! of `Vec` and `String`. The layout of a capture is stated over the views in
//! [`crate::wire`]; the decoder that produces the executable values is in
//! [`crate::reader`].
use vstd::prelude::*;

verus! {

/// Why a capture could not be decoded.
#[derive(Debug, Clone, Copy, PartialEq, Eq, Structural)]
pub enum DecodeError {
    /// The first four bytes are not the ASCII letters `SNAP`.
    InvalidMagicNumber,
    /// The version byte, which is not the supported one.
    UnsupportedFormatVersion(u8),
    /// An entry of the string table is not valid UTF-8.
    Utf8,
    /// A string id, and the length of the table it does not resolve in.
    InvalidStringId(u32, usize),
    /// A block state tag other than 0, 1 or 2.
    InvalidBlockStateValue(u8),
    /// A segment type tag other than 0 or 1.
    InvalidSegmentTypeValue(u8),
    /// A trace action tag above 6.
    InvalidTraceActionValue(u8),
    /// The bytes end inside a field.
    UnexpectedEof,
}

/// One entry of a call stack.
#[derive(Debug, Clone, PartialEq, Eq)]
pub struct Frame {
    pub filename: String,
    pub line: u32,
    pub name: String,
}

/// The model of a [`Frame`].
pub struct FrameView {
    pub filename: Seq<char>,
    pub line: u32,
    pub name: Seq<char>,
}

impl View for Frame {
    type V = FrameView;

    open spec fn view(&self) -> FrameView {
        FrameView { filename: self.filename@, line: self.line, name: self.name@ }
    }
}

impl DeepView for Frame {
    type V = FrameView;

    open spec fn deep_view(&self) -> FrameView {
        self@
    }
}

/// What the allocator records of a block's use.
#[derive(Debug, Clone, Copy, PartialEq, Eq, Structural)]
pub enum BlockState {
    ActiveAllocated,
    ActiveAwaitingFree,
    Inactive,
}

impl BlockState {
    /// The tag byte that stands for this state.
    pub open spec fn tag(self) -> u8 {
        match self {
            BlockState::ActiveAllocated => 0,
            BlockState::ActiveAwaitingFree => 1,
            BlockState::Inactive => 2,
        }
    }

    /// The state a tag byte stands for.
    pub open spec fn spec_from_u8(value: u8) -> Result<BlockState, DecodeError> {
        if value == 0 {
            Ok(BlockState::ActiveAllocated)
        } else if value == 1 {
            Ok(BlockState::ActiveAwaitingFree)
        } else if value == 2 {
            Ok(BlockState::Inactive)
        } else {
            Err(DecodeError::InvalidBlockStateValue(value))
        }
    }

    /// The state a tag byte stands for, or the failure that names the byte.
    pub fn from_u8(value: u8) -> (r: Result<BlockState, DecodeError>)
        ensures
            r == BlockState::spec_from_u8(value),
    {
        match value {
            0 => Ok(BlockState::ActiveAllocated),
            1 => Ok(BlockState::ActiveAwaitingFree),
            2 => Ok(BlockState::Inactive),
            _ => Err(DecodeError::InvalidBlockStateValue(value)),
        }
    }

    /// The tag byte that stands for this state.
    pub fn to_u8(self) -> (value: u8)
        ensures
            value == self.tag(),
            BlockState::spec_from_u8(value) == Ok::<BlockState, DecodeError>(self),
    {
        match self {
            BlockState::ActiveAllocated => 0,
            BlockState::ActiveAwaitingFree => 1,
            BlockState::Inactive => 2,
        }
    }
}

/// A sub-allocation within a segment.
#[derive(Debug, Clone, PartialEq, Eq)]
pub struct Block {
    pub size: u64,
    pub requested_size: u64,
    pub address: u64,
    pub state: BlockState,
    pub frames: Vec<Frame>,
}

/// The model of a [`Block`].
pub struct BlockView {
    pub size: u64,
    pub requested_size: u64,
    pub address: u64,
    pub state: BlockState,
    pub frames: Seq<FrameView>,
}

impl View for Block {
    type V = BlockView;

    open spec fn view(&self) -> BlockView {
        BlockView {
            size: self.size,
            requested_size: self.requested_size,
            address: self.address,
            state: self.state,
            frames: self.frames.deep_view(),
        }
    }
}

impl DeepView for Block {
    type V = BlockView;

    open spec fn deep_view(&self) -> BlockView {
        self@
    }
}

/// The pool a segment belongs to.
#[derive(Debug, Clone, Copy, PartialEq, Eq, Structural)]
pub enum SegmentType {
    Small,
    Large,
}

impl SegmentType {
    /// The tag byte that stands for this pool.
    pub open spec fn tag(self) -> u8 {
        match self {
            SegmentType::Small => 0,
            SegmentType::Large => 1,
        }
    }

    /// The pool a tag byte stands for.
    pub open spec fn spec_from_u8(value: u8) -> Result<SegmentType, DecodeError> {
        if value == 0 {
            Ok(SegmentType::Small)
        } else if value == 1 {
            Ok(SegmentType::Large)
        } else {
            Err(DecodeError::InvalidSegmentTypeValue(value))
        }
    }

    /// The pool a tag byte stands for, or the failure that names the byte.
    pub fn from_u8(value: u8) -> (r: Result<SegmentType, DecodeError>)
        ensures
            r == SegmentType::spec_from_u8(value),
    {
        match value {
            0 => Ok(SegmentType::Small),
            1 => Ok(SegmentType::Large),
            _ => Err(DecodeError::InvalidSegmentTypeValue(value)),
        }
    }

    /// The tag byte that stands for this pool.
    pub fn to_u8(self) -> (value: u8)
        ensures
            value == self.tag(),
            SegmentType::spec_from_u8(value) == Ok::<SegmentType, DecodeError>(self),
    {
        match self {
            SegmentType::Small => 0,
            SegmentType::Large => 1,
        }
    }
}

/// A region of the allocator's memory pool.
#[derive(Debug, Clone, PartialEq, Eq)]
pub struct Segment {
    pub address: u64,
    pub total_size: u64,
    pub stream: i64,
    pub segment_type: SegmentType,
    pub allocated_size: u64,
    pub active_size: u64,
    pub blocks: Vec<Block>,
}

/// The model of a [`Segment`].
pub struct SegmentView {
    pub address: u64,
    pub total_size: u64,
    pub stream: i64,
    pub segment_type: SegmentType,
    pub allocated_size: u64,
    pub active_size: u64,
    pub blocks: Seq<BlockView>,
}

impl View for Segment {
    type V = SegmentView;

    open spec fn view(&self) -> SegmentView {
        SegmentView {
            address: self.address,
            total_size: self.total_size,
            stream: self.stream,
            segment_type: self.segment_type,
            allocated_size: self.allocated_size,
            active_size: self.active_size,
            blocks: self.blocks.deep_view(),
        }
    }
}

impl DeepView for Segment {
    type V = SegmentView;

    open spec fn deep_view(&self) -> SegmentView {
        self@
    }
}

/// One allocator event. Every kind carries one 64-bit number: an address,
/// or for `Oom` the bytes the device still had free.
#[derive(Debug, Clone, Copy, PartialEq, Eq, Structural)]
pub enum TraceAction {
    Alloc { addr: u64 },
    FreeRequested { addr: u64 },
    FreeCompleted { addr: u64 },
    SegmentAlloc { addr: u64 },
    SegmentFree { addr: u64 },
    Oom { device_free: u64 },
    Snapshot { addr: u64 },
}

impl TraceAction {
    /// The tag byte that stands for this kind of event.
    pub open spec fn tag(self) -> u8 {
        match self {
            TraceAction::Alloc { .. } => 0,
            TraceAction::FreeRequested { .. } => 1,
            TraceAction::FreeCompleted { .. } => 2,
            TraceAction::SegmentAlloc { .. } => 3,
            TraceAction::SegmentFree { .. } => 4,
            TraceAction::Oom { .. } => 5,
            TraceAction::Snapshot { .. } => 6,
        }
    }

    /// The number the event carries.
    pub open spec fn payload(self) -> u64 {
        match self {
            TraceAction::Alloc { addr } => addr,
            TraceAction::FreeRequested { addr } => addr,
            TraceAction::FreeCompleted { addr } => addr,
            TraceAction::SegmentAlloc { addr } => addr,
            TraceAction::SegmentFree { addr } => addr,
            TraceAction::Oom { device_free } => device_free,
            TraceAction::Snapshot { addr } => addr,
        }
    }

    /// Whether a tag byte stands for a kind of event.
    pub open spec fn is_tag(value: u8) -> bool {
        value <= 6
    }

    /// The event that a valid tag and its number stand for.
    pub open spec fn spec_from_parts(value: u8, payload: u64) -> TraceAction
        recommends
            TraceAction::is_tag(value),
    {
        if value == 0 {
            TraceAction::Alloc { addr: payload }
        } else if value == 1 {
            TraceAction::FreeRequested { addr: payload }
        } else if value == 2 {
            TraceAction::FreeCompleted { addr: payload }
        } else if value == 3 {
            TraceAction::SegmentAlloc { addr: payload }
        } else if value == 4 {
            TraceAction::SegmentFree { addr: payload }
        } else if value == 5 {
            TraceAction::Oom { device_free: payload }
        } else {
            TraceAction::Snapshot { addr: payload }
        }
    }


    /// The event that a tag byte and a number stand for, or the failure
    /// that names the byte.
    pub fn from_parts(value: u8, payload: u64) -> (r: Result<TraceAction, DecodeError>)
        ensures
            TraceAction::is_tag(value) ==> r == Ok::<TraceAction, DecodeError>(
                TraceAction::spec_from_parts(value, payload),
            ),
            !TraceAction::is_tag(value) ==> r == Err::<TraceAction, DecodeError>(
                DecodeError::InvalidTraceActionValue(value),
            ),
    {
        match value {
            0 => Ok(TraceAction::Alloc { addr: payload }),
            1 => Ok(TraceAction::FreeRequested { addr: payload }),
            2 => Ok(TraceAction::FreeCompleted { addr: payload }),
            3 => Ok(TraceAction::SegmentAlloc { addr: payload }),
            4 => Ok(TraceAction::SegmentFree { addr: payload }),
            5 => Ok(TraceAction::Oom { device_free: payload }),
            6 => Ok(TraceAction::Snapshot { addr: payload }),
            _ => Err(DecodeError::InvalidTraceActionValue(value)),
        }
    }

    /// The tag byte and the number that stand for this event.
    pub fn to_parts(self) -> (parts: (u8, u64))
        ensures
            parts.0 == self.tag(),
            parts.1 == self.payload(),
            TraceAction::is_tag(parts.0),
            TraceAction::spec_from_parts(parts.0, parts.1) == self,
    {
        match self {
            TraceAction::Alloc { addr } => (0, addr),
            TraceAction::FreeRequested { addr } => (1, addr),
            TraceAction::FreeCompleted { addr } => (2, addr),
            TraceAction::SegmentAlloc { addr } => (3, addr),
            TraceAction::SegmentFree { addr } => (4, addr),
            TraceAction::Oom { device_free } => (5, device_free),
            TraceAction::Snapshot { addr } => (6, addr),
        }
    }
}

/// One recorded allocator event with its call stack.
#[derive(Debug, Clone, PartialEq, Eq)]
pub struct TraceEntry {
    pub action: TraceAction,
    pub frames: Vec<Frame>,
    pub size: u64,
    pub stream: i64,
}

/// The model of a [`TraceEntry`].
pub struct TraceEntryView {
    pub action: TraceAction,
    pub frames: Seq<FrameView>,
    pub size: u64,
    pub stream: i64,
}

impl View for TraceEntry {
    type V = TraceEntryView;

    open spec fn view(&self) -> TraceEntryView {
        TraceEntryView {
            action: self.action,
            frames: self.frames.deep_view(),
            size: self.size,
            stream: self.stream,
        }
    }
}

impl DeepView for TraceEntry {
    type V = TraceEntryView;

    open spec fn deep_view(&self) -> TraceEntryView {
        self@
    }
}

/// A decoded capture: the segments, and one ordered trace per device.
#[derive(Debug, Clone, PartialEq, Eq)]
pub struct Snapshot {
    pub segments: Vec<Segment>,
    pub device_traces: Vec<Vec<TraceEntry>>,
}

/// The model of a [`Snapshot`].
pub struct SnapshotView {
    pub segments: Seq<SegmentView>,
    pub device_traces: Seq<Seq<TraceEntryView>>,
}

impl View for Snapshot {
    type V = SnapshotView;

    open spec fn view(&self) -> SnapshotView {
        SnapshotView {
            segments: self.segments.deep_view(),
            device_traces: self.device_traces.deep_view(),
        }
    }
}

impl DeepView for Snapshot {
    type V = SnapshotView;

    open spec fn deep_view(&self) -> SnapshotView {
        self@
    }
}

} // verus!
