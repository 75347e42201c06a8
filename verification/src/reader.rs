//! The decoder: executable code that reads a capture off a byte slice, one
//! field after another, and is proved to agree with the layout of
//! [`crate::wire`] on every input.
use vstd::prelude::*;
use vstd::slice::{slice_subrange, slice_to_vec};
use vstd::utf8::{decode_utf8, valid_utf8};
use crate::snapshot::{
    Block, BlockState, BlockView, DecodeError, Frame, FrameView, Segment, SegmentType,
    SegmentView, Snapshot, TraceAction, TraceEntry, TraceEntryView,
};
use crate::wire::{
    as_signed, le_u32, le_u64, lemma_prepend_step, magic, parse_header, parse_many,
    parse_snapshot, parse_table, prepend, take_bytes, take_i64, take_u32, take_u64, take_u8,
    texts, Parsed, Table, Text, Wire, FORMAT_VERSION,
};

verus! {

/// `std::string::FromUtf8Error`: why bytes are not UTF-8. Nothing is said of
/// what it holds; it is only told apart from success.
#[verifier::external_type_specification]
#[verifier::external_body]
pub struct ExFromUtf8Error(std::string::FromUtf8Error);

/// `String::from_utf8` of std. Believed of it: it succeeds exactly on valid
/// UTF-8, and the string it then returns is the text those bytes encode.
#[verifier::external_body]
fn string_from_utf8(bytes: Vec<u8>) -> (r: Result<String, std::string::FromUtf8Error>)
    ensures
        r is Ok <==> valid_utf8(bytes@),
        r matches Ok(s) ==> s@ == decode_utf8(bytes@),
{
    String::from_utf8(bytes)
}

/// Whether what the decoder returned, and the bytes it left unread, are what
/// the layout says.
pub open spec fn agrees<T: DeepView>(
    r: Result<T, DecodeError>,
    left: Seq<u8>,
    expected: Parsed<T::V>,
) -> bool {
    match expected {
        Ok((v, rest)) => r matches Ok(x) && x.deep_view() == v && left == rest,
        Err(e) => r matches Err(f) && f == e,
    }
}

/// The 32-bit number at `at`.
fn le_u32_at(data: &[u8], at: usize) -> (v: u32)
    requires
        at + 4 <= data@.len(),
    ensures
        v == le_u32(data@.subrange(at as int, at + 4)),
{
    let total: usize = data.len();
    assert(at + 4 <= total);
    let b0: u32 = data[at] as u32;
    let b1: u32 = data[at + 1] as u32;
    let b2: u32 = data[at + 2] as u32;
    let b3: u32 = data[at + 3] as u32;
    b0 + 0x100 * b1 + 0x1_0000 * b2 + 0x100_0000 * b3
}

/// The 64-bit number at `at`.
fn le_u64_at(data: &[u8], at: usize) -> (v: u64)
    requires
        at + 8 <= data@.len(),
    ensures
        v == le_u64(data@.subrange(at as int, at + 8)),
{
    let total: usize = data.len();
    assert(at + 8 <= total);
    let lo: u64 = le_u32_at(data, at) as u64;
    let hi: u64 = le_u32_at(data, at + 4) as u64;
    proof {
        let b = data@.subrange(at as int, at + 8);
        assert(b.subrange(0, 4) =~= data@.subrange(at as int, at + 4));
        assert(b.subrange(4, 8) =~= data@.subrange(at + 4, at + 8));
    }
    lo + 0x1_0000_0000 * hi
}

/// The signed number with the bits of `u`.
fn signed_of(u: u64) -> (i: i64)
    ensures
        i == as_signed(u),
{
    if u < 0x8000_0000_0000_0000 {
        u as i64
    } else {
        let low: i64 = (u - 0x8000_0000_0000_0000) as i64;
        low + i64::MIN
    }
}

/// A cursor over the bytes of a capture, with the string table read so far.
pub struct SnapshotReader<'a> {
    data: &'a [u8],
    pos: usize,
    string_table: Vec<String>,
}

impl<'a> SnapshotReader<'a> {
    #[verifier::type_invariant]
    spec fn within(self) -> bool {
        self.pos <= self.data@.len()
    }

    /// The bytes not read yet.
    pub closed spec fn remaining(self) -> Seq<u8> {
        self.data@.skip(self.pos as int)
    }

    /// The string table, as far as it has been read.
    pub closed spec fn table(self) -> Table {
        self.string_table.deep_view()
    }

    /// A reader at the start of `data`, with an empty string table.
    pub fn new(data: &'a [u8]) -> (reader: Self)
        ensures
            reader.remaining() == data@,
            reader.table() == Seq::<Seq<char>>::empty(),
    {
        let reader = SnapshotReader { data, pos: 0, string_table: Vec::new() };
        proof {
            assert(data@.skip(0) =~= data@);
            assert(reader.string_table.deep_view() =~= Seq::<Seq<char>>::empty());
        }
        reader
    }

    /// Reads `count` raw bytes, or fails if fewer are left.
    pub fn read_exact_bytes(&mut self, count: usize) -> (r: Result<Vec<u8>, DecodeError>)
        ensures
            final(self).table() == old(self).table(),
            agrees(r, final(self).remaining(), take_bytes(old(self).remaining(), count as nat)),
    {
        proof {
            use_type_invariant(&*self);
            reveal(take_bytes);
        }
        if self.data.len() - self.pos < count {
            return Err(DecodeError::UnexpectedEof);
        }
        let end: usize = self.pos + count;
        let bytes = slice_to_vec(slice_subrange(self.data, self.pos, end));
        proof {
            let left = self.remaining();
            assert(bytes@ =~= left.take(count as int));
            assert(bytes.deep_view() =~= bytes@);
            assert(self.data@.skip(end as int) =~= left.skip(count as int));
        }
        self.pos = end;
        Ok(bytes)
    }

    /// Reads one byte.
    pub fn read_u8(&mut self) -> (r: Result<u8, DecodeError>)
        ensures
            final(self).table() == old(self).table(),
            agrees(r, final(self).remaining(), take_u8(old(self).remaining())),
    {
        proof {
            use_type_invariant(&*self);
            reveal(take_u8);
        }
        if self.data.len() - self.pos < 1 {
            return Err(DecodeError::UnexpectedEof);
        }
        let v: u8 = self.data[self.pos];
        proof {
            assert(self.data@.skip(self.pos + 1) =~= self.remaining().skip(1));
        }
        self.pos = self.pos + 1;
        Ok(v)
    }

    /// Reads a little-endian 32-bit number.
    pub fn read_u32_le(&mut self) -> (r: Result<u32, DecodeError>)
        ensures
            final(self).table() == old(self).table(),
            agrees(r, final(self).remaining(), take_u32(old(self).remaining())),
    {
        proof {
            use_type_invariant(&*self);
            reveal(take_u32);
        }
        if self.data.len() - self.pos < 4 {
            return Err(DecodeError::UnexpectedEof);
        }
        let v: u32 = le_u32_at(self.data, self.pos);
        proof {
            let left = self.remaining();
            assert(self.data@.subrange(self.pos as int, self.pos + 4) =~= left.take(4));
            assert(self.data@.skip(self.pos + 4) =~= left.skip(4));
        }
        self.pos = self.pos + 4;
        Ok(v)
    }

    /// Reads a little-endian 64-bit number.
    pub fn read_u64_le(&mut self) -> (r: Result<u64, DecodeError>)
        ensures
            final(self).table() == old(self).table(),
            agrees(r, final(self).remaining(), take_u64(old(self).remaining())),
    {
        proof {
            use_type_invariant(&*self);
            reveal(take_u64);
        }
        if self.data.len() - self.pos < 8 {
            return Err(DecodeError::UnexpectedEof);
        }
        let v: u64 = le_u64_at(self.data, self.pos);
        proof {
            let left = self.remaining();
            assert(self.data@.subrange(self.pos as int, self.pos + 8) =~= left.take(8));
            assert(self.data@.skip(self.pos + 8) =~= left.skip(8));
        }
        self.pos = self.pos + 8;
        Ok(v)
    }

    /// Reads a little-endian signed 64-bit number.
    pub fn read_i64_le(&mut self) -> (r: Result<i64, DecodeError>)
        ensures
            final(self).table() == old(self).table(),
            agrees(r, final(self).remaining(), take_i64(old(self).remaining())),
    {
        proof {
            reveal(take_u64);
            reveal(take_i64);
        }
        let u: u64 = self.read_u64_le()?;
        Ok(signed_of(u))
    }

    /// Reads the header and checks the magic bytes and the version.
    pub fn decode_header(&mut self) -> (r: Result<(), DecodeError>)
        ensures
            final(self).table() == old(self).table(),
            match parse_header(old(self).remaining()) {
                Ok(rest) => r is Ok && final(self).remaining() == rest,
                Err(e) => r == Err::<(), DecodeError>(e),
            },
    {
        proof {
            reveal(take_bytes);
        }
        let word = self.read_exact_bytes(4)?;
        assert(word.deep_view() =~= word@);
        if word[0] != 0x53 || word[1] != 0x4e || word[2] != 0x41 || word[3] != 0x50 {
            return Err(DecodeError::InvalidMagicNumber);
        }
        assert(word@ =~= magic());
        let version = self.read_u8()?;
        if version != FORMAT_VERSION {
            return Err(DecodeError::UnsupportedFormatVersion(version));
        }
        Ok(())
    }

    /// Reads one text of the string table.
    fn decode_text(&mut self) -> (r: Result<String, DecodeError>)
        ensures
            final(self).table() == old(self).table(),
            match Text::parse(old(self).remaining(), Seq::empty()) {
                Ok((text, rest)) => r matches Ok(s) && s@ == text.0 && final(self).remaining()
                    == rest,
                Err(e) => r == Err::<String, DecodeError>(e),
            },
    {
        let len = self.read_u32_le()?;
        let bytes = self.read_exact_bytes(len as usize)?;
        assert(bytes.deep_view() =~= bytes@);
        match string_from_utf8(bytes) {
            Ok(s) => Ok(s),
            Err(_) => Err(DecodeError::Utf8),
        }
    }

    /// Reads the string table and keeps it for the frames that follow.
    pub fn decode_string_table_and_store(&mut self) -> (r: Result<(), DecodeError>)
        ensures
            match parse_table(old(self).remaining()) {
                Ok((table, rest)) => r is Ok && final(self).table() == table && final(self).remaining() == rest,
                Err(e) => r == Err::<(), DecodeError>(e),
            },
    {
        let ghost entry = self.remaining();
        let count = self.read_u32_le()?;
        let mut strings: Vec<String> = Vec::new();
        let ghost start = self.remaining();
        let ghost done: Seq<Text> = Seq::empty();
        let ghost none: Table = Seq::empty();
        proof {
            assert(strings.deep_view() =~= texts(done));
        }
        let mut i: u32 = 0;
        while i < count
            invariant
                i <= count,
                take_u32(entry) == Ok::<(u32, Seq<u8>), DecodeError>((count, start)),
                entry == old(self).remaining(),
                none == Seq::<Seq<char>>::empty(),
                strings.deep_view() == texts(done),
                prepend(done, parse_many::<Text>(self.remaining(), none, (count - i) as nat))
                    == parse_many::<Text>(start, none, count as nat),
            decreases count - i,
        {
            let s = self.decode_text()?;
            let ghost before = strings.deep_view();
            let ghost added = s@;
            proof {
                let then = parse_many::<Text>(self.remaining(), none, (count - i - 1) as nat);
                lemma_prepend_step(done, Text(added), then);
                assert(before.push(added) =~= texts(done.push(Text(added))));
                done = done.push(Text(added));
            }
            strings.push(s);
            proof {
                assert(strings.deep_view() =~= before.push(added));
            }
            i = i + 1;
        }
        proof {
            assert(done + Seq::<Text>::empty() =~= done);
        }
        proof {
            use_type_invariant(&*self);
        }
        self.string_table = strings;
        Ok(())
    }

    /// The text of a string id.
    pub fn get_string(&self, id: u32) -> (r: Result<&String, DecodeError>)
        ensures
            id < self.table().len() ==> (r matches Ok(s) && s@ == self.table()[id as int]),
            id >= self.table().len() ==> r == Err::<&String, DecodeError>(
                DecodeError::InvalidStringId(id, self.table().len() as usize),
            ),
    {
        if (id as usize) < self.string_table.len() {
            Ok(&self.string_table[id as usize])
        } else {
            Err(DecodeError::InvalidStringId(id, self.string_table.len()))
        }
    }

    /// Reads one frame and resolves its two string ids.
    pub fn decode_frame(&mut self) -> (r: Result<Frame, DecodeError>)
        ensures
            final(self).table() == old(self).table(),
            agrees(
                r,
                final(self).remaining(),
                FrameView::parse(old(self).remaining(), old(self).table()),
            ),
    {
        let filename_id = self.read_u32_le()?;
        let line = self.read_u32_le()?;
        let name_id = self.read_u32_le()?;
        let filename = self.get_string(filename_id)?.clone();
        let name = self.get_string(name_id)?.clone();
        Ok(Frame { filename, line, name })
    }

    /// Reads a counted list of frames.
    pub fn decode_frames(&mut self) -> (r: Result<Vec<Frame>, DecodeError>)
        ensures
            final(self).table() == old(self).table(),
            agrees(
                r,
                final(self).remaining(),
                Seq::<FrameView>::parse(old(self).remaining(), old(self).table()),
            ),
    {
        let ghost entry = self.remaining();
        let ghost table = self.table();
        let count = self.read_u32_le()?;
        let ghost start = self.remaining();
        let mut frames: Vec<Frame> = Vec::new();
        let mut i: u32 = 0;
        while i < count
            invariant
                i <= count,
                take_u32(entry) == Ok::<(u32, Seq<u8>), DecodeError>((count, start)),
                entry == old(self).remaining(),
                table == old(self).table(),
                self.table() == table,
                prepend(
                    frames.deep_view(),
                    parse_many::<FrameView>(self.remaining(), table, (count - i) as nat),
                ) == parse_many::<FrameView>(start, table, count as nat),
            decreases count - i,
        {
            let frame = self.decode_frame()?;
            let ghost before = frames.deep_view();
            let ghost added = frame@;
            proof {
                let then = parse_many::<FrameView>(self.remaining(), table, (count - i - 1) as nat);
                lemma_prepend_step(before, added, then);
            }
            frames.push(frame);
            proof {
                assert(frames.deep_view() =~= before.push(added));
            }
            i = i + 1;
        }
        proof {
            assert(frames.deep_view() + Seq::<FrameView>::empty() =~= frames.deep_view());
        }
        Ok(frames)
    }

    /// Reads one block.
    pub fn decode_block(&mut self) -> (r: Result<Block, DecodeError>)
        ensures
            final(self).table() == old(self).table(),
            agrees(
                r,
                final(self).remaining(),
                BlockView::parse(old(self).remaining(), old(self).table()),
            ),
    {
        let size = self.read_u64_le()?;
        let requested_size = self.read_u64_le()?;
        let address = self.read_u64_le()?;
        let state_val = self.read_u8()?;
        let state = BlockState::from_u8(state_val)?;
        let frames = self.decode_frames()?;
        Ok(Block { size, requested_size, address, state, frames })
    }

    /// Reads a counted list of blocks.
    pub fn decode_blocks(&mut self) -> (r: Result<Vec<Block>, DecodeError>)
        ensures
            final(self).table() == old(self).table(),
            agrees(
                r,
                final(self).remaining(),
                Seq::<BlockView>::parse(old(self).remaining(), old(self).table()),
            ),
    {
        let ghost entry = self.remaining();
        let ghost table = self.table();
        let count = self.read_u32_le()?;
        let ghost start = self.remaining();
        let mut blocks: Vec<Block> = Vec::new();
        let mut i: u32 = 0;
        while i < count
            invariant
                i <= count,
                take_u32(entry) == Ok::<(u32, Seq<u8>), DecodeError>((count, start)),
                entry == old(self).remaining(),
                table == old(self).table(),
                self.table() == table,
                prepend(
                    blocks.deep_view(),
                    parse_many::<BlockView>(self.remaining(), table, (count - i) as nat),
                ) == parse_many::<BlockView>(start, table, count as nat),
            decreases count - i,
        {
            let block = self.decode_block()?;
            let ghost before = blocks.deep_view();
            let ghost added = block@;
            proof {
                let then = parse_many::<BlockView>(self.remaining(), table, (count - i - 1) as nat);
                lemma_prepend_step(before, added, then);
            }
            blocks.push(block);
            proof {
                assert(blocks.deep_view() =~= before.push(added));
            }
            i = i + 1;
        }
        proof {
            assert(blocks.deep_view() + Seq::<BlockView>::empty() =~= blocks.deep_view());
        }
        Ok(blocks)
    }

    /// Reads one segment.
    pub fn decode_segment(&mut self) -> (r: Result<Segment, DecodeError>)
        ensures
            final(self).table() == old(self).table(),
            agrees(
                r,
                final(self).remaining(),
                SegmentView::parse(old(self).remaining(), old(self).table()),
            ),
    {
        let address = self.read_u64_le()?;
        let total_size = self.read_u64_le()?;
        let stream = self.read_i64_le()?;
        let segment_type_val = self.read_u8()?;
        let segment_type = SegmentType::from_u8(segment_type_val)?;
        let allocated_size = self.read_u64_le()?;
        let active_size = self.read_u64_le()?;
        let blocks = self.decode_blocks()?;
        Ok(
            Segment {
                address,
                total_size,
                stream,
                segment_type,
                allocated_size,
                active_size,
                blocks,
            },
        )
    }

    /// Reads a counted list of segments.
    pub fn decode_segments(&mut self) -> (r: Result<Vec<Segment>, DecodeError>)
        ensures
            final(self).table() == old(self).table(),
            agrees(
                r,
                final(self).remaining(),
                Seq::<SegmentView>::parse(old(self).remaining(), old(self).table()),
            ),
    {
        let ghost entry = self.remaining();
        let ghost table = self.table();
        let count = self.read_u32_le()?;
        let ghost start = self.remaining();
        let mut segments: Vec<Segment> = Vec::new();
        let mut i: u32 = 0;
        while i < count
            invariant
                i <= count,
                take_u32(entry) == Ok::<(u32, Seq<u8>), DecodeError>((count, start)),
                entry == old(self).remaining(),
                table == old(self).table(),
                self.table() == table,
                prepend(
                    segments.deep_view(),
                    parse_many::<SegmentView>(self.remaining(), table, (count - i) as nat),
                ) == parse_many::<SegmentView>(start, table, count as nat),
            decreases count - i,
        {
            let segment = self.decode_segment()?;
            let ghost before = segments.deep_view();
            let ghost added = segment@;
            proof {
                let then = parse_many::<SegmentView>(self.remaining(), table, (count - i - 1) as nat);
                lemma_prepend_step(before, added, then);
            }
            segments.push(segment);
            proof {
                assert(segments.deep_view() =~= before.push(added));
            }
            i = i + 1;
        }
        proof {
            assert(segments.deep_view() + Seq::<SegmentView>::empty() =~= segments.deep_view());
        }
        Ok(segments)
    }

    /// Reads one trace entry.
    pub fn decode_trace_entry(&mut self) -> (r: Result<TraceEntry, DecodeError>)
        ensures
            final(self).table() == old(self).table(),
            agrees(
                r,
                final(self).remaining(),
                TraceEntryView::parse(old(self).remaining(), old(self).table()),
            ),
    {
        let action_val = self.read_u8()?;
        let stream = self.read_i64_le()?;
        let size = self.read_u64_le()?;
        let action = match action_val {
            0 => TraceAction::Alloc { addr: self.read_u64_le()? },
            1 => TraceAction::FreeRequested { addr: self.read_u64_le()? },
            2 => TraceAction::FreeCompleted { addr: self.read_u64_le()? },
            3 => TraceAction::SegmentAlloc { addr: self.read_u64_le()? },
            4 => TraceAction::SegmentFree { addr: self.read_u64_le()? },
            5 => TraceAction::Oom { device_free: self.read_u64_le()? },
            6 => TraceAction::Snapshot { addr: self.read_u64_le()? },
            _ => {
                return Err(DecodeError::InvalidTraceActionValue(action_val));
            },
        };
        let frames = self.decode_frames()?;
        Ok(TraceEntry { action, frames, size, stream })
    }

    /// Reads a counted list of trace entries: the trace of one device.
    pub fn decode_trace_entries(&mut self) -> (r: Result<Vec<TraceEntry>, DecodeError>)
        ensures
            final(self).table() == old(self).table(),
            agrees(
                r,
                final(self).remaining(),
                Seq::<TraceEntryView>::parse(old(self).remaining(), old(self).table()),
            ),
    {
        let ghost entry = self.remaining();
        let ghost table = self.table();
        let count = self.read_u32_le()?;
        let ghost start = self.remaining();
        let mut entries: Vec<TraceEntry> = Vec::new();
        let mut i: u32 = 0;
        while i < count
            invariant
                i <= count,
                take_u32(entry) == Ok::<(u32, Seq<u8>), DecodeError>((count, start)),
                entry == old(self).remaining(),
                table == old(self).table(),
                self.table() == table,
                prepend(
                    entries.deep_view(),
                    parse_many::<TraceEntryView>(self.remaining(), table, (count - i) as nat),
                ) == parse_many::<TraceEntryView>(start, table, count as nat),
            decreases count - i,
        {
            let item = self.decode_trace_entry()?;
            let ghost before = entries.deep_view();
            let ghost added = item@;
            proof {
                let then = parse_many::<TraceEntryView>(self.remaining(), table, (count - i - 1) as nat);
                lemma_prepend_step(before, added, then);
            }
            entries.push(item);
            proof {
                assert(entries.deep_view() =~= before.push(added));
            }
            i = i + 1;
        }
        proof {
            assert(entries.deep_view() + Seq::<TraceEntryView>::empty() =~= entries.deep_view());
        }
        Ok(entries)
    }

    /// Reads the traces of all devices: a counted list of counted lists.
    pub fn decode_device_traces(&mut self) -> (r: Result<Vec<Vec<TraceEntry>>, DecodeError>)
        ensures
            final(self).table() == old(self).table(),
            agrees(
                r,
                final(self).remaining(),
                Seq::<Seq<TraceEntryView>>::parse(old(self).remaining(), old(self).table()),
            ),
    {
        let ghost entry = self.remaining();
        let ghost table = self.table();
        let count = self.read_u32_le()?;
        let ghost start = self.remaining();
        let mut traces: Vec<Vec<TraceEntry>> = Vec::new();
        let mut i: u32 = 0;
        while i < count
            invariant
                i <= count,
                take_u32(entry) == Ok::<(u32, Seq<u8>), DecodeError>((count, start)),
                entry == old(self).remaining(),
                table == old(self).table(),
                self.table() == table,
                prepend(
                    traces.deep_view(),
                    parse_many::<Seq<TraceEntryView>>(self.remaining(), table, (count - i) as nat),
                ) == parse_many::<Seq<TraceEntryView>>(start, table, count as nat),
            decreases count - i,
        {
            let trace = self.decode_trace_entries()?;
            let ghost before = traces.deep_view();
            let ghost added = trace.deep_view();
            proof {
                let then = parse_many::<Seq<TraceEntryView>>(self.remaining(), table, (count - i - 1) as nat);
                lemma_prepend_step(before, added, then);
            }
            traces.push(trace);
            proof {
                assert(traces.deep_view() =~= before.push(added));
            }
            i = i + 1;
        }
        proof {
            assert(traces.deep_view() + Seq::<Seq<TraceEntryView>>::empty() =~= traces.deep_view());
        }
        Ok(traces)
    }
}

/// Decodes a whole capture.
///
/// The result is exactly what the layout says of these bytes: the capture
/// that they hold, or the first failure met while reading them in order.
/// Bytes after the device traces are not looked at.
pub fn decode_snapshot(bytes: &[u8]) -> (r: Result<Snapshot, DecodeError>)
    ensures
        match parse_snapshot(bytes@) {
            Ok(v) => r matches Ok(snapshot) && snapshot@ == v,
            Err(e) => r == Err::<Snapshot, DecodeError>(e),
        },
{
    let mut reader = SnapshotReader::new(bytes);
    reader.decode_header()?;
    reader.decode_string_table_and_store()?;
    let segments = reader.decode_segments()?;
    let device_traces = reader.decode_device_traces()?;
    Ok(Snapshot { segments, device_traces })
}

} // verus!
