//! The byte layout of a capture, as mathematics.
//!
//! A layout is a pair of functions on byte sequences. `parse` reads one value
//! off the front of a sequence and hands back what is left, or fails. `put`
//! writes a value in front of a sequence. [`Wire::lemma_roundtrip`] says that
//! `parse` undoes `put`, and [`lemma_snapshot_roundtrip`] says it of a whole
//! capture.
//!
//! All integers are little-endian and unsigned unless noted; nothing is padded
//! or aligned. Text is held once, in a string table at the head of the
//! capture, and a frame names its two strings by their position in it.
use vstd::prelude::*;
use vstd::utf8::{decode_utf8, encode_utf8, valid_utf8};
use vstd::utf8::{encode_utf8_decode_utf8, encode_utf8_valid_utf8};
use crate::snapshot::{
    BlockState, BlockView, DecodeError, FrameView, SegmentType, SegmentView, SnapshotView,
    TraceAction, TraceEntryView,
};

verus! {

/// A value read off the front of a byte sequence, with the bytes after it.
pub type Parsed<T> = Result<(T, Seq<u8>), DecodeError>;

/// The string table: the text of each id, in order.
pub type Table = Seq<Seq<char>>;

/// An interning of text: the id under which each string is written.
pub type Ids = Map<Seq<char>, u32>;

/// The four bytes every capture starts with: `SNAP` in ASCII.
pub open spec fn magic() -> Seq<u8> {
    seq![0x53u8, 0x4eu8, 0x41u8, 0x50u8]
}

/// The one format version that is understood.
pub const FORMAT_VERSION: u8 = 1;

// ---------------------------------------------------------------------------
// Numbers
// ---------------------------------------------------------------------------

/// The number that four little-endian bytes stand for.
pub open spec fn le_u32(b: Seq<u8>) -> u32
    recommends
        b.len() == 4,
{
    (b[0] + 0x100 * b[1] + 0x1_0000 * b[2] + 0x100_0000 * b[3]) as u32
}

/// The four little-endian bytes of a number.
pub open spec fn u32_le_bytes(v: u32) -> Seq<u8> {
    seq![
        (v % 0x100) as u8,
        ((v / 0x100) % 0x100) as u8,
        ((v / 0x1_0000) % 0x100) as u8,
        (v / 0x100_0000) as u8,
    ]
}

/// The number that eight little-endian bytes stand for.
pub open spec fn le_u64(b: Seq<u8>) -> u64
    recommends
        b.len() == 8,
{
    (le_u32(b.subrange(0, 4)) + 0x1_0000_0000 * le_u32(b.subrange(4, 8))) as u64
}

/// The eight little-endian bytes of a number.
pub open spec fn u64_le_bytes(v: u64) -> Seq<u8> {
    u32_le_bytes((v % 0x1_0000_0000) as u32) + u32_le_bytes((v / 0x1_0000_0000) as u32)
}

/// The signed number with the same 64 bits, in two's complement.
pub open spec fn as_signed(u: u64) -> i64 {
    if u < 0x8000_0000_0000_0000 {
        u as i64
    } else {
        (u - 0x1_0000_0000_0000_0000) as i64
    }
}

/// The unsigned number with the same 64 bits, in two's complement.
pub open spec fn as_unsigned(i: i64) -> u64 {
    if i >= 0 {
        i as u64
    } else {
        (i + 0x1_0000_0000_0000_0000) as u64
    }
}

/// The four bytes of a number stand for that number.
pub proof fn lemma_u32_le_roundtrip(v: u32)
    ensures
        u32_le_bytes(v).len() == 4,
        le_u32(u32_le_bytes(v)) == v,
{
    assert(v == (v % 0x100) + 0x100 * ((v / 0x100) % 0x100) + 0x1_0000 * ((v / 0x1_0000) % 0x100)
        + 0x100_0000 * (v / 0x100_0000));
}

/// The eight bytes of a number stand for that number.
pub proof fn lemma_u64_le_roundtrip(v: u64)
    ensures
        u64_le_bytes(v).len() == 8,
        le_u64(u64_le_bytes(v)) == v,
{
    let lo = (v % 0x1_0000_0000) as u32;
    let hi = (v / 0x1_0000_0000) as u32;
    lemma_u32_le_roundtrip(lo);
    lemma_u32_le_roundtrip(hi);
    let b = u64_le_bytes(v);
    assert(b.subrange(0, 4) =~= u32_le_bytes(lo));
    assert(b.subrange(4, 8) =~= u32_le_bytes(hi));
}

/// A signed number keeps its value through its unsigned form.
pub proof fn lemma_signed_roundtrip(i: i64)
    ensures
        as_signed(as_unsigned(i)) == i,
{
}

// ---------------------------------------------------------------------------
// Fixed-width fields
// ---------------------------------------------------------------------------

/// Reads `n` raw bytes.
#[verifier::opaque]
pub open spec fn take_bytes(s: Seq<u8>, n: nat) -> Parsed<Seq<u8>> {
    if s.len() < n {
        Err(DecodeError::UnexpectedEof)
    } else {
        Ok((s.take(n as int), s.skip(n as int)))
    }
}

/// Reads one byte.
#[verifier::opaque]
pub open spec fn take_u8(s: Seq<u8>) -> Parsed<u8> {
    if s.len() < 1 {
        Err(DecodeError::UnexpectedEof)
    } else {
        Ok((s[0], s.skip(1)))
    }
}

/// Reads a 32-bit number.
#[verifier::opaque]
pub open spec fn take_u32(s: Seq<u8>) -> Parsed<u32> {
    if s.len() < 4 {
        Err(DecodeError::UnexpectedEof)
    } else {
        Ok((le_u32(s.take(4)), s.skip(4)))
    }
}

/// Reads a 64-bit number.
#[verifier::opaque]
pub open spec fn take_u64(s: Seq<u8>) -> Parsed<u64> {
    if s.len() < 8 {
        Err(DecodeError::UnexpectedEof)
    } else {
        Ok((le_u64(s.take(8)), s.skip(8)))
    }
}

/// Reads a signed 64-bit number.
#[verifier::opaque]
pub open spec fn take_i64(s: Seq<u8>) -> Parsed<i64> {
    if s.len() < 8 {
        Err(DecodeError::UnexpectedEof)
    } else {
        Ok((as_signed(le_u64(s.take(8))), s.skip(8)))
    }
}

/// Writes one byte in front of `rest`.
#[verifier::opaque]
pub open spec fn put_u8(v: u8, rest: Seq<u8>) -> Seq<u8> {
    seq![v] + rest
}

/// Writes a 32-bit number in front of `rest`.
#[verifier::opaque]
pub open spec fn put_u32(v: u32, rest: Seq<u8>) -> Seq<u8> {
    u32_le_bytes(v) + rest
}

/// Writes a 64-bit number in front of `rest`.
#[verifier::opaque]
pub open spec fn put_u64(v: u64, rest: Seq<u8>) -> Seq<u8> {
    u64_le_bytes(v) + rest
}

/// Writes a signed 64-bit number in front of `rest`.
#[verifier::opaque]
pub open spec fn put_i64(v: i64, rest: Seq<u8>) -> Seq<u8> {
    u64_le_bytes(as_unsigned(v)) + rest
}

/// Reading as many bytes as were written gives those bytes back.
pub proof fn lemma_take_put_bytes(b: Seq<u8>, rest: Seq<u8>)
    ensures
        take_bytes(b + rest, b.len()) == Ok::<(Seq<u8>, Seq<u8>), DecodeError>((b, rest)),
{
    reveal(take_bytes);
    assert((b + rest).take(b.len() as int) =~= b);
    assert((b + rest).skip(b.len() as int) =~= rest);
}

/// Reading a byte that was written gives it back.
pub proof fn lemma_take_put_u8(v: u8, rest: Seq<u8>)
    ensures
        take_u8(put_u8(v, rest)) == Ok::<(u8, Seq<u8>), DecodeError>((v, rest)),
{
    reveal(take_u8);
    reveal(put_u8);
    assert(put_u8(v, rest).skip(1) =~= rest);
}

/// Reading a 32-bit number that was written gives it back.
pub proof fn lemma_take_put_u32(v: u32, rest: Seq<u8>)
    ensures
        take_u32(put_u32(v, rest)) == Ok::<(u32, Seq<u8>), DecodeError>((v, rest)),
{
    reveal(take_u32);
    reveal(put_u32);
    reveal(take_bytes);
    lemma_u32_le_roundtrip(v);
    lemma_take_put_bytes(u32_le_bytes(v), rest);
}

/// Reading a 64-bit number that was written gives it back.
pub proof fn lemma_take_put_u64(v: u64, rest: Seq<u8>)
    ensures
        take_u64(put_u64(v, rest)) == Ok::<(u64, Seq<u8>), DecodeError>((v, rest)),
{
    reveal(take_u64);
    reveal(put_u64);
    reveal(take_bytes);
    lemma_u64_le_roundtrip(v);
    lemma_take_put_bytes(u64_le_bytes(v), rest);
}

/// Reading a signed 64-bit number that was written gives it back.
pub proof fn lemma_take_put_i64(v: i64, rest: Seq<u8>)
    ensures
        take_i64(put_i64(v, rest)) == Ok::<(i64, Seq<u8>), DecodeError>((v, rest)),
{
    reveal(take_i64);
    reveal(put_i64);
    reveal(take_bytes);
    lemma_u64_le_roundtrip(as_unsigned(v));
    lemma_take_put_bytes(u64_le_bytes(as_unsigned(v)), rest);
    lemma_signed_roundtrip(v);
}

// ---------------------------------------------------------------------------
// Layouts
// ---------------------------------------------------------------------------

/// A value with a place in the layout of a capture.
pub trait Wire: Sized {
    /// Reads one value off the front of `s`, resolving string ids in `table`.
    spec fn parse(s: Seq<u8>, table: Table) -> Parsed<Self>;

    /// Writes the value in front of `rest`, naming each string by its id.
    spec fn put(self, ids: Ids, rest: Seq<u8>) -> Seq<u8>;

    /// Whether the value can be written: every count fits its field, and
    /// every string has an id that `table` resolves back to it.
    spec fn encodable(self, table: Table, ids: Ids) -> bool;

    /// Reading what was written gives the value back, and leaves what
    /// followed it.
    proof fn lemma_roundtrip(self, table: Table, ids: Ids, rest: Seq<u8>)
        requires
            self.encodable(table, ids),
        ensures
            Self::parse(self.put(ids, rest), table) == Ok::<(Self, Seq<u8>), DecodeError>(
                (self, rest),
            ),
    ;
}

/// Reads `n` values one after another.
pub open spec fn parse_many<T: Wire>(s: Seq<u8>, table: Table, n: nat) -> Parsed<Seq<T>>
    decreases n,
{
    if n == 0 {
        Ok((Seq::empty(), s))
    } else {
        match T::parse(s, table) {
            Err(e) => Err(e),
            Ok((first, s1)) => prepend(seq![first], parse_many::<T>(s1, table, (n - 1) as nat)),
        }
    }
}

/// The outcome `then`, with `done` in front of the values it read.
pub open spec fn prepend<T>(done: Seq<T>, then: Parsed<Seq<T>>) -> Parsed<Seq<T>> {
    match then {
        Err(e) => Err(e),
        Ok((more, rest)) => Ok((done + more, rest)),
    }
}

/// Writes the values one after another in front of `rest`.
pub open spec fn put_many<T: Wire>(items: Seq<T>, ids: Ids, rest: Seq<u8>) -> Seq<u8>
    decreases items.len(),
{
    if items.len() == 0 {
        rest
    } else {
        items[0].put(ids, put_many(items.skip(1), ids, rest))
    }
}

/// Reading one more value after `done` is reading it as part of the rest.
pub proof fn lemma_prepend_step<T>(done: Seq<T>, next: T, then: Parsed<Seq<T>>)
    ensures
        prepend(done, prepend(seq![next], then)) == prepend(done.push(next), then),
{
    if let Ok((more, rest)) = then {
        assert(done + (seq![next] + more) =~= done.push(next) + more);
    }
}

/// Reading as many values as were written gives them back, in order.
pub proof fn lemma_many_roundtrip<T: Wire>(items: Seq<T>, table: Table, ids: Ids, rest: Seq<u8>)
    requires
        forall|i: int| 0 <= i < items.len() ==> (#[trigger] items[i]).encodable(table, ids),
    ensures
        parse_many::<T>(put_many(items, ids, rest), table, items.len()) == Ok::<
            (Seq<T>, Seq<u8>),
            DecodeError,
        >((items, rest)),
    decreases items.len(),
{
    if items.len() == 0 {
        assert(items =~= Seq::empty());
    } else {
        let tail = items.skip(1);
        lemma_many_roundtrip(tail, table, ids, rest);
        items[0].lemma_roundtrip(table, ids, put_many(tail, ids, rest));
        assert(seq![items[0]] + tail =~= items);
    }
}

/// A list: a 32-bit count, then that many values.
impl<T: Wire> Wire for Seq<T> {
    open spec fn parse(s: Seq<u8>, table: Table) -> Parsed<Self> {
        match take_u32(s) {
            Err(e) => Err(e),
            Ok((n, s1)) => parse_many::<T>(s1, table, n as nat),
        }
    }

    open spec fn put(self, ids: Ids, rest: Seq<u8>) -> Seq<u8> {
        put_u32(self.len() as u32, put_many(self, ids, rest))
    }

    open spec fn encodable(self, table: Table, ids: Ids) -> bool {
        &&& self.len() <= u32::MAX
        &&& forall|i: int| 0 <= i < self.len() ==> (#[trigger] self[i]).encodable(table, ids)
    }

    proof fn lemma_roundtrip(self, table: Table, ids: Ids, rest: Seq<u8>) {
        lemma_many_roundtrip(self, table, ids, rest);
        lemma_take_put_u32(self.len() as u32, put_many(self, ids, rest));
    }
}

/// Text: a 32-bit byte length, then that many bytes of UTF-8.
pub struct Text(pub Seq<char>);

impl Wire for Text {
    open spec fn parse(s: Seq<u8>, table: Table) -> Parsed<Self> {
        match take_u32(s) {
            Err(e) => Err(e),
            Ok((n, s1)) => match take_bytes(s1, n as nat) {
                Err(e) => Err(e),
                Ok((bytes, s2)) => if valid_utf8(bytes) {
                    Ok((Text(decode_utf8(bytes)), s2))
                } else {
                    Err(DecodeError::Utf8)
                },
            },
        }
    }

    open spec fn put(self, ids: Ids, rest: Seq<u8>) -> Seq<u8> {
        put_u32(encode_utf8(self.0).len() as u32, encode_utf8(self.0) + rest)
    }

    open spec fn encodable(self, table: Table, ids: Ids) -> bool {
        encode_utf8(self.0).len() <= u32::MAX
    }

    proof fn lemma_roundtrip(self, table: Table, ids: Ids, rest: Seq<u8>) {
        let bytes = encode_utf8(self.0);
        lemma_take_put_u32(bytes.len() as u32, bytes + rest);
        lemma_take_put_bytes(bytes, rest);
        encode_utf8_valid_utf8(self.0);
        encode_utf8_decode_utf8(self.0);
    }
}

/// The strings that a sequence of table entries holds.
pub open spec fn texts(entries: Seq<Text>) -> Table {
    Seq::new(entries.len(), |i: int| entries[i].0)
}

/// The table entries that hold the given strings.
pub open spec fn entries(table: Table) -> Seq<Text> {
    Seq::new(table.len(), |i: int| Text(table[i]))
}

/// Whether `ids` names `text` by an id that `table` resolves back to it.
pub open spec fn interned(text: Seq<char>, table: Table, ids: Ids) -> bool {
    &&& ids.contains_key(text)
    &&& ids[text] < table.len()
    &&& table[ids[text] as int] == text
}

/// A frame: the id of its file name, its line, the id of its function name.
impl Wire for FrameView {
    open spec fn parse(s: Seq<u8>, table: Table) -> Parsed<Self> {
        match take_u32(s) {
            Err(e) => Err(e),
            Ok((filename_id, s1)) => match take_u32(s1) {
                Err(e) => Err(e),
                Ok((line, s2)) => match take_u32(s2) {
                    Err(e) => Err(e),
                    Ok((name_id, s3)) => if filename_id >= table.len() {
                        Err(DecodeError::InvalidStringId(filename_id, table.len() as usize))
                    } else if name_id >= table.len() {
                        Err(DecodeError::InvalidStringId(name_id, table.len() as usize))
                    } else {
                        Ok(
                            (
                                FrameView {
                                    filename: table[filename_id as int],
                                    line,
                                    name: table[name_id as int],
                                },
                                s3,
                            ),
                        )
                    },
                },
            },
        }
    }

    open spec fn put(self, ids: Ids, rest: Seq<u8>) -> Seq<u8> {
        put_u32(ids[self.filename], put_u32(self.line, put_u32(ids[self.name], rest)))
    }

    open spec fn encodable(self, table: Table, ids: Ids) -> bool {
        &&& interned(self.filename, table, ids)
        &&& interned(self.name, table, ids)
    }

    proof fn lemma_roundtrip(self, table: Table, ids: Ids, rest: Seq<u8>) {
        let s3 = rest;
        let s2 = put_u32(ids[self.name], s3);
        let s1 = put_u32(self.line, s2);
        lemma_take_put_u32(ids[self.name], s3);
        lemma_take_put_u32(self.line, s2);
        lemma_take_put_u32(ids[self.filename], s1);
    }
}

/// A block: size, requested size, address, a state tag, its frames.
impl Wire for BlockView {
    open spec fn parse(s: Seq<u8>, table: Table) -> Parsed<Self> {
        match take_u64(s) {
            Err(e) => Err(e),
            Ok((size, s1)) => match take_u64(s1) {
                Err(e) => Err(e),
                Ok((requested_size, s2)) => match take_u64(s2) {
                    Err(e) => Err(e),
                    Ok((address, s3)) => match take_u8(s3) {
                        Err(e) => Err(e),
                        Ok((tag, s4)) => match BlockState::spec_from_u8(tag) {
                            Err(e) => Err(e),
                            Ok(state) => match Seq::<FrameView>::parse(s4, table) {
                                Err(e) => Err(e),
                                Ok((frames, s5)) => Ok(
                                    (BlockView { size, requested_size, address, state, frames }, s5),
                                ),
                            },
                        },
                    },
                },
            },
        }
    }

    open spec fn put(self, ids: Ids, rest: Seq<u8>) -> Seq<u8> {
        put_u64(
            self.size,
            put_u64(
                self.requested_size,
                put_u64(self.address, put_u8(self.state.tag(), self.frames.put(ids, rest))),
            ),
        )
    }

    open spec fn encodable(self, table: Table, ids: Ids) -> bool {
        self.frames.encodable(table, ids)
    }

    proof fn lemma_roundtrip(self, table: Table, ids: Ids, rest: Seq<u8>) {
        let s4 = self.frames.put(ids, rest);
        let s3 = put_u8(self.state.tag(), s4);
        let s2 = put_u64(self.address, s3);
        let s1 = put_u64(self.requested_size, s2);
        self.frames.lemma_roundtrip(table, ids, rest);
        lemma_take_put_u8(self.state.tag(), s4);
        lemma_take_put_u64(self.address, s3);
        lemma_take_put_u64(self.requested_size, s2);
        lemma_take_put_u64(self.size, s1);
    }
}

/// A segment: address, total size, signed stream id, a type tag, allocated
/// size, active size, its blocks.
impl Wire for SegmentView {
    open spec fn parse(s: Seq<u8>, table: Table) -> Parsed<Self> {
        match take_u64(s) {
            Err(e) => Err(e),
            Ok((address, s1)) => match take_u64(s1) {
                Err(e) => Err(e),
                Ok((total_size, s2)) => match take_i64(s2) {
                    Err(e) => Err(e),
                    Ok((stream, s3)) => match take_u8(s3) {
                        Err(e) => Err(e),
                        Ok((tag, s4)) => match SegmentType::spec_from_u8(tag) {
                            Err(e) => Err(e),
                            Ok(segment_type) => match take_u64(s4) {
                                Err(e) => Err(e),
                                Ok((allocated_size, s5)) => match take_u64(s5) {
                                    Err(e) => Err(e),
                                    Ok((active_size, s6)) => match Seq::<BlockView>::parse(
                                        s6,
                                        table,
                                    ) {
                                        Err(e) => Err(e),
                                        Ok((blocks, s7)) => Ok(
                                            (
                                                SegmentView {
                                                    address,
                                                    total_size,
                                                    stream,
                                                    segment_type,
                                                    allocated_size,
                                                    active_size,
                                                    blocks,
                                                },
                                                s7,
                                            ),
                                        ),
                                    },
                                },
                            },
                        },
                    },
                },
            },
        }
    }

    open spec fn put(self, ids: Ids, rest: Seq<u8>) -> Seq<u8> {
        put_u64(
            self.address,
            put_u64(
                self.total_size,
                put_i64(
                    self.stream,
                    put_u8(
                        self.segment_type.tag(),
                        put_u64(
                            self.allocated_size,
                            put_u64(self.active_size, self.blocks.put(ids, rest)),
                        ),
                    ),
                ),
            ),
        )
    }

    open spec fn encodable(self, table: Table, ids: Ids) -> bool {
        self.blocks.encodable(table, ids)
    }

    proof fn lemma_roundtrip(self, table: Table, ids: Ids, rest: Seq<u8>) {
        let s6 = self.blocks.put(ids, rest);
        let s5 = put_u64(self.active_size, s6);
        let s4 = put_u64(self.allocated_size, s5);
        let s3 = put_u8(self.segment_type.tag(), s4);
        let s2 = put_i64(self.stream, s3);
        let s1 = put_u64(self.total_size, s2);
        self.blocks.lemma_roundtrip(table, ids, rest);
        lemma_take_put_u64(self.active_size, s6);
        lemma_take_put_u64(self.allocated_size, s5);
        lemma_take_put_u8(self.segment_type.tag(), s4);
        lemma_take_put_i64(self.stream, s3);
        lemma_take_put_u64(self.total_size, s2);
        lemma_take_put_u64(self.address, s1);
    }
}

/// A trace entry: an action tag, signed stream id, size, the number the
/// action carries, its frames. A tag that stands for no action fails before
/// that number is read.
impl Wire for TraceEntryView {
    open spec fn parse(s: Seq<u8>, table: Table) -> Parsed<Self> {
        match take_u8(s) {
            Err(e) => Err(e),
            Ok((tag, s1)) => match take_i64(s1) {
                Err(e) => Err(e),
                Ok((stream, s2)) => match take_u64(s2) {
                    Err(e) => Err(e),
                    Ok((size, s3)) => if !TraceAction::is_tag(tag) {
                        Err(DecodeError::InvalidTraceActionValue(tag))
                    } else {
                        match take_u64(s3) {
                            Err(e) => Err(e),
                            Ok((payload, s4)) => match Seq::<FrameView>::parse(s4, table) {
                                Err(e) => Err(e),
                                Ok((frames, s5)) => Ok(
                                    (
                                        TraceEntryView {
                                            action: TraceAction::spec_from_parts(tag, payload),
                                            frames,
                                            size,
                                            stream,
                                        },
                                        s5,
                                    ),
                                ),
                            },
                        }
                    },
                },
            },
        }
    }

    open spec fn put(self, ids: Ids, rest: Seq<u8>) -> Seq<u8> {
        put_u8(
            self.action.tag(),
            put_i64(
                self.stream,
                put_u64(self.size, put_u64(self.action.payload(), self.frames.put(ids, rest))),
            ),
        )
    }

    open spec fn encodable(self, table: Table, ids: Ids) -> bool {
        self.frames.encodable(table, ids)
    }

    proof fn lemma_roundtrip(self, table: Table, ids: Ids, rest: Seq<u8>) {
        let s4 = self.frames.put(ids, rest);
        let s3 = put_u64(self.action.payload(), s4);
        let s2 = put_u64(self.size, s3);
        let s1 = put_i64(self.stream, s2);
        self.frames.lemma_roundtrip(table, ids, rest);
        lemma_take_put_u64(self.action.payload(), s4);
        lemma_take_put_u64(self.size, s3);
        lemma_take_put_i64(self.stream, s2);
        lemma_take_put_u8(self.action.tag(), s1);
    }
}

// ---------------------------------------------------------------------------
// The capture
// ---------------------------------------------------------------------------

/// Reads the header: the magic bytes, then the version byte.
pub open spec fn parse_header(s: Seq<u8>) -> Result<Seq<u8>, DecodeError> {
    match take_bytes(s, 4) {
        Err(e) => Err(e),
        Ok((word, s1)) => if word != magic() {
            Err(DecodeError::InvalidMagicNumber)
        } else {
            match take_u8(s1) {
                Err(e) => Err(e),
                Ok((version, s2)) => if version != FORMAT_VERSION {
                    Err(DecodeError::UnsupportedFormatVersion(version))
                } else {
                    Ok(s2)
                },
            }
        },
    }
}

/// Reads the string table: a list of texts.
pub open spec fn parse_table(s: Seq<u8>) -> Parsed<Table> {
    match Seq::<Text>::parse(s, Seq::empty()) {
        Err(e) => Err(e),
        Ok((found, rest)) => Ok((texts(found), rest)),
    }
}

/// Reads a whole capture: header, string table, segments, then one list of
/// trace entries per device. Bytes after the last list are not looked at.
pub open spec fn parse_snapshot(s: Seq<u8>) -> Result<SnapshotView, DecodeError> {
    match parse_header(s) {
        Err(e) => Err(e),
        Ok(s1) => match parse_table(s1) {
            Err(e) => Err(e),
            Ok((table, s2)) => match Seq::<SegmentView>::parse(s2, table) {
                Err(e) => Err(e),
                Ok((segments, s3)) => match Seq::<Seq<TraceEntryView>>::parse(s3, table) {
                    Err(e) => Err(e),
                    Ok((device_traces, s4)) => Ok(SnapshotView { segments, device_traces }),
                },
            },
        },
    }
}

/// Writes a whole capture in front of `rest`.
pub open spec fn put_snapshot(table: Table, ids: Ids, snapshot: SnapshotView, rest: Seq<u8>) -> Seq<
    u8,
> {
    magic() + put_u8(
        FORMAT_VERSION,
        entries(table).put(
            ids,
            snapshot.segments.put(ids, snapshot.device_traces.put(ids, rest)),
        ),
    )
}

/// Whether a capture can be written with the given string table: the table
/// and every list fit their 32-bit counts, every text fits its 32-bit length,
/// and every frame's strings are interned.
pub open spec fn snapshot_encodable(table: Table, ids: Ids, snapshot: SnapshotView) -> bool {
    &&& entries(table).encodable(Seq::empty(), ids)
    &&& snapshot.segments.encodable(table, ids)
    &&& snapshot.device_traces.encodable(table, ids)
}

/// Decoding an encoded capture gives back the capture it was written from,
/// field for field, whatever bytes follow it; and the string table that is
/// read on the way is the one that was written.
pub proof fn lemma_snapshot_roundtrip(
    table: Table,
    ids: Ids,
    snapshot: SnapshotView,
    rest: Seq<u8>,
)
    requires
        snapshot_encodable(table, ids, snapshot),
    ensures
        parse_snapshot(put_snapshot(table, ids, snapshot, rest)) == Ok::<
            SnapshotView,
            DecodeError,
        >(snapshot),
        parse_header(put_snapshot(table, ids, snapshot, rest)) matches Ok(after) && parse_table(
            after,
        ) matches Ok((found, _)) && found == table,
{
    let s3 = snapshot.device_traces.put(ids, rest);
    let s2 = snapshot.segments.put(ids, s3);
    let s1 = entries(table).put(ids, s2);
    let s0 = put_u8(FORMAT_VERSION, s1);
    snapshot.device_traces.lemma_roundtrip(table, ids, rest);
    snapshot.segments.lemma_roundtrip(table, ids, s3);
    entries(table).lemma_roundtrip(Seq::empty(), ids, s2);
    assert(texts(entries(table)) =~= table);
    lemma_take_put_u8(FORMAT_VERSION, s1);
    lemma_take_put_bytes(magic(), s0);
}

} // verus!
