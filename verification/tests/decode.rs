use snap_rs::reader::{decode_snapshot, SnapshotReader};
use snap_rs::snapshot::{
    Block, BlockState, DecodeError, Frame, Segment, SegmentType, Snapshot, TraceAction, TraceEntry,
};

/// Writes captures in the layout that the decoder reads.
struct Writer {
    table: Vec<String>,
    body: Vec<u8>,
}

impl Writer {
    fn new() -> Writer {
        Writer { table: Vec::new(), body: Vec::new() }
    }

    fn id(&mut self, text: &str) -> u32 {
        if let Some(at) = self.table.iter().position(|t| t == text) {
            return at as u32;
        }
        self.table.push(text.to_string());
        (self.table.len() - 1) as u32
    }

    fn u8(&mut self, v: u8) {
        self.body.push(v);
    }

    fn u32(&mut self, v: u32) {
        self.body.extend_from_slice(&v.to_le_bytes());
    }

    fn u64(&mut self, v: u64) {
        self.body.extend_from_slice(&v.to_le_bytes());
    }

    fn i64(&mut self, v: i64) {
        self.body.extend_from_slice(&v.to_le_bytes());
    }

    fn frames(&mut self, frames: &[Frame]) {
        self.u32(frames.len() as u32);
        for frame in frames {
            let filename = self.id(&frame.filename);
            let name = self.id(&frame.name);
            self.u32(filename);
            self.u32(frame.line);
            self.u32(name);
        }
    }

    fn block(&mut self, block: &Block) {
        self.u64(block.size);
        self.u64(block.requested_size);
        self.u64(block.address);
        self.u8(match block.state {
            BlockState::ActiveAllocated => 0,
            BlockState::ActiveAwaitingFree => 1,
            BlockState::Inactive => 2,
        });
        self.frames(&block.frames);
    }

    fn segment(&mut self, segment: &Segment) {
        self.u64(segment.address);
        self.u64(segment.total_size);
        self.i64(segment.stream);
        self.u8(match segment.segment_type {
            SegmentType::Small => 0,
            SegmentType::Large => 1,
        });
        self.u64(segment.allocated_size);
        self.u64(segment.active_size);
        self.u32(segment.blocks.len() as u32);
        for block in &segment.blocks {
            self.block(block);
        }
    }

    fn entry(&mut self, entry: &TraceEntry) {
        let (tag, payload) = match entry.action {
            TraceAction::Alloc { addr } => (0u8, addr),
            TraceAction::FreeRequested { addr } => (1, addr),
            TraceAction::FreeCompleted { addr } => (2, addr),
            TraceAction::SegmentAlloc { addr } => (3, addr),
            TraceAction::SegmentFree { addr } => (4, addr),
            TraceAction::Oom { device_free } => (5, device_free),
            TraceAction::Snapshot { addr } => (6, addr),
        };
        self.u8(tag);
        self.i64(entry.stream);
        self.u64(entry.size);
        self.u64(payload);
        self.frames(&entry.frames);
    }

    fn snapshot(mut self, snapshot: &Snapshot) -> Vec<u8> {
        self.u32(snapshot.segments.len() as u32);
        for segment in &snapshot.segments {
            self.segment(segment);
        }
        self.u32(snapshot.device_traces.len() as u32);
        for trace in &snapshot.device_traces {
            self.u32(trace.len() as u32);
            for entry in trace {
                self.entry(entry);
            }
        }
        let mut out = b"SNAP".to_vec();
        out.push(1);
        out.extend_from_slice(&(self.table.len() as u32).to_le_bytes());
        for text in &self.table {
            out.extend_from_slice(&(text.len() as u32).to_le_bytes());
            out.extend_from_slice(text.as_bytes());
        }
        out.extend_from_slice(&self.body);
        out
    }
}

fn encode(snapshot: &Snapshot) -> Vec<u8> {
    Writer::new().snapshot(snapshot)
}

fn frame(filename: &str, line: u32, name: &str) -> Frame {
    Frame { filename: filename.to_string(), line, name: name.to_string() }
}

fn sample() -> Snapshot {
    let stack = vec![frame("train.py", 12, "forward"), frame("nn/módulo.py", 340, "__call__")];
    Snapshot {
        segments: vec![
            Segment {
                address: 0x7f00_0000_0000,
                total_size: 2 << 20,
                stream: 0,
                segment_type: SegmentType::Small,
                allocated_size: 1024,
                active_size: 512,
                blocks: vec![
                    Block {
                        size: 512,
                        requested_size: 500,
                        address: 0x7f00_0000_0000,
                        state: BlockState::ActiveAllocated,
                        frames: stack.clone(),
                    },
                    Block {
                        size: 512,
                        requested_size: 0,
                        address: 0x7f00_0000_0200,
                        state: BlockState::Inactive,
                        frames: vec![],
                    },
                ],
            },
            Segment {
                address: u64::MAX,
                total_size: 20 << 20,
                stream: -7,
                segment_type: SegmentType::Large,
                allocated_size: 0,
                active_size: 0,
                blocks: vec![Block {
                    size: 1,
                    requested_size: 1,
                    address: 9,
                    state: BlockState::ActiveAwaitingFree,
                    frames: vec![frame("train.py", 12, "forward")],
                }],
            },
        ],
        device_traces: vec![
            vec![
                TraceEntry {
                    action: TraceAction::SegmentAlloc { addr: 0x7f00_0000_0000 },
                    frames: vec![],
                    size: 2 << 20,
                    stream: 0,
                },
                TraceEntry {
                    action: TraceAction::Alloc { addr: 0x7f00_0000_0000 },
                    frames: stack.clone(),
                    size: 512,
                    stream: 0,
                },
                TraceEntry {
                    action: TraceAction::FreeRequested { addr: 0x7f00_0000_0000 },
                    frames: vec![],
                    size: 512,
                    stream: i64::MIN,
                },
                TraceEntry {
                    action: TraceAction::FreeCompleted { addr: 0x7f00_0000_0000 },
                    frames: vec![],
                    size: 512,
                    stream: i64::MAX,
                },
                TraceEntry {
                    action: TraceAction::SegmentFree { addr: 3 },
                    frames: vec![],
                    size: 0,
                    stream: -1,
                },
                TraceEntry {
                    action: TraceAction::Oom { device_free: 12345 },
                    frames: stack,
                    size: 1 << 40,
                    stream: 0,
                },
                TraceEntry {
                    action: TraceAction::Snapshot { addr: 0 },
                    frames: vec![],
                    size: 0,
                    stream: 0,
                },
            ],
            vec![],
        ],
    }
}

fn header_and_empty_table() -> Vec<u8> {
    let mut bytes = b"SNAP".to_vec();
    bytes.push(1);
    bytes.extend_from_slice(&0u32.to_le_bytes());
    bytes
}

#[test]
fn snapshot_test_basic() {
    let bytes = encode(&sample());
    match decode_snapshot(&bytes) {
        Ok(snapshot) => {
            println!("Successfully decoded snapshot!");
            println!("========== Stats ==========");
            println!("Number of segments: {}", snapshot.segments.len());
            if !snapshot.segments.is_empty() {
                println!("First segment address: {:#X}", snapshot.segments[0].address);
                if !snapshot.segments[0].blocks.is_empty() {
                    println!("First block state: {:?}", snapshot.segments[0].blocks[0].state);
                }
            }
            println!();
            println!("Number of device traces: {}", snapshot.device_traces.len());
            if !snapshot.device_traces.is_empty() && !snapshot.device_traces[0].is_empty() {
                println!("First trace entry action: {:?}", snapshot.device_traces[0][0].action);
            }
            println!("========== Stats End ==========");
        }
        Err(e) => {
            panic!("Failed to decode snapshot: {}", e.message());
        }
    }
}

#[test]
fn decoding_gives_back_what_was_encoded() {
    let snapshot = sample();
    assert_eq!(decode_snapshot(&encode(&snapshot)), Ok(snapshot));
}

#[test]
fn bytes_after_the_device_traces_are_ignored() {
    let snapshot = sample();
    let mut bytes = encode(&snapshot);
    bytes.extend_from_slice(&[0xff, 0x00, 0x12]);
    assert_eq!(decode_snapshot(&bytes), Ok(snapshot));
}

#[test]
fn empty_capture_decodes() {
    let mut bytes = header_and_empty_table();
    bytes.extend_from_slice(&0u32.to_le_bytes());
    bytes.extend_from_slice(&0u32.to_le_bytes());
    assert_eq!(decode_snapshot(&bytes), Ok(Snapshot { segments: vec![], device_traces: vec![] }));
}

#[test]
fn every_cut_capture_ends_unexpectedly() {
    let bytes = encode(&sample());
    for cut in 0..bytes.len() {
        assert_eq!(decode_snapshot(&bytes[..cut]), Err(DecodeError::UnexpectedEof), "cut at {}", cut);
    }
}

#[test]
fn wrong_magic_is_refused() {
    let mut bytes = encode(&sample());
    bytes[2] = b'P';
    bytes[3] = b'X';
    assert_eq!(decode_snapshot(&bytes), Err(DecodeError::InvalidMagicNumber));
    assert_eq!(decode_snapshot(b"SNPX\x01"), Err(DecodeError::InvalidMagicNumber));
}

#[test]
fn short_magic_is_an_unexpected_end() {
    assert_eq!(decode_snapshot(b"SNP"), Err(DecodeError::UnexpectedEof));
    assert_eq!(decode_snapshot(b""), Err(DecodeError::UnexpectedEof));
}

#[test]
fn other_versions_are_refused() {
    let mut bytes = encode(&sample());
    bytes[4] = 2;
    assert_eq!(decode_snapshot(&bytes), Err(DecodeError::UnsupportedFormatVersion(2)));
    bytes[4] = 0;
    assert_eq!(decode_snapshot(&bytes), Err(DecodeError::UnsupportedFormatVersion(0)));
}

#[test]
fn invalid_utf8_in_the_table_is_refused() {
    let mut bytes = b"SNAP".to_vec();
    bytes.push(1);
    bytes.extend_from_slice(&1u32.to_le_bytes());
    bytes.extend_from_slice(&2u32.to_le_bytes());
    bytes.extend_from_slice(&[0xc3, 0x28]);
    bytes.extend_from_slice(&0u32.to_le_bytes());
    bytes.extend_from_slice(&0u32.to_le_bytes());
    assert_eq!(decode_snapshot(&bytes), Err(DecodeError::Utf8));
}

#[test]
fn text_of_the_table_is_decoded_as_utf8() {
    let snapshot = Snapshot {
        segments: vec![],
        device_traces: vec![vec![TraceEntry {
            action: TraceAction::Alloc { addr: 1 },
            frames: vec![frame("日本語.py", 7, "größe")],
            size: 2,
            stream: 3,
        }]],
    };
    let decoded = decode_snapshot(&encode(&snapshot)).unwrap();
    assert_eq!(decoded.device_traces[0][0].frames[0].filename, "日本語.py");
    assert_eq!(decoded.device_traces[0][0].frames[0].name, "größe");
}

fn one_block_capture(frame_ids: (u32, u32), state: u8) -> Vec<u8> {
    let mut bytes = b"SNAP".to_vec();
    bytes.push(1);
    bytes.extend_from_slice(&2u32.to_le_bytes());
    for text in ["a.py", "f"] {
        bytes.extend_from_slice(&(text.len() as u32).to_le_bytes());
        bytes.extend_from_slice(text.as_bytes());
    }
    bytes.extend_from_slice(&1u32.to_le_bytes());
    bytes.extend_from_slice(&10u64.to_le_bytes());
    bytes.extend_from_slice(&20u64.to_le_bytes());
    bytes.extend_from_slice(&(-1i64).to_le_bytes());
    bytes.push(1);
    bytes.extend_from_slice(&5u64.to_le_bytes());
    bytes.extend_from_slice(&6u64.to_le_bytes());
    bytes.extend_from_slice(&1u32.to_le_bytes());
    bytes.extend_from_slice(&1u64.to_le_bytes());
    bytes.extend_from_slice(&2u64.to_le_bytes());
    bytes.extend_from_slice(&3u64.to_le_bytes());
    bytes.push(state);
    bytes.extend_from_slice(&1u32.to_le_bytes());
    bytes.extend_from_slice(&frame_ids.0.to_le_bytes());
    bytes.extend_from_slice(&77u32.to_le_bytes());
    bytes.extend_from_slice(&frame_ids.1.to_le_bytes());
    bytes.extend_from_slice(&0u32.to_le_bytes());
    bytes
}

#[test]
fn hand_written_capture_decodes_field_for_field() {
    let expected = Snapshot {
        segments: vec![Segment {
            address: 10,
            total_size: 20,
            stream: -1,
            segment_type: SegmentType::Large,
            allocated_size: 5,
            active_size: 6,
            blocks: vec![Block {
                size: 1,
                requested_size: 2,
                address: 3,
                state: BlockState::Inactive,
                frames: vec![frame("a.py", 77, "f")],
            }],
        }],
        device_traces: vec![],
    };
    assert_eq!(decode_snapshot(&one_block_capture((0, 1), 2)), Ok(expected));
}

#[test]
fn string_ids_outside_the_table_are_refused() {
    assert_eq!(
        decode_snapshot(&one_block_capture((2, 1), 0)),
        Err(DecodeError::InvalidStringId(2, 2))
    );
    assert_eq!(
        decode_snapshot(&one_block_capture((0, 9), 0)),
        Err(DecodeError::InvalidStringId(9, 2))
    );
    assert_eq!(
        decode_snapshot(&one_block_capture((5, 9), 0)),
        Err(DecodeError::InvalidStringId(5, 2))
    );
}

#[test]
fn unknown_block_states_are_refused() {
    assert_eq!(
        decode_snapshot(&one_block_capture((0, 1), 3)),
        Err(DecodeError::InvalidBlockStateValue(3))
    );
    assert_eq!(BlockState::from_u8(0), Ok(BlockState::ActiveAllocated));
    assert_eq!(BlockState::from_u8(1), Ok(BlockState::ActiveAwaitingFree));
    assert_eq!(BlockState::from_u8(2), Ok(BlockState::Inactive));
    assert_eq!(BlockState::from_u8(255), Err(DecodeError::InvalidBlockStateValue(255)));
}

#[test]
fn unknown_segment_types_are_refused() {
    let mut bytes = one_block_capture((0, 1), 0);
    let tag_at = 5 + 4 + (4 + 4) + (4 + 1) + 4 + 8 + 8 + 8;
    assert_eq!(bytes[tag_at], 1);
    bytes[tag_at] = 2;
    assert_eq!(decode_snapshot(&bytes), Err(DecodeError::InvalidSegmentTypeValue(2)));
    assert_eq!(SegmentType::from_u8(0), Ok(SegmentType::Small));
    assert_eq!(SegmentType::from_u8(1), Ok(SegmentType::Large));
    assert_eq!(SegmentType::from_u8(9), Err(DecodeError::InvalidSegmentTypeValue(9)));
}

#[test]
fn unknown_trace_actions_are_refused_before_their_payload() {
    let mut bytes = header_and_empty_table();
    bytes.extend_from_slice(&0u32.to_le_bytes());
    bytes.extend_from_slice(&1u32.to_le_bytes());
    bytes.extend_from_slice(&1u32.to_le_bytes());
    bytes.push(7);
    bytes.extend_from_slice(&0i64.to_le_bytes());
    bytes.extend_from_slice(&0u64.to_le_bytes());
    assert_eq!(decode_snapshot(&bytes), Err(DecodeError::InvalidTraceActionValue(7)));
    bytes.truncate(bytes.len() - 1);
    assert_eq!(decode_snapshot(&bytes), Err(DecodeError::UnexpectedEof));
}

#[test]
fn reader_reads_numbers_little_endian() {
    let bytes = [0x01, 0x02, 0x03, 0x04, 0x05, 0x06, 0x07, 0x08, 0x09, 0xff, 0xff, 0xff, 0xff,
        0xff, 0xff, 0xff, 0xff, 0xfe];
    let mut reader = SnapshotReader::new(&bytes);
    assert_eq!(reader.read_u8(), Ok(0x01));
    assert_eq!(reader.read_u32_le(), Ok(0x0504_0302));
    assert_eq!(reader.read_exact_bytes(1), Ok(vec![0x06]));
    let mut reader = SnapshotReader::new(&bytes);
    assert_eq!(reader.read_u64_le(), Ok(0x0807_0605_0403_0201));
    assert_eq!(reader.read_u8(), Ok(0x09));
    assert_eq!(reader.read_i64_le(), Ok(-1));
    assert_eq!(reader.read_u8(), Ok(0xfe));
    assert_eq!(reader.read_u8(), Err(DecodeError::UnexpectedEof));
    let most = [0u8, 0, 0, 0, 0, 0, 0, 0x80];
    assert_eq!(SnapshotReader::new(&most).read_i64_le(), Ok(i64::MIN));
    assert_eq!(SnapshotReader::new(&most).read_u64_le(), Ok(1u64 << 63));
}

#[test]
fn reader_keeps_the_string_table() {
    let mut bytes = b"SNAP".to_vec();
    bytes.push(1);
    bytes.extend_from_slice(&2u32.to_le_bytes());
    for text in ["lib.py", "main"] {
        bytes.extend_from_slice(&(text.len() as u32).to_le_bytes());
        bytes.extend_from_slice(text.as_bytes());
    }
    bytes.extend_from_slice(&1u32.to_le_bytes());
    bytes.extend_from_slice(&9u32.to_le_bytes());
    bytes.extend_from_slice(&0u32.to_le_bytes());
    let mut reader = SnapshotReader::new(&bytes);
    assert_eq!(reader.decode_header(), Ok(()));
    assert_eq!(reader.get_string(0), Err(DecodeError::InvalidStringId(0, 0)));
    assert_eq!(reader.decode_string_table_and_store(), Ok(()));
    assert_eq!(reader.get_string(1).map(|s| s.as_str()), Ok("main"));
    assert_eq!(reader.get_string(2), Err(DecodeError::InvalidStringId(2, 2)));
    assert_eq!(reader.decode_frame(), Ok(frame("main", 9, "lib.py")));
}

#[test]
fn decode_error_messages() {
    assert_eq!(DecodeError::InvalidMagicNumber.message(), "Invalid magic number. Not a SNAP file.");
    assert_eq!(
        DecodeError::UnsupportedFormatVersion(3).message(),
        "Unsupported format version. Expected 1, got 3."
    );
    assert_eq!(
        DecodeError::InvalidStringId(12, 4).message(),
        "Invalid string ID: 12 (table len: 4)"
    );
    assert_eq!(DecodeError::InvalidBlockStateValue(9).message(), "Invalid block state value: 9");
    assert_eq!(DecodeError::InvalidSegmentTypeValue(2).message(), "Invalid segment type value: 2");
    assert_eq!(
        DecodeError::InvalidTraceActionValue(200).message(),
        "Invalid trace action value: 200"
    );
    assert_eq!(
        DecodeError::UnexpectedEof.message(),
        "Unexpected end of file while reading data."
    );
    assert!(DecodeError::Utf8.message().starts_with("UTF-8 decoding error"));
}

#[test]
fn tags_map_both_ways() {
    for state in [BlockState::ActiveAllocated, BlockState::ActiveAwaitingFree, BlockState::Inactive] {
        assert_eq!(BlockState::from_u8(state.to_u8()), Ok(state));
    }
    assert_eq!(BlockState::Inactive.to_u8(), 2);
    for pool in [SegmentType::Small, SegmentType::Large] {
        assert_eq!(SegmentType::from_u8(pool.to_u8()), Ok(pool));
    }
    assert_eq!(SegmentType::Large.to_u8(), 1);
    let actions = [
        TraceAction::Alloc { addr: 1 },
        TraceAction::FreeRequested { addr: 2 },
        TraceAction::FreeCompleted { addr: 3 },
        TraceAction::SegmentAlloc { addr: 4 },
        TraceAction::SegmentFree { addr: 5 },
        TraceAction::Oom { device_free: 6 },
        TraceAction::Snapshot { addr: 7 },
    ];
    for (tag, action) in actions.into_iter().enumerate() {
        assert_eq!(action.to_parts(), (tag as u8, tag as u64 + 1));
        assert_eq!(TraceAction::from_parts(tag as u8, tag as u64 + 1), Ok(action));
    }
    assert_eq!(TraceAction::from_parts(7, 0), Err(DecodeError::InvalidTraceActionValue(7)));
    assert_eq!(TraceAction::from_parts(255, 9), Err(DecodeError::InvalidTraceActionValue(255)));
}
