use snap_rs::allocation::{Allocation, Frame};
use snap_rs::database::{allocation_rows, format_answer, format_callstack, AllocationDbRow};
use snap_rs::text::{decimal_string, read_unsigned, same_text};
use snap_rs::utils::format_bytes;
use snap_rs::words::{chars_of, find_blank, part, space, trim_bounds, word_bounds};

/// The same text by way of a double.
fn by_double(bytes: u64) -> String {
    let units = ["", "Ki", "Mi", "Gi", "Ti", "Pi", "Ei", "Zi"];
    let mut num = bytes as f64;
    for unit in units {
        if num.abs() < 1024.0 {
            return format!("{:.1} {}B", num, unit);
        }
        num /= 1024.0;
    }
    format!("{:.1}YiB", num)
}

#[test]
fn byte_counts_in_binary_units() {
    assert_eq!(format_bytes(0), "0.0 B");
    assert_eq!(format_bytes(1), "1.0 B");
    assert_eq!(format_bytes(512), "512.0 B");
    assert_eq!(format_bytes(1023), "1023.0 B");
    assert_eq!(format_bytes(1024), "1.0 KiB");
    assert_eq!(format_bytes(1536), "1.5 KiB");
    assert_eq!(format_bytes(1024 * 1024), "1.0 MiB");
    assert_eq!(format_bytes(5 * 1024 * 1024 * 1024), "5.0 GiB");
    assert_eq!(format_bytes(1 << 40), "1.0 TiB");
    assert_eq!(format_bytes(1 << 50), "1.0 PiB");
    assert_eq!(format_bytes(1 << 60), "1.0 EiB");
    assert_eq!(format_bytes(u64::MAX), "16.0 EiB");
}

#[test]
fn byte_counts_round_to_the_even_tenth() {
    // 1.25 KiB and 1.75 KiB lie halfway between two tenths.
    assert_eq!(format_bytes(1280), "1.2 KiB");
    assert_eq!(format_bytes(1792), "1.8 KiB");
    // Just under a whole unit rounds up to 1024 of the smaller one.
    assert_eq!(format_bytes(1024 * 1024 - 1), "1024.0 KiB");
    // Beyond 53 bits the count itself is rounded first.
    assert_eq!(format_bytes((1 << 60) - 1), "1.0 EiB");
}

#[test]
fn byte_counts_agree_with_doubles() {
    let mut samples: Vec<u64> = Vec::new();
    for shift in 0..64u32 {
        let base = 1u64 << shift;
        for delta in [0u64, 1, 2, 3, 51, 52, 102, 103, 511, 512, 513] {
            samples.push(base.wrapping_add(delta));
            samples.push(base.wrapping_sub(delta));
            samples.push((base / 10).wrapping_mul(delta));
            samples.push(base.wrapping_add(base / 1024 * delta));
            samples.push(base.wrapping_add(base / 2048 * (2 * delta + 1)));
            samples.push(base.wrapping_add(base / 20480 * (2 * delta + 1)));
        }
    }
    for k in 0..20_000u64 {
        samples.push(k);
        samples.push(k * 1024 / 20);
        samples.push(k.wrapping_mul(0x9E37_79B9_7F4A_7C15));
        samples.push((1 << 53) + k);
        samples.push((1 << 63) + 1024 * k);
        samples.push(u64::MAX - k);
    }
    for bytes in samples {
        assert_eq!(format_bytes(bytes), by_double(bytes), "{} bytes", bytes);
    }
}

#[test]
fn numbers_in_decimal() {
    assert_eq!(decimal_string(0), "0");
    assert_eq!(decimal_string(7), "7");
    assert_eq!(decimal_string(10), "10");
    assert_eq!(decimal_string(1_000_000), "1000000");
    assert_eq!(decimal_string(u64::MAX), "18446744073709551615");
    for n in [9u64, 99, 100, 101, 12345, 1 << 32, u64::MAX - 1] {
        assert_eq!(decimal_string(n), format!("{}", n));
    }
}

#[test]
fn numbers_are_read_as_std_reads_them() {
    let texts = [
        "0", "7", "007", "+7", "+", "", "-7", "-0", "7a", "a7", " 7", "7 ", "1_000", "４２",
        "255", "256", "4294967295", "4294967296", "18446744073709551615",
        "18446744073709551616", "99999999999999999999999999", "++1", "+-1", "1+", "0x10",
        "١٢٣", "9é",
    ];
    for text in texts {
        assert_eq!(read_unsigned(text, 0, u8::MAX as u64), text.parse::<u8>().ok().map(u64::from), "{:?} as u8", text);
        assert_eq!(read_unsigned(text, 0, u32::MAX as u64), text.parse::<u32>().ok().map(u64::from), "{:?} as u32", text);
        assert_eq!(read_unsigned(text, 0, u64::MAX), text.parse::<u64>().ok(), "{:?} as u64", text);
    }
    assert_eq!(read_unsigned("@42", 1, u64::MAX), Some(42));
    assert_eq!(read_unsigned("@", 1, u64::MAX), None);
    assert_eq!(read_unsigned("@4é", 1, u64::MAX), None);
    assert_eq!(read_unsigned("ab12", 2, 11), None);
    assert_eq!(read_unsigned("ab12", 2, 12), Some(12));
    assert_eq!(read_unsigned("ab12", 4, 12), None);
}

#[test]
fn texts_are_compared() {
    assert!(same_text("", ""));
    assert!(same_text("verbose", "verbose"));
    assert!(!same_text("verbose", "verbos"));
    assert!(!same_text("v", "V"));
    assert!(same_text("größe", "größe"));
    assert!(!same_text("größe", "grösse"));
}

fn frame(name: &str, filename: &str, line: u32) -> Frame {
    Frame { name: name.to_string(), filename: filename.to_string(), line }
}

#[test]
fn call_stacks_as_text() {
    assert_eq!(format_callstack(&[]), "");
    assert_eq!(format_callstack(&[frame("main", "run.py", 3)]), "run.py:3:main");
    assert_eq!(
        format_callstack(&[frame("main", "run.py", 3), frame("step", "nn/opt.py", 120)]),
        "run.py:3:main\nnn/opt.py:120:step"
    );
    let frames = vec![frame("a", "x", 0), frame("b", "y", u32::MAX), frame("c", "z", 9)];
    let expected = frames
        .iter()
        .map(|frame| format!("{}:{}:{}", frame.filename, frame.line, frame.name))
        .collect::<Vec<String>>()
        .join("\n");
    assert_eq!(format_callstack(&frames), expected);
}

#[test]
fn frames_as_text() {
    assert_eq!(frame("forward", "model.py", 42).to_string(), "  at forward (model.py:42)");
}

#[test]
fn allocations_as_text() {
    let allocation = Allocation {
        timesteps: vec![3, 4, 9],
        offsets: vec![0, 2048, 2048],
        size: 1536,
        callstack: vec![frame("main", "run.py", 3), frame("step", "opt.py", 120)],
        peak_mem: 3584,
        peak_timestamps: vec![4, 9],
    };
    assert_eq!(
        allocation.to_string(),
        "Allocation Details:\n\
         ├── Size: 1.5 KiB\n\
         ├── Peak Memory: 3.5 KiB\n\
         ├── Peak Timestamps: [4, 9]\n\
         ├── Timesteps: start 3, stop 9\n\
         ├── Offsets: omitted\n\
         └── Callstack:\n    \
             ├── (0)  at main (run.py:3)\n    \
             └── (1)  at step (opt.py:120)\n"
    );
    let bare = Allocation {
        timesteps: vec![],
        offsets: vec![],
        size: 0,
        callstack: vec![],
        peak_mem: 0,
        peak_timestamps: vec![],
    };
    assert_eq!(
        bare.to_string(),
        "Allocation Details:\n\
         ├── Size: 0.0 B\n\
         ├── Peak Memory: 0.0 B\n\
         ├── Peak Timestamps: []\n\
         ├── Timesteps: start 0, stop 0\n\
         ├── Offsets: omitted\n\
         └── Callstack:\n    \
             └── (empty callstack)\n"
    );
}

#[test]
fn database_test_peak() {
    let allocations = vec![
        Allocation {
            timesteps: vec![3, 9],
            offsets: vec![0, 8],
            size: 16,
            callstack: vec![frame("main", "run.py", 3), frame("step", "opt.py", 120)],
            peak_mem: 24,
            peak_timestamps: vec![9],
        },
        Allocation {
            timesteps: vec![7],
            offsets: vec![1],
            size: 2,
            callstack: vec![],
            peak_mem: 3,
            peak_timestamps: vec![7],
        },
    ];
    assert_eq!(
        allocation_rows(&allocations),
        vec![
            AllocationDbRow {
                index: 0,
                size: 16,
                callstack: "run.py:3:main\nopt.py:120:step".to_string(),
                peak_mem: 24,
                start_timestamp: 3,
                end_timestamp: 9,
            },
            AllocationDbRow {
                index: 1,
                size: 2,
                callstack: String::new(),
                peak_mem: 3,
                start_timestamp: 7,
                end_timestamp: 7,
            },
        ]
    );
}

#[test]
fn answers_as_text() {
    let names = vec!["idx".to_string(), "size".to_string()];
    let rows = vec![
        vec!["2".to_string(), "200".to_string()],
        vec!["0".to_string(), "100".to_string()],
    ];
    assert_eq!(
        format_answer(&names, &rows),
        "\n===== SQL Query Results =====\n\
         \n===== Row 0 =====\ncolumn [idx] : 2\ncolumn [size] : 200\n\
         \n===== Row 1 =====\ncolumn [idx] : 0\ncolumn [size] : 100\n"
    );
    assert_eq!(format_answer(&names, &vec![]), "\n===== SQL Query Results =====\n");
    assert_eq!(
        format_answer(&names, &vec![vec!["only".to_string()], vec![]]),
        "\n===== SQL Query Results =====\n\n===== Row 0 =====\ncolumn [idx] : only\n\n===== Row 1 =====\n"
    );
}

#[test]
fn white_space_is_what_char_says() {
    for code in 0..0x3100u32 {
        if let Some(c) = char::from_u32(code) {
            assert_eq!(space(c), c.is_whitespace(), "U+{:04X}", code);
        }
    }
    assert!(!space('\u{feff}'));
    assert!(!space('\u{10ffff}'));
}

fn words(text: &str) -> Vec<String> {
    let chars = chars_of(text);
    word_bounds(&chars, 0, chars.len()).into_iter().map(|(a, b)| part(text, a, b)).collect()
}

fn trimmed(text: &str) -> String {
    let chars = chars_of(text);
    let (a, b) = trim_bounds(&chars, 0, chars.len());
    part(text, a, b)
}

#[test]
fn lines_are_cut_as_std_cuts_them() {
    let lines = [
        "", " ", "a", " a", "a ", "top 3 v @5", "  top\t3\u{a0}v  ", "sql  SELECT  *  FROM t ",
        "größe\u{2003}日本語 x", "\n\r\t", "a\u{3000}b", "x\u{85}y\u{1680}z",
    ];
    for line in lines {
        let expected: Vec<String> = line.split_whitespace().map(|w| w.to_string()).collect();
        assert_eq!(words(line), expected, "{:?}", line);
        assert_eq!(trimmed(line), line.trim(), "{:?}", line);
        let chars = chars_of(line);
        assert_eq!(chars, line.chars().collect::<Vec<char>>());
        let blank = find_blank(&chars, 0);
        assert_eq!(part(line, 0, blank), line.splitn(2, ' ').next().unwrap(), "{:?}", line);
    }
}
