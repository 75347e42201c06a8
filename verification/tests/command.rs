use snap_rs::allocation::{Allocation, Frame};
use snap_rs::command::{parse_command, Command, CommandError};
use snap_rs::memsnap::{MemSnap, QueryError};
use snap_rs::messages::{plot_saved_message, sqlite_built_message};
use snap_rs::repl::{help_message, list_indices, parse_topk_option, OptionError, Quit, Reply, TopkOption};

fn allocation(size: u64, timesteps: Vec<u64>, offsets: Vec<u64>) -> Allocation {
    let base = *offsets.iter().max().unwrap();
    let peak_timestamps = timesteps
        .iter()
        .zip(offsets.iter())
        .filter(|(_, o)| **o == base)
        .map(|(t, _)| *t)
        .collect();
    Allocation {
        timesteps,
        offsets,
        size,
        callstack: vec![Frame { name: "f".to_string(), filename: "m.py".to_string(), line: 1 }],
        peak_mem: base + size,
        peak_timestamps,
    }
}

fn three() -> MemSnap {
    MemSnap::new(vec![
        allocation(100, vec![0, 10], vec![0, 0]),
        allocation(50, vec![5, 15], vec![100, 100]),
        allocation(200, vec![2, 3], vec![150, 150]),
    ])
}

fn text(reply: Result<Reply, CommandError>) -> String {
    match reply {
        Ok(Reply::Text(text)) => text,
        other => panic!("no text: {:?}", other),
    }
}

#[test]
fn options_of_top() {
    assert_eq!(parse_topk_option(&[]), Ok(TopkOption::Global));
    assert_eq!(parse_topk_option(&["v"]), Ok(TopkOption::GlobalVerbose));
    assert_eq!(parse_topk_option(&["verbose"]), Ok(TopkOption::GlobalVerbose));
    assert_eq!(parse_topk_option(&["@24"]), Ok(TopkOption::Timestamp(24)));
    assert_eq!(parse_topk_option(&["@+24"]), Ok(TopkOption::Timestamp(24)));
    assert_eq!(parse_topk_option(&["@4294967295"]), Ok(TopkOption::Timestamp(u32::MAX)));
    assert_eq!(parse_topk_option(&["v", "@0"]), Ok(TopkOption::TimestampVerbose(0)));
    assert_eq!(parse_topk_option(&["verbose", "@7"]), Ok(TopkOption::TimestampVerbose(7)));
}

#[test]
fn options_of_top_that_are_not_understood() {
    assert_eq!(
        parse_topk_option(&["@"]),
        Err(OptionError::InvalidTimestamp("@".to_string()))
    );
    assert_eq!(
        parse_topk_option(&["@4294967296"]),
        Err(OptionError::InvalidTimestamp("@4294967296".to_string()))
    );
    assert_eq!(
        parse_topk_option(&["@-1"]),
        Err(OptionError::InvalidTimestamp("@-1".to_string()))
    );
    assert_eq!(
        parse_topk_option(&["v", "@x"]),
        Err(OptionError::InvalidTimestamp("@x".to_string()))
    );
    assert_eq!(
        parse_topk_option(&["24"]),
        Err(OptionError::UnrecognizedOption("24".to_string()))
    );
    assert_eq!(
        parse_topk_option(&[""]),
        Err(OptionError::UnrecognizedOption(String::new()))
    );
    assert_eq!(
        parse_topk_option(&["@5", "v"]),
        Err(OptionError::UnrecognizedOptions("@5".to_string(), "v".to_string()))
    );
    assert_eq!(
        parse_topk_option(&["v", "v"]),
        Err(OptionError::UnrecognizedOptions("v".to_string(), "v".to_string()))
    );
    assert_eq!(parse_topk_option(&["v", "@5", "x"]), Err(OptionError::TooManyOptions(3)));
}

#[test]
fn option_error_messages() {
    assert_eq!(
        OptionError::InvalidTimestamp("@x".to_string()).message(),
        "Invalid timestamp format: @x"
    );
    assert_eq!(
        OptionError::UnrecognizedOption("w".to_string()).message(),
        "Unrecognized single element: w"
    );
    let options = ["a\"b", "c\\d\n"];
    assert_eq!(
        OptionError::UnrecognizedOptions(options[0].to_string(), options[1].to_string()).message(),
        format!("Unrecognized two elements: {:?} (expected [verbose] [timestamp])", options)
    );
    assert_eq!(
        OptionError::TooManyOptions(4).message(),
        "Input slice has an unsupported number of elements: 4"
    );
}

#[test]
fn lines_as_commands() {
    assert_eq!(parse_command("", 3), Ok(Command::Nothing));
    assert_eq!(parse_command(" top 1", 3), Ok(Command::Nothing));
    assert_eq!(parse_command("help", 3), Ok(Command::Help));
    assert_eq!(parse_command("q", 3), Ok(Command::Quit));
    assert_eq!(parse_command("quit now", 3), Ok(Command::Quit));
    assert_eq!(parse_command("sqlbuild", 3), Ok(Command::SqlBuild));
    assert_eq!(
        parse_command("sql   SELECT idx  FROM allocations  ", 3),
        Ok(Command::Sql("SELECT idx  FROM allocations".to_string()))
    );
    assert_eq!(parse_command("byte 1536", 3), Ok(Command::Byte(1536)));
    assert_eq!(parse_command("byte +0", 3), Ok(Command::Byte(0)));
    assert_eq!(
        parse_command("timeline out dir/plot.svg", 3),
        Ok(Command::Timeline("out dir/plot.svg".to_string()))
    );
    assert_eq!(parse_command("peak 2", 3), Ok(Command::Peak { k: 2, verbose: false }));
    assert_eq!(parse_command("peak 9 v", 3), Ok(Command::Peak { k: 9, verbose: true }));
    assert_eq!(parse_command("peak\t2", 3), Err(CommandError::Unsupported("peak\t2".to_string())));
    assert_eq!(parse_command("peak \t2  verbose", 3), Ok(Command::Peak { k: 2, verbose: true }));
    assert_eq!(
        parse_command("top 2", 3),
        Ok(Command::Top { k: 2, option: TopkOption::Global })
    );
    assert_eq!(
        parse_command("top 0 v @5", 3),
        Ok(Command::Top { k: 0, option: TopkOption::TimestampVerbose(5) })
    );
    assert_eq!(
        parse_command("top 1 @5", 3),
        Ok(Command::Top { k: 1, option: TopkOption::Timestamp(5) })
    );
    assert_eq!(parse_command("i 2", 3), Ok(Command::Inspect { index: 2 }));
    assert_eq!(parse_command("inspect 0", 3), Ok(Command::Inspect { index: 0 }));
}

#[test]
fn lines_that_are_not_carried_out() {
    assert_eq!(parse_command("sql", 3), Err(CommandError::EmptyQuery));
    assert_eq!(parse_command("sql   ", 3), Err(CommandError::EmptyQuery));
    assert_eq!(parse_command("sqlbuild now", 3), Err(CommandError::SqlBuildTakesNoArguments));
    assert_eq!(
        parse_command("byte 1k", 3),
        Err(CommandError::InvalidByteValue("1k".to_string()))
    );
    assert_eq!(parse_command("byte", 3), Err(CommandError::InvalidByteValue(String::new())));
    assert_eq!(
        parse_command("byte 18446744073709551616", 3),
        Err(CommandError::InvalidByteValue("18446744073709551616".to_string()))
    );
    assert_eq!(parse_command("timeline", 3), Err(CommandError::TimelineNeedsPath));
    assert_eq!(parse_command("peak", 3), Err(CommandError::PeakUsage));
    assert_eq!(parse_command("peak 1 v x", 3), Err(CommandError::PeakUsage));
    assert_eq!(parse_command("peak k", 3), Err(CommandError::InvalidCount("k".to_string())));
    assert_eq!(
        parse_command("peak 1 loud", 3),
        Err(CommandError::InvalidPeakOption("loud".to_string()))
    );
    assert_eq!(parse_command("top", 3), Err(CommandError::TopUsage));
    assert_eq!(parse_command("top 1 v @2 x", 3), Err(CommandError::TopUsage));
    assert_eq!(parse_command("top -1", 3), Err(CommandError::InvalidCount("-1".to_string())));
    assert_eq!(parse_command("top 3", 3), Err(CommandError::IndexOutOfBounds(3, 3)));
    assert_eq!(parse_command("top 99 bogus", 3), Err(CommandError::IndexOutOfBounds(99, 3)));
    assert_eq!(
        parse_command("top 1 bogus", 3),
        Err(CommandError::Options(OptionError::UnrecognizedOption("bogus".to_string())))
    );
    assert_eq!(parse_command("i", 3), Err(CommandError::InspectNeedsIndex));
    assert_eq!(parse_command("i x", 3), Err(CommandError::InvalidIndex("x".to_string())));
    assert_eq!(parse_command("inspect 3", 3), Err(CommandError::IndexOutOfBounds(3, 3)));
    assert_eq!(
        parse_command("inspect 1 more  words", 3),
        Err(CommandError::UnsupportedOption("more words".to_string()))
    );
    assert_eq!(parse_command("help me", 3), Err(CommandError::HelpTakesNoArguments));
    assert_eq!(
        parse_command("frobnicate 3", 3),
        Err(CommandError::Unsupported("frobnicate 3".to_string()))
    );
    assert_eq!(parse_command("TOP 1", 3), Err(CommandError::Unsupported("TOP 1".to_string())));
}

#[test]
fn commands_against_a_store() {
    let mut store = three();
    assert_eq!(text(store.exec(String::new())), "");
    assert_eq!(
        text(store.exec("top 2".to_string())),
        "Index, sorted descending by allocation size: 2, 0"
    );
    assert_eq!(
        text(store.exec("top 2 @5".to_string())),
        "Index, sorted descending by allocation size: 0, 1"
    );
    assert_eq!(
        text(store.exec("top 0".to_string())),
        "Index, sorted descending by allocation size: "
    );
    assert_eq!(
        text(store.exec("peak 2".to_string())),
        "Index, sorted descending by allocation size: 2, 1"
    );
    assert_eq!(text(store.exec("byte 1536".to_string())), "1.5 KiB");
    assert_eq!(text(store.exec("help".to_string())), help_message());
    assert_eq!(text(store.exec("i 1".to_string())), store.allocations()[1].to_string());
    assert_eq!(
        text(store.exec("top 2 v".to_string())),
        format!("#0\n{}\n\n#1\n{}", store.allocations()[2].to_string(), store.allocations()[0].to_string())
    );
    assert_eq!(
        text(store.exec("top 2 verbose @15".to_string())),
        format!("#0\n{}", store.allocations()[1].to_string())
    );
    assert_eq!(
        text(store.exec("peak 1 v".to_string())),
        format!("#0\n{}", store.allocations()[2].to_string())
    );
}

#[test]
fn commands_that_ask_for_outside_work() {
    let mut store = three();
    assert_eq!(
        store.exec("sql SELECT 1".to_string()),
        Ok(Reply::RunSql("SELECT 1".to_string()))
    );
    assert_eq!(store.exec("sqlbuild".to_string()), Ok(Reply::BuildSqlite));
    assert_eq!(
        store.exec("timeline plot.svg".to_string()),
        Ok(Reply::PlotTimeline("plot.svg".to_string()))
    );
    assert_eq!(sqlite_built_message(), "Build Sqlite OK");
    assert_eq!(plot_saved_message("plot.svg"), "Plot saved to plot.svg");
}

#[test]
fn commands_that_fail_against_a_store() {
    let mut store = three();
    assert_eq!(store.exec("quit".to_string()), Err(CommandError::Quit(Quit)));
    assert_eq!(
        store.exec("peak 3".to_string()),
        Err(CommandError::Query(QueryError::OutOfBounds(3, 3)))
    );
    assert_eq!(store.exec("top 3".to_string()), Err(CommandError::IndexOutOfBounds(3, 3)));
    assert_eq!(store.exec("i 3".to_string()), Err(CommandError::IndexOutOfBounds(3, 3)));
    assert_eq!(
        store.exec("what".to_string()),
        Err(CommandError::Unsupported("what".to_string()))
    );
    assert_eq!(
        text(store.exec("top 2".to_string())),
        "Index, sorted descending by allocation size: 2, 0"
    );
}

#[test]
fn command_error_messages() {
    let cases: Vec<(CommandError, &str)> = vec![
        (CommandError::EmptyQuery, "SQL error: query is empty"),
        (CommandError::SqlBuildTakesNoArguments, "`sqlbuild` command does not take arguments."),
        (
            CommandError::InvalidByteValue("x".to_string()),
            "Invalid byte value (expected uint64): x",
        ),
        (CommandError::TimelineNeedsPath, "`timeline` command requires a path argument."),
        (CommandError::PeakUsage, "`peak` command takes [k] as argument."),
        (CommandError::InvalidCount("k".to_string()), "Invalid count: k"),
        (
            CommandError::InvalidPeakOption("loud".to_string()),
            "Invalid option: loud, expected `verbose` or `v`",
        ),
        (
            CommandError::TopUsage,
            "`top` command takes [k] and optional [verbose] [@timestamp] as argument.",
        ),
        (CommandError::IndexOutOfBounds(7, 3), "Index out of bounds: 7 >= 3"),
        (
            CommandError::Options(OptionError::TooManyOptions(3)),
            "Input slice has an unsupported number of elements: 3",
        ),
        (
            CommandError::InspectNeedsIndex,
            "`inspect` command requires at least an index argument.",
        ),
        (CommandError::InvalidIndex("x".to_string()), "Invalid index value: x"),
        (CommandError::UnsupportedOption("a b".to_string()), "Unsupported option: [a b]"),
        (CommandError::HelpTakesNoArguments, "`help` command does not take arguments."),
        (
            CommandError::Unsupported("frob 1".to_string()),
            "Unsupported command: 'frob 1'. Type 'help' for available commands.",
        ),
        (
            CommandError::Query(QueryError::OutOfBounds(3, 3)),
            "k is out of bounds: expected 0 ~ 3, got 3",
        ),
        (CommandError::Quit(Quit), "!quit"),
    ];
    for (error, expected) in cases {
        assert_eq!(error.message(), expected);
    }
    assert_eq!(Quit.message(), "!quit");
}

#[test]
fn indices_as_a_line() {
    assert_eq!(list_indices(&vec![]), "Index, sorted descending by allocation size: ");
    assert_eq!(
        list_indices(&vec![12, 0, 7]),
        "Index, sorted descending by allocation size: 12, 0, 7"
    );
}

#[test]
fn reports_by_index() {
    let store = three();
    assert_eq!(store.allocation_detail(1), Ok(store.allocations()[1].to_string()));
    assert_eq!(store.allocation_detail(3), Err(QueryError::OutOfBounds(3, 3)));
    assert!(store.allocation_detail(0).unwrap().starts_with("Allocation Details:\n├── Size: 100.0 B\n"));
}
