//! The text of each failure.
use vstd::prelude::*;
use vstd::string::StringExecFns;
use crate::command::{CommandError, CommandErrorView};
use crate::load::LoadError;
use crate::memsnap::QueryError;
use crate::repl::{OptionError, OptionErrorView, Quit};
use crate::snapshot::DecodeError;
use crate::text::{decimal, push_decimal};

verus! {

/// A string between double quotes, written as in Rust source: with `\"`,
/// `\\`, `\n` and the like in place of what cannot stand there as it is.
pub uninterp spec fn debug_quoted(text: Seq<char>) -> Seq<char>;

/// The `Debug` form of a `str`, by `format!("{:?}", ..)` of std. Believed of
/// it: the text it gives depends on the characters of the string alone.
#[verifier::external_body]
fn debug_string(text: &str) -> (quoted: String)
    ensures
        quoted@ == debug_quoted(text@),
{
    format!("{:?}", text)
}

/// The text of a decoding failure.
pub open spec fn decode_error_text(e: DecodeError) -> Seq<char> {
    match e {
        DecodeError::InvalidMagicNumber => "Invalid magic number. Not a SNAP file."@,
        DecodeError::UnsupportedFormatVersion(v) => "Unsupported format version. Expected 1, got "@
            + decimal(v as nat) + "."@,
        DecodeError::Utf8 => "UTF-8 decoding error: a string is not valid UTF-8"@,
        DecodeError::InvalidStringId(id, len) => "Invalid string ID: "@ + decimal(id as nat)
            + " (table len: "@ + decimal(len as nat) + ")"@,
        DecodeError::InvalidBlockStateValue(v) => "Invalid block state value: "@ + decimal(
            v as nat,
        ),
        DecodeError::InvalidSegmentTypeValue(v) => "Invalid segment type value: "@ + decimal(
            v as nat,
        ),
        DecodeError::InvalidTraceActionValue(v) => "Invalid trace action value: "@ + decimal(
            v as nat,
        ),
        DecodeError::UnexpectedEof => "Unexpected end of file while reading data."@,
    }
}

impl DecodeError {
    /// The failure in words.
    pub fn message(&self) -> (text: String)
        ensures
            text@ == decode_error_text(*self),
    {
        let mut text = String::new();
        match self {
            DecodeError::InvalidMagicNumber => {
                text.append("Invalid magic number. Not a SNAP file.");
            },
            DecodeError::UnsupportedFormatVersion(v) => {
                text.append("Unsupported format version. Expected 1, got ");
                push_decimal(&mut text, *v as u64);
                text.append(".");
            },
            DecodeError::Utf8 => {
                text.append("UTF-8 decoding error: a string is not valid UTF-8");
            },
            DecodeError::InvalidStringId(id, len) => {
                text.append("Invalid string ID: ");
                push_decimal(&mut text, *id as u64);
                text.append(" (table len: ");
                push_decimal(&mut text, *len as u64);
                text.append(")");
            },
            DecodeError::InvalidBlockStateValue(v) => {
                text.append("Invalid block state value: ");
                push_decimal(&mut text, *v as u64);
            },
            DecodeError::InvalidSegmentTypeValue(v) => {
                text.append("Invalid segment type value: ");
                push_decimal(&mut text, *v as u64);
            },
            DecodeError::InvalidTraceActionValue(v) => {
                text.append("Invalid trace action value: ");
                push_decimal(&mut text, *v as u64);
            },
            DecodeError::UnexpectedEof => {
                text.append("Unexpected end of file while reading data.");
            },
        }
        proof {
            assert(text@ =~= decode_error_text(*self));
        }
        text
    }
}

/// The text of a refused query.
pub open spec fn query_error_text(e: QueryError) -> Seq<char> {
    match e {
        QueryError::OutOfBounds(k, total) => "k is out of bounds: expected 0 ~ "@ + decimal(
            total as nat,
        ) + ", got "@ + decimal(k as nat),
    }
}

impl QueryError {
    /// The failure in words.
    pub fn message(&self) -> (text: String)
        ensures
            text@ == query_error_text(*self),
    {
        let mut text = String::new();
        match self {
            QueryError::OutOfBounds(k, total) => {
                text.append("k is out of bounds: expected 0 ~ ");
                push_decimal(&mut text, *total as u64);
                text.append(", got ");
                push_decimal(&mut text, *k as u64);
            },
        }
        proof {
            assert(text@ =~= query_error_text(*self));
        }
        text
    }
}

/// The text of a failed reconstruction.
pub open spec fn load_error_text(e: LoadError) -> Seq<char> {
    match e {
        LoadError::ArityMismatch(allocations, elements) => "Mismatch in the number of entries: "@
            + decimal(allocations as nat) + " allocations vs "@ + decimal(elements as nat)
            + " elements"@,
        LoadError::SampleCountMismatch(index, times, places) => "Allocation "@ + decimal(
            index as nat,
        ) + " has "@ + decimal(times as nat) + " timesteps but "@ + decimal(places as nat)
            + " offsets"@,
        LoadError::NoSamples(index) => "Allocation "@ + decimal(index as nat) + " has no offsets"@,
        LoadError::PeakOverflow(index) => "Allocation "@ + decimal(index as nat)
            + " has a peak beyond 64 bits"@,
        LoadError::MissingDocuments(allocations, elements) => if allocations && elements {
            "allocations and elements not found!"@
        } else if allocations {
            "allocations not found!"@
        } else {
            "elements not found!"@
        },
    }
}

impl LoadError {
    /// The failure in words.
    pub fn message(&self) -> (text: String)
        ensures
            text@ == load_error_text(*self),
    {
        let mut text = String::new();
        match self {
            LoadError::ArityMismatch(allocations, elements) => {
                text.append("Mismatch in the number of entries: ");
                push_decimal(&mut text, *allocations as u64);
                text.append(" allocations vs ");
                push_decimal(&mut text, *elements as u64);
                text.append(" elements");
            },
            LoadError::SampleCountMismatch(index, times, places) => {
                text.append("Allocation ");
                push_decimal(&mut text, *index as u64);
                text.append(" has ");
                push_decimal(&mut text, *times as u64);
                text.append(" timesteps but ");
                push_decimal(&mut text, *places as u64);
                text.append(" offsets");
            },
            LoadError::NoSamples(index) => {
                text.append("Allocation ");
                push_decimal(&mut text, *index as u64);
                text.append(" has no offsets");
            },
            LoadError::PeakOverflow(index) => {
                text.append("Allocation ");
                push_decimal(&mut text, *index as u64);
                text.append(" has a peak beyond 64 bits");
            },
            LoadError::MissingDocuments(allocations, elements) => {
                if *allocations && *elements {
                    text.append("allocations and elements not found!");
                } else if *allocations {
                    text.append("allocations not found!");
                } else {
                    text.append("elements not found!");
                }
            },
        }
        proof {
            assert(text@ =~= load_error_text(*self));
        }
        text
    }
}

/// The text of options that were not understood.
pub open spec fn option_error_text(e: OptionErrorView) -> Seq<char> {
    match e {
        OptionErrorView::InvalidTimestamp(s) => "Invalid timestamp format: "@ + s,
        OptionErrorView::UnrecognizedOption(s) => "Unrecognized single element: "@ + s,
        OptionErrorView::UnrecognizedOptions(a, b) => "Unrecognized two elements: ["@
            + debug_quoted(a) + ", "@ + debug_quoted(b) + "] (expected [verbose] [timestamp])"@,
        OptionErrorView::TooManyOptions(n) => "Input slice has an unsupported number of elements: "@
            + decimal(n as nat),
    }
}

impl OptionError {
    /// The failure in words.
    pub fn message(&self) -> (text: String)
        ensures
            text@ == option_error_text(self@),
    {
        let mut text = String::new();
        match self {
            OptionError::InvalidTimestamp(s) => {
                text.append("Invalid timestamp format: ");
                text.append(s.as_str());
            },
            OptionError::UnrecognizedOption(s) => {
                text.append("Unrecognized single element: ");
                text.append(s.as_str());
            },
            OptionError::UnrecognizedOptions(a, b) => {
                text.append("Unrecognized two elements: [");
                text.append(debug_string(a.as_str()).as_str());
                text.append(", ");
                text.append(debug_string(b.as_str()).as_str());
                text.append("] (expected [verbose] [timestamp])");
            },
            OptionError::TooManyOptions(n) => {
                text.append("Input slice has an unsupported number of elements: ");
                push_decimal(&mut text, *n as u64);
            },
        }
        proof {
            assert(text@ =~= option_error_text(self@));
        }
        text
    }
}

/// The text of a line of input that was not carried out.
pub open spec fn command_error_text(e: CommandErrorView) -> Seq<char> {
    match e {
        CommandErrorView::EmptyQuery => "SQL error: query is empty"@,
        CommandErrorView::SqlBuildTakesNoArguments => "`sqlbuild` command does not take arguments."@,
        CommandErrorView::InvalidByteValue(s) => "Invalid byte value (expected uint64): "@ + s,
        CommandErrorView::TimelineNeedsPath => "`timeline` command requires a path argument."@,
        CommandErrorView::PeakUsage => "`peak` command takes [k] as argument."@,
        CommandErrorView::InvalidCount(s) => "Invalid count: "@ + s,
        CommandErrorView::InvalidPeakOption(s) => "Invalid option: "@ + s
            + ", expected `verbose` or `v`"@,
        CommandErrorView::TopUsage => "`top` command takes [k] and optional [verbose] [@timestamp] as argument."@,
        CommandErrorView::IndexOutOfBounds(index, total) => "Index out of bounds: "@ + decimal(
            index as nat,
        ) + " >= "@ + decimal(total as nat),
        CommandErrorView::Options(e) => option_error_text(e),
        CommandErrorView::InspectNeedsIndex => "`inspect` command requires at least an index argument."@,
        CommandErrorView::InvalidIndex(s) => "Invalid index value: "@ + s,
        CommandErrorView::UnsupportedOption(s) => "Unsupported option: ["@ + s + "]"@,
        CommandErrorView::HelpTakesNoArguments => "`help` command does not take arguments."@,
        CommandErrorView::Unsupported(line) => "Unsupported command: '"@ + line
            + "'. Type 'help' for available commands."@,
        CommandErrorView::Query(e) => query_error_text(e),
        CommandErrorView::Quit => "!quit"@,
    }
}

impl Quit {
    /// The request in words.
    pub fn message(&self) -> (text: String)
        ensures
            text@ == "!quit"@,
    {
        let mut text = String::new();
        text.append("!quit");
        proof {
            assert(text@ =~= "!quit"@);
        }
        text
    }
}

impl CommandError {
    /// The failure in words.
    pub fn message(&self) -> (text: String)
        ensures
            text@ == command_error_text(self@),
    {
        let mut text = String::new();
        match self {
            CommandError::EmptyQuery => {
                text.append("SQL error: query is empty");
            },
            CommandError::SqlBuildTakesNoArguments => {
                text.append("`sqlbuild` command does not take arguments.");
            },
            CommandError::InvalidByteValue(s) => {
                text.append("Invalid byte value (expected uint64): ");
                text.append(s.as_str());
            },
            CommandError::TimelineNeedsPath => {
                text.append("`timeline` command requires a path argument.");
            },
            CommandError::PeakUsage => {
                text.append("`peak` command takes [k] as argument.");
            },
            CommandError::InvalidCount(s) => {
                text.append("Invalid count: ");
                text.append(s.as_str());
            },
            CommandError::InvalidPeakOption(s) => {
                text.append("Invalid option: ");
                text.append(s.as_str());
                text.append(", expected `verbose` or `v`");
            },
            CommandError::TopUsage => {
                text.append(
                    "`top` command takes [k] and optional [verbose] [@timestamp] as argument.",
                );
            },
            CommandError::IndexOutOfBounds(index, total) => {
                text.append("Index out of bounds: ");
                push_decimal(&mut text, *index as u64);
                text.append(" >= ");
                push_decimal(&mut text, *total as u64);
            },
            CommandError::Options(e) => {
                text.append(e.message().as_str());
            },
            CommandError::InspectNeedsIndex => {
                text.append("`inspect` command requires at least an index argument.");
            },
            CommandError::InvalidIndex(s) => {
                text.append("Invalid index value: ");
                text.append(s.as_str());
            },
            CommandError::UnsupportedOption(s) => {
                text.append("Unsupported option: [");
                text.append(s.as_str());
                text.append("]");
            },
            CommandError::HelpTakesNoArguments => {
                text.append("`help` command does not take arguments.");
            },
            CommandError::Unsupported(line) => {
                text.append("Unsupported command: '");
                text.append(line.as_str());
                text.append("'. Type 'help' for available commands.");
            },
            CommandError::Query(e) => {
                text.append(e.message().as_str());
            },
            CommandError::Quit(quit) => {
                text.append(quit.message().as_str());
            },
        }
        proof {
            assert(text@ =~= command_error_text(self@));
        }
        text
    }
}

/// What is shown when the table of allocations has been built.
pub fn sqlite_built_message() -> (text: String)
    ensures
        text@ == "Build Sqlite OK"@,
{
    let mut text = String::new();
    text.append("Build Sqlite OK");
    proof {
        assert(text@ =~= "Build Sqlite OK"@);
    }
    text
}

/// What is shown when the timeline has been drawn into the file at `path`.
pub fn plot_saved_message(path: &str) -> (text: String)
    ensures
        text@ == "Plot saved to "@ + path@,
{
    let mut text = String::new();
    text.append("Plot saved to ");
    text.append(path);
    proof {
        assert(text@ =~= "Plot saved to "@ + path@);
    }
    text
}

} // verus!
