//! The commands of a session: what a line of input asks for.
use vstd::prelude::*;
use crate::memsnap::QueryError;
use crate::repl::{
    is_verbose, parse_topk_option, topk_option, OptionError, OptionErrorView, Quit, TopkOption,
};
use crate::text::{joined, parse_unsigned, read_unsigned, same_text};
use crate::words::{
    after_blank, before_blank, chars_of, find_blank, part, trim, trim_bounds, word_bounds,
    words_of,
};

verus! {

/// What a line of input asks for.
#[derive(Debug, Clone, PartialEq, Eq)]
pub enum Command {
    /// Nothing: the line has no command word.
    Nothing,
    /// `sql <query>`: run a query against the table of allocations.
    Sql(String),
    /// `sqlbuild`: build the table of allocations.
    SqlBuild,
    /// `byte <count>`: show a byte count in binary units.
    Byte(u64),
    /// `timeline <path>`: draw the timeline into a file.
    Timeline(String),
    /// `peak <k> [v|verbose]`: the `k` allocations with the highest peak.
    Peak { k: usize, verbose: bool },
    /// `top <k> [v|verbose] [@time]`: the `k` largest allocations.
    Top { k: usize, option: TopkOption },
    /// `i <index>` or `inspect <index>`: the report of one allocation.
    Inspect { index: usize },
    /// `help`: the list of commands.
    Help,
    /// `q` or `quit`: leave the session.
    Quit,
}

/// The model of a [`Command`].
pub enum CommandView {
    Nothing,
    Sql(Seq<char>),
    SqlBuild,
    Byte(u64),
    Timeline(Seq<char>),
    Peak { k: usize, verbose: bool },
    Top { k: usize, option: TopkOption },
    Inspect { index: usize },
    Help,
    Quit,
}

impl View for Command {
    type V = CommandView;

    open spec fn view(&self) -> CommandView {
        match self {
            Command::Nothing => CommandView::Nothing,
            Command::Sql(query) => CommandView::Sql(query@),
            Command::SqlBuild => CommandView::SqlBuild,
            Command::Byte(count) => CommandView::Byte(*count),
            Command::Timeline(path) => CommandView::Timeline(path@),
            Command::Peak { k, verbose } => CommandView::Peak { k: *k, verbose: *verbose },
            Command::Top { k, option } => CommandView::Top { k: *k, option: *option },
            Command::Inspect { index } => CommandView::Inspect { index: *index },
            Command::Help => CommandView::Help,
            Command::Quit => CommandView::Quit,
        }
    }
}

/// Why a line of input was not carried out.
#[derive(Debug, Clone, PartialEq, Eq)]
pub enum CommandError {
    /// `sql` without a query.
    EmptyQuery,
    /// `sqlbuild` with arguments.
    SqlBuildTakesNoArguments,
    /// `byte` with something that is not a 64-bit count: what it was.
    InvalidByteValue(String),
    /// `timeline` without a path.
    TimelineNeedsPath,
    /// `peak` with no argument or more than two.
    PeakUsage,
    /// `peak` or `top` with a first argument that is not a count: what it
    /// was.
    InvalidCount(String),
    /// `peak` with a second argument other than `v` or `verbose`: what it
    /// was.
    InvalidPeakOption(String),
    /// `top` with no argument or more than three.
    TopUsage,
    /// `top` or `inspect` with an index that is not below the number of
    /// allocations: the index, and that number.
    IndexOutOfBounds(usize, usize),
    /// `top` with options that were not understood.
    Options(OptionError),
    /// `inspect` without an index.
    InspectNeedsIndex,
    /// `inspect` with a first argument that is not an index: what it was.
    InvalidIndex(String),
    /// `inspect` with more than an index: the rest, with a blank between
    /// each two.
    UnsupportedOption(String),
    /// `help` with arguments.
    HelpTakesNoArguments,
    /// A command word that is not known: the whole line.
    Unsupported(String),
    /// A query that the store refused.
    Query(QueryError),
    /// The session is to end.
    Quit(Quit),
}

/// The model of a [`CommandError`].
pub enum CommandErrorView {
    EmptyQuery,
    SqlBuildTakesNoArguments,
    InvalidByteValue(Seq<char>),
    TimelineNeedsPath,
    PeakUsage,
    InvalidCount(Seq<char>),
    InvalidPeakOption(Seq<char>),
    TopUsage,
    IndexOutOfBounds(usize, usize),
    Options(OptionErrorView),
    InspectNeedsIndex,
    InvalidIndex(Seq<char>),
    UnsupportedOption(Seq<char>),
    HelpTakesNoArguments,
    Unsupported(Seq<char>),
    Query(QueryError),
    Quit,
}

impl View for CommandError {
    type V = CommandErrorView;

    open spec fn view(&self) -> CommandErrorView {
        match self {
            CommandError::EmptyQuery => CommandErrorView::EmptyQuery,
            CommandError::SqlBuildTakesNoArguments => CommandErrorView::SqlBuildTakesNoArguments,
            CommandError::InvalidByteValue(s) => CommandErrorView::InvalidByteValue(s@),
            CommandError::TimelineNeedsPath => CommandErrorView::TimelineNeedsPath,
            CommandError::PeakUsage => CommandErrorView::PeakUsage,
            CommandError::InvalidCount(s) => CommandErrorView::InvalidCount(s@),
            CommandError::InvalidPeakOption(s) => CommandErrorView::InvalidPeakOption(s@),
            CommandError::TopUsage => CommandErrorView::TopUsage,
            CommandError::IndexOutOfBounds(i, n) => CommandErrorView::IndexOutOfBounds(*i, *n),
            CommandError::Options(e) => CommandErrorView::Options(e@),
            CommandError::InspectNeedsIndex => CommandErrorView::InspectNeedsIndex,
            CommandError::InvalidIndex(s) => CommandErrorView::InvalidIndex(s@),
            CommandError::UnsupportedOption(s) => CommandErrorView::UnsupportedOption(s@),
            CommandError::HelpTakesNoArguments => CommandErrorView::HelpTakesNoArguments,
            CommandError::Unsupported(s) => CommandErrorView::Unsupported(s@),
            CommandError::Query(e) => CommandErrorView::Query(*e),
            CommandError::Quit(_) => CommandErrorView::Quit,
        }
    }
}

/// The command word of a line: what stands before its first blank.
pub open spec fn command_word(line: Seq<char>) -> Seq<char> {
    before_blank(line)
}

/// The arguments of a line: what follows its first blank, without the white
/// space at the two ends.
pub open spec fn arguments(line: Seq<char>) -> Seq<char> {
    trim(after_blank(line))
}

/// The count that a word stands for.
pub open spec fn count_of(word: Seq<char>) -> Option<usize> {
    match parse_unsigned(word, usize::MAX as nat) {
        Some(v) => Some(v as usize),
        None => None,
    }
}

/// What `peak` with the given arguments asks for.
pub open spec fn peak_command(argv: Seq<Seq<char>>) -> Result<CommandView, CommandErrorView> {
    if argv.len() != 1 && argv.len() != 2 {
        Err(CommandErrorView::PeakUsage)
    } else {
        match count_of(argv[0]) {
            None => Err(CommandErrorView::InvalidCount(argv[0])),
            Some(k) => if argv.len() == 1 {
                Ok(CommandView::Peak { k, verbose: false })
            } else if is_verbose(argv[1]) {
                Ok(CommandView::Peak { k, verbose: true })
            } else {
                Err(CommandErrorView::InvalidPeakOption(argv[1]))
            },
        }
    }
}

/// What `top` with the given arguments asks for, of a store of `total`
/// allocations.
pub open spec fn top_command(argv: Seq<Seq<char>>, total: usize) -> Result<
    CommandView,
    CommandErrorView,
> {
    if argv.len() == 0 || argv.len() > 3 {
        Err(CommandErrorView::TopUsage)
    } else {
        match count_of(argv[0]) {
            None => Err(CommandErrorView::InvalidCount(argv[0])),
            Some(k) => if k >= total {
                Err(CommandErrorView::IndexOutOfBounds(k, total))
            } else {
                match topk_option(argv.skip(1)) {
                    Ok(option) => Ok(CommandView::Top { k, option }),
                    Err(e) => Err(CommandErrorView::Options(e)),
                }
            },
        }
    }
}

/// What `inspect` with the given arguments asks for, of a store of `total`
/// allocations.
pub open spec fn inspect_command(argv: Seq<Seq<char>>, total: usize) -> Result<
    CommandView,
    CommandErrorView,
> {
    if argv.len() == 0 {
        Err(CommandErrorView::InspectNeedsIndex)
    } else {
        match count_of(argv[0]) {
            None => Err(CommandErrorView::InvalidIndex(argv[0])),
            Some(index) => if index >= total {
                Err(CommandErrorView::IndexOutOfBounds(index, total))
            } else if argv.len() == 1 {
                Ok(CommandView::Inspect { index })
            } else {
                Err(CommandErrorView::UnsupportedOption(joined(argv.skip(1), " "@)))
            },
        }
    }
}

/// What a line asks for, of a store of `total` allocations.
///
/// The line is cut at its first blank into a command word and arguments.
/// Each command checks its arguments in a fixed order, and the first check
/// that fails decides the failure.
pub open spec fn parse_line(line: Seq<char>, total: usize) -> Result<CommandView, CommandErrorView> {
    let word = command_word(line);
    let args = arguments(line);
    let argv = words_of(args);
    if word.len() == 0 {
        Ok(CommandView::Nothing)
    } else if word == "sql"@ {
        if args.len() == 0 {
            Err(CommandErrorView::EmptyQuery)
        } else {
            Ok(CommandView::Sql(args))
        }
    } else if word == "sqlbuild"@ {
        if args.len() != 0 {
            Err(CommandErrorView::SqlBuildTakesNoArguments)
        } else {
            Ok(CommandView::SqlBuild)
        }
    } else if word == "byte"@ {
        match parse_unsigned(args, u64::MAX as nat) {
            Some(count) => Ok(CommandView::Byte(count as u64)),
            None => Err(CommandErrorView::InvalidByteValue(args)),
        }
    } else if word == "timeline"@ {
        if args.len() == 0 {
            Err(CommandErrorView::TimelineNeedsPath)
        } else {
            Ok(CommandView::Timeline(args))
        }
    } else if word == "peak"@ {
        peak_command(argv)
    } else if word == "top"@ {
        top_command(argv, total)
    } else if word == "i"@ || word == "inspect"@ {
        inspect_command(argv, total)
    } else if word == "help"@ {
        if args.len() != 0 {
            Err(CommandErrorView::HelpTakesNoArguments)
        } else {
            Ok(CommandView::Help)
        }
    } else if word == "q"@ || word == "quit"@ {
        Ok(CommandView::Quit)
    } else {
        Err(CommandErrorView::Unsupported(line))
    }
}

/// Whether what was returned is what the model says.
pub open spec fn command_agrees(
    r: Result<Command, CommandError>,
    expected: Result<CommandView, CommandErrorView>,
) -> bool {
    match expected {
        Ok(command) => r matches Ok(c) && c@ == command,
        Err(e) => r matches Err(f) && f@ == e,
    }
}

/// The count that a word stands for.
fn read_count(word: &str) -> (count: Option<usize>)
    ensures
        count == count_of(word@),
{
    proof {
        assert(word@.skip(0) =~= word@);
    }
    match read_unsigned(word, 0, usize::MAX as u64) {
        Some(v) => Some(v as usize),
        None => None,
    }
}

/// The words after the first, with a blank between each two.
fn join_rest(words: &Vec<String>) -> (text: String)
    requires
        words@.len() >= 1,
    ensures
        text@ == joined(words.deep_view().skip(1), " "@),
{
    let ghost rest = words.deep_view().skip(1);
    let mut text = String::new();
    let mut i: usize = 1;
    while i < words.len()
        invariant
            1 <= i <= words@.len(),
            rest == words.deep_view().skip(1),
            text@ == joined(rest.take(i - 1), " "@),
        decreases words@.len() - i,
    {
        let ghost before = text@;
        if i > 1 {
            text.append(" ");
        }
        text.append(words[i].as_str());
        proof {
            let now = rest.take(i as int);
            assert(now.drop_last() =~= rest.take(i - 1));
            assert(now.last() == words@[i as int]@);
            if i > 1 {
                assert(text@ =~= before + " "@ + words@[i as int]@);
            } else {
                assert(text@ =~= words@[i as int]@);
            }
        }
        i = i + 1;
    }
    proof {
        assert(rest.take(words@.len() - 1) =~= rest);
    }
    text
}

/// Reads the arguments of `peak`.
fn parse_peak(argv: &Vec<String>) -> (r: Result<Command, CommandError>)
    ensures
        command_agrees(r, peak_command(argv.deep_view())),
{
    let n = argv.len();
    if n != 1 && n != 2 {
        return Err(CommandError::PeakUsage);
    }
    assert(argv.deep_view()[0] == argv@[0]@);
    let k = match read_count(argv[0].as_str()) {
        Some(k) => k,
        None => {
            return Err(CommandError::InvalidCount(argv[0].clone()));
        },
    };
    if n == 1 {
        Ok(Command::Peak { k, verbose: false })
    } else {
        assert(argv.deep_view()[1] == argv@[1]@);
        let word = argv[1].as_str();
        if same_text(word, "v") || same_text(word, "verbose") {
            Ok(Command::Peak { k, verbose: true })
        } else {
            Err(CommandError::InvalidPeakOption(argv[1].clone()))
        }
    }
}

/// Reads the arguments of `top`.
fn parse_top(argv: &Vec<String>, total: usize) -> (r: Result<Command, CommandError>)
    ensures
        command_agrees(r, top_command(argv.deep_view(), total)),
{
    let n = argv.len();
    if n == 0 || n > 3 {
        return Err(CommandError::TopUsage);
    }
    assert(argv.deep_view()[0] == argv@[0]@);
    let k = match read_count(argv[0].as_str()) {
        Some(k) => k,
        None => {
            return Err(CommandError::InvalidCount(argv[0].clone()));
        },
    };
    if k >= total {
        return Err(CommandError::IndexOutOfBounds(k, total));
    }
    let mut options: Vec<&str> = Vec::new();
    let mut i: usize = 1;
    while i < n
        invariant
            1 <= i <= n,
            n == argv@.len(),
            options@.len() == i - 1,
            forall|j: int| 0 <= j < i - 1 ==> (#[trigger] options@[j])@ == argv@[j + 1]@,
        decreases n - i,
    {
        options.push(argv[i].as_str());
        i = i + 1;
    }
    let given = options.as_slice();
    proof {
        assert(given.deep_view() =~= argv.deep_view().skip(1));
    }
    match parse_topk_option(given) {
        Ok(option) => Ok(Command::Top { k, option }),
        Err(e) => Err(CommandError::Options(e)),
    }
}

/// Reads the arguments of `inspect`.
fn parse_inspect(argv: &Vec<String>, total: usize) -> (r: Result<Command, CommandError>)
    ensures
        command_agrees(r, inspect_command(argv.deep_view(), total)),
{
    let n = argv.len();
    if n == 0 {
        return Err(CommandError::InspectNeedsIndex);
    }
    assert(argv.deep_view()[0] == argv@[0]@);
    let index = match read_count(argv[0].as_str()) {
        Some(index) => index,
        None => {
            return Err(CommandError::InvalidIndex(argv[0].clone()));
        },
    };
    if index >= total {
        return Err(CommandError::IndexOutOfBounds(index, total));
    }
    if n == 1 {
        Ok(Command::Inspect { index })
    } else {
        Err(CommandError::UnsupportedOption(join_rest(argv)))
    }
}

/// Reads a line of input as a command for a store of `total` allocations.
pub fn parse_command(line: &str, total: usize) -> (r: Result<Command, CommandError>)
    ensures
        command_agrees(r, parse_line(line@, total)),
{
    let chars = chars_of(line);
    let n = chars.len();
    let blank = find_blank(&chars, 0);
    proof {
        assert(chars@.skip(0) =~= chars@);
        reveal_strlit("sql");
        reveal_strlit("sqlbuild");
        reveal_strlit("byte");
        reveal_strlit("timeline");
        reveal_strlit("help");
        reveal_strlit("q");
        reveal_strlit("quit");
        reveal_strlit("peak");
        reveal_strlit("top");
        reveal_strlit("i");
        reveal_strlit("inspect");
    }
    let rest_from: usize = if blank < n {
        blank + 1
    } else {
        n
    };
    proof {
        assert(chars@.subrange(rest_from as int, n as int) =~= after_blank(chars@));
    }
    let (a, b) = trim_bounds(&chars, rest_from, n);
    let word = part(line, 0, blank);
    let args = part(line, a, b);
    let ghost args_text = arguments(line@);
    assert(args@ == args_text);
    assert(word@ == command_word(line@));
    let word = word.as_str();
    if blank == 0 {
        return Ok(Command::Nothing);
    }
    if same_text(word, "sql") {
        if a == b {
            return Err(CommandError::EmptyQuery);
        }
        return Ok(Command::Sql(args));
    }
    if same_text(word, "sqlbuild") {
        if a != b {
            return Err(CommandError::SqlBuildTakesNoArguments);
        }
        return Ok(Command::SqlBuild);
    }
    if same_text(word, "byte") {
        proof {
            assert(args@.skip(0) =~= args@);
        }
        return match read_unsigned(args.as_str(), 0, u64::MAX) {
            Some(count) => Ok(Command::Byte(count)),
            None => Err(CommandError::InvalidByteValue(args)),
        };
    }
    if same_text(word, "timeline") {
        if a == b {
            return Err(CommandError::TimelineNeedsPath);
        }
        return Ok(Command::Timeline(args));
    }
    if same_text(word, "help") {
        if a != b {
            return Err(CommandError::HelpTakesNoArguments);
        }
        return Ok(Command::Help);
    }
    if same_text(word, "q") || same_text(word, "quit") {
        return Ok(Command::Quit);
    }
    let peak = same_text(word, "peak");
    let top = same_text(word, "top");
    let inspect = same_text(word, "i") || same_text(word, "inspect");
    if !peak && !top && !inspect {
        return Err(CommandError::Unsupported(line.to_owned()));
    }
    let bounds = word_bounds(&chars, a, b);
    let mut argv: Vec<String> = Vec::new();
    let mut i: usize = 0;
    while i < bounds.len()
        invariant
            i <= bounds@.len(),
            chars@ == line@,
            a <= b <= chars@.len(),
            bounds@.len() == words_of(args_text).len(),
            args_text == chars@.subrange(a as int, b as int),
            forall|k: int|
                0 <= k < bounds@.len() ==> a <= (#[trigger] bounds@[k]).0 <= bounds@[k].1 <= b
                    && chars@.subrange(bounds@[k].0 as int, bounds@[k].1 as int) == words_of(
                    args_text,
                )[k],
            argv@.len() == i,
            forall|k: int| 0 <= k < i ==> (#[trigger] argv@[k])@ == words_of(args_text)[k],
        decreases bounds@.len() - i,
    {
        let (from, to) = bounds[i];
        argv.push(part(line, from, to));
        i = i + 1;
    }
    proof {
        assert(argv.deep_view() =~= words_of(args_text));
    }
    if peak {
        parse_peak(&argv)
    } else if top {
        parse_top(&argv, total)
    } else {
        parse_inspect(&argv, total)
    }
}

/// A command that names an allocation or a rank bound names one that the
/// store has.
pub proof fn lemma_parsed_in_bounds(line: Seq<char>, total: usize)
    ensures
        parse_line(line, total) matches Ok(CommandView::Top { k, option }) ==> k < total,
        parse_line(line, total) matches Ok(CommandView::Inspect { index }) ==> index < total,
{
}

} // verus!
