//! Carrying out the commands of a session against a store.
//!
//! A command either is answered here, from the store, or asks for work that
//! is not this library's: to run a query against a relational engine, to
//! fill that engine, or to draw the timeline. [`MemSnap::exec`] answers the
//! first kind and hands the second kind back as a [`Reply`] for the caller
//! to perform.
use vstd::prelude::*;
use vstd::string::{StrSliceExecFns, StringExecFns};
use vstd::utf8::is_ascii_chars;
use crate::allocation::{Allocation, AllocationView};
use crate::command::{
    parse_command, parse_line, Command, CommandError, CommandErrorView, CommandView,
};
use crate::memsnap::{MemSnap, MemSnapView, QueryError};
use crate::report::allocation_text;
use crate::text::{decimal, parse_unsigned, push_decimal, read_unsigned, same_text};
use crate::utils::{bytes_text, format_bytes};

verus! {

/// The request to leave the session.
#[derive(Debug, Clone, Copy, PartialEq, Eq, Structural)]
pub struct Quit;

/// Which allocations the `top` command ranks, and how much it shows of
/// each.
#[derive(Debug, Clone, Copy, PartialEq, Eq, Structural)]
pub enum TopkOption {
    /// All allocations, as a list of indices.
    Global,
    /// The allocations alive at a time, as a list of indices.
    Timestamp(u32),
    /// All allocations, each in full.
    GlobalVerbose,
    /// The allocations alive at a time, each in full.
    TimestampVerbose(u32),
}

/// Why the options of the `top` command were not understood.
#[derive(Debug, Clone, PartialEq, Eq)]
pub enum OptionError {
    /// An option that starts with `@` but does not go on as a 32-bit number.
    InvalidTimestamp(String),
    /// A single option that is neither `v`, `verbose` nor a timestamp.
    UnrecognizedOption(String),
    /// Two options that are not `v` or `verbose` followed by a timestamp.
    UnrecognizedOptions(String, String),
    /// More than two options: how many there were.
    TooManyOptions(usize),
}

/// The model of an [`OptionError`].
pub enum OptionErrorView {
    InvalidTimestamp(Seq<char>),
    UnrecognizedOption(Seq<char>),
    UnrecognizedOptions(Seq<char>, Seq<char>),
    TooManyOptions(usize),
}

impl View for OptionError {
    type V = OptionErrorView;

    open spec fn view(&self) -> OptionErrorView {
        match self {
            OptionError::InvalidTimestamp(s) => OptionErrorView::InvalidTimestamp(s@),
            OptionError::UnrecognizedOption(s) => OptionErrorView::UnrecognizedOption(s@),
            OptionError::UnrecognizedOptions(a, b) => OptionErrorView::UnrecognizedOptions(
                a@,
                b@,
            ),
            OptionError::TooManyOptions(n) => OptionErrorView::TooManyOptions(*n),
        }
    }
}

/// Whether an option asks for each allocation in full.
pub open spec fn is_verbose(option: Seq<char>) -> bool {
    option == "v"@ || option == "verbose"@
}

/// Whether an option names a time: whether it starts with `@`.
pub open spec fn is_timestamp(option: Seq<char>) -> bool {
    option.len() > 0 && option[0] == '@'
}

/// The time that an option names: the 32-bit number after its `@`.
pub open spec fn timestamp_of(option: Seq<char>) -> Option<u32>
    recommends
        is_timestamp(option),
{
    match parse_unsigned(option.skip(1), u32::MAX as nat) {
        Some(v) => Some(v as u32),
        None => None,
    }
}

/// What the options of a `top` command ask for.
///
/// No option: all allocations. One option: `v` or `verbose` for all in
/// full, or `@` and a time. Two options: `v` or `verbose`, then `@` and a
/// time. Anything else is not understood.
pub open spec fn topk_option(options: Seq<Seq<char>>) -> Result<TopkOption, OptionErrorView> {
    if options.len() == 0 {
        Ok(TopkOption::Global)
    } else if options.len() == 1 {
        let s = options[0];
        if is_verbose(s) {
            Ok(TopkOption::GlobalVerbose)
        } else if is_timestamp(s) {
            match timestamp_of(s) {
                Some(t) => Ok(TopkOption::Timestamp(t)),
                None => Err(OptionErrorView::InvalidTimestamp(s)),
            }
        } else {
            Err(OptionErrorView::UnrecognizedOption(s))
        }
    } else if options.len() == 2 {
        let s1 = options[0];
        let s2 = options[1];
        if is_verbose(s1) && is_timestamp(s2) {
            match timestamp_of(s2) {
                Some(t) => Ok(TopkOption::TimestampVerbose(t)),
                None => Err(OptionErrorView::InvalidTimestamp(s2)),
            }
        } else {
            Err(OptionErrorView::UnrecognizedOptions(s1, s2))
        }
    } else {
        Err(OptionErrorView::TooManyOptions(options.len() as usize))
    }
}

/// Whether what was returned is what the model says.
pub open spec fn option_agrees(
    r: Result<TopkOption, OptionError>,
    expected: Result<TopkOption, OptionErrorView>,
) -> bool {
    match expected {
        Ok(option) => r == Ok::<TopkOption, OptionError>(option),
        Err(e) => r matches Err(f) && f@ == e,
    }
}

/// Whether an option asks for each allocation in full.
fn verbose_option(option: &str) -> (verbose: bool)
    ensures
        verbose == is_verbose(option@),
{
    same_text(option, "v") || same_text(option, "verbose")
}

/// Whether an option names a time.
fn timestamp_option(option: &str) -> (timestamp: bool)
    ensures
        timestamp == is_timestamp(option@),
{
    !option.is_empty() && option.get_char(0) == '@'
}

/// The time that an option names.
fn read_timestamp(option: &str) -> (time: Option<u32>)
    requires
        is_timestamp(option@),
    ensures
        time == timestamp_of(option@),
{
    proof {
        assert(is_ascii_chars(option@.take(1)));
    }
    match read_unsigned(option, 1, u32::MAX as u64) {
        Some(v) => Some(v as u32),
        None => None,
    }
}

/// Reads the options of a `top` command.
pub fn parse_topk_option(options: &[&str]) -> (r: Result<TopkOption, OptionError>)
    ensures
        option_agrees(r, topk_option(options.deep_view())),
{
    let n = options.len();
    if n == 0 {
        Ok(TopkOption::Global)
    } else if n == 1 {
        let s = options[0];
        assert(options.deep_view()[0] == s@);
        if verbose_option(s) {
            Ok(TopkOption::GlobalVerbose)
        } else if timestamp_option(s) {
            match read_timestamp(s) {
                Some(t) => Ok(TopkOption::Timestamp(t)),
                None => Err(OptionError::InvalidTimestamp(s.to_owned())),
            }
        } else {
            Err(OptionError::UnrecognizedOption(s.to_owned()))
        }
    } else if n == 2 {
        let s1 = options[0];
        let s2 = options[1];
        assert(options.deep_view()[0] == s1@);
        assert(options.deep_view()[1] == s2@);
        if verbose_option(s1) && timestamp_option(s2) {
            match read_timestamp(s2) {
                Some(t) => Ok(TopkOption::TimestampVerbose(t)),
                None => Err(OptionError::InvalidTimestamp(s2.to_owned())),
            }
        } else {
            Err(OptionError::UnrecognizedOptions(s1.to_owned(), s2.to_owned()))
        }
    } else {
        Err(OptionError::TooManyOptions(n))
    }
}

/// What a command comes to.
#[derive(Debug, Clone, PartialEq, Eq)]
pub enum Reply {
    /// Text to show.
    Text(String),
    /// A query to run against the table of allocations.
    RunSql(String),
    /// The table of allocations is to be built.
    BuildSqlite,
    /// The timeline is to be drawn into the file at this path.
    PlotTimeline(String),
}

/// The model of a [`Reply`].
pub enum ReplyView {
    Text(Seq<char>),
    RunSql(Seq<char>),
    BuildSqlite,
    PlotTimeline(Seq<char>),
}

impl View for Reply {
    type V = ReplyView;

    open spec fn view(&self) -> ReplyView {
        match self {
            Reply::Text(text) => ReplyView::Text(text@),
            Reply::RunSql(query) => ReplyView::RunSql(query@),
            Reply::BuildSqlite => ReplyView::BuildSqlite,
            Reply::PlotTimeline(path) => ReplyView::PlotTimeline(path@),
        }
    }
}

/// The first `n` indices, in decimal, with `, ` between each two.
pub open spec fn indices_text(indices: Seq<usize>, n: nat) -> Seq<char>
    decreases n,
{
    if n == 0 {
        Seq::empty()
    } else if n == 1 {
        decimal(indices[0] as nat)
    } else {
        indices_text(indices, (n - 1) as nat) + ", "@ + decimal(indices[n - 1] as nat)
    }
}

/// A ranking as one line of indices.
pub open spec fn index_line(indices: Seq<usize>) -> Seq<char> {
    "Index, sorted descending by allocation size: "@ + indices_text(indices, indices.len())
}

/// The allocation at rank `rank` of a ranking: `#`, the rank, and on the
/// next line the report of the allocation.
pub open spec fn ranked_entry(allocations: Seq<AllocationView>, indices: Seq<usize>, rank: int) -> Seq<
    char,
> {
    "#"@ + decimal(rank as nat) + "\n"@ + allocation_text(allocations[indices[rank] as int])
}

/// The first `n` allocations of a ranking, each in full, with an empty line
/// between each two.
pub open spec fn ranked_text(allocations: Seq<AllocationView>, indices: Seq<usize>, n: nat) -> Seq<
    char,
>
    decreases n,
{
    if n == 0 {
        Seq::empty()
    } else if n == 1 {
        ranked_entry(allocations, indices, 0)
    } else {
        ranked_text(allocations, indices, (n - 1) as nat) + "\n\n"@ + ranked_entry(
            allocations,
            indices,
            n - 1,
        )
    }
}

/// The list of commands.
pub open spec fn help_text() -> Seq<char> {
    "Available commands:\n  help                    - Display this help message.\n  i | inspect <index>     - Inspect an allocation at the specified index.\n  sql <query>             - Execute an SQL query against the loaded data (require build sql database first).\n  sqlbuild                - Build the in-memory sqlite database from current data.\n  byte <value>            - Format a byte value (e.g., '1024' -> '1.0 KiB').\n  timeline <path>         - Plot a timeline graph and save it to the specified path.\n  q | quit                - Exit the application."@
}

/// A ranking as the command that asked for it shows it.
pub open spec fn ranking_reply(
    allocations: Seq<AllocationView>,
    answer: Result<Seq<usize>, QueryError>,
    verbose: bool,
) -> Result<ReplyView, CommandErrorView> {
    match answer {
        Err(e) => Err(CommandErrorView::Query(e)),
        Ok(top) => Ok(
            ReplyView::Text(
                if verbose {
                    ranked_text(allocations, top, top.len())
                } else {
                    index_line(top)
                },
            ),
        ),
    }
}

/// What a command comes to, against a store.
pub open spec fn respond(store: MemSnapView, command: CommandView) -> Result<
    ReplyView,
    CommandErrorView,
> {
    match command {
        CommandView::Nothing => Ok(ReplyView::Text(Seq::empty())),
        CommandView::Sql(query) => Ok(ReplyView::RunSql(query)),
        CommandView::SqlBuild => Ok(ReplyView::BuildSqlite),
        CommandView::Byte(count) => Ok(ReplyView::Text(bytes_text(count))),
        CommandView::Timeline(path) => Ok(ReplyView::PlotTimeline(path)),
        CommandView::Peak { k, verbose } => ranking_reply(
            store.allocations,
            store.peak_topk(k),
            verbose,
        ),
        CommandView::Top { k, option } => match option {
            TopkOption::Global => ranking_reply(store.allocations, store.global_topk(k), false),
            TopkOption::GlobalVerbose => ranking_reply(
                store.allocations,
                store.global_topk(k),
                true,
            ),
            TopkOption::Timestamp(time) => ranking_reply(
                store.allocations,
                store.timestamp_topk(time as u64, k),
                false,
            ),
            TopkOption::TimestampVerbose(time) => ranking_reply(
                store.allocations,
                store.timestamp_topk(time as u64, k),
                true,
            ),
        },
        CommandView::Inspect { index } => Ok(
            ReplyView::Text(allocation_text(store.allocations[index as int])),
        ),
        CommandView::Help => Ok(ReplyView::Text(help_text())),
        CommandView::Quit => Err(CommandErrorView::Quit),
    }
}

/// The store after a command.
pub open spec fn after_command(store: MemSnapView, command: CommandView) -> MemSnapView {
    match command {
        CommandView::Peak { k, verbose } => store.after_peak_topk(k),
        CommandView::Top { k, option } => match option {
            TopkOption::Global => store.after_global_topk(k),
            TopkOption::GlobalVerbose => store.after_global_topk(k),
            TopkOption::Timestamp(time) => store.after_timestamp_topk(time as u64, k),
            TopkOption::TimestampVerbose(time) => store.after_timestamp_topk(time as u64, k),
        },
        _ => store,
    }
}

/// Whether what was returned is what the model says.
pub open spec fn reply_agrees(
    r: Result<Reply, CommandError>,
    expected: Result<ReplyView, CommandErrorView>,
) -> bool {
    match expected {
        Ok(reply) => r matches Ok(x) && x@ == reply,
        Err(e) => r matches Err(f) && f@ == e,
    }
}

/// A ranking as one line of indices.
pub fn list_indices(indices: &Vec<usize>) -> (text: String)
    ensures
        text@ == index_line(indices@),
{
    let mut text = String::new();
    text.append("Index, sorted descending by allocation size: ");
    let ghost start = text@;
    let mut i: usize = 0;
    while i < indices.len()
        invariant
            i <= indices@.len(),
            text@ == start + indices_text(indices@, i as nat),
        decreases indices@.len() - i,
    {
        if i > 0 {
            text.append(", ");
        }
        push_decimal(&mut text, indices[i] as u64);
        proof {
            if i > 0 {
                assert(text@ =~= start + (indices_text(indices@, i as nat) + ", "@ + decimal(
                    indices@[i as int] as nat,
                )));
            } else {
                assert(text@ =~= start + decimal(indices@[0] as nat));
            }
        }
        i = i + 1;
    }
    text
}

/// The allocations of a ranking, each in full.
pub fn list_ranked(allocations: &Vec<Allocation>, indices: &Vec<usize>) -> (text: String)
    requires
        forall|a: int| 0 <= a < indices@.len() ==> (#[trigger] indices@[a]) < allocations@.len(),
    ensures
        text@ == ranked_text(allocations.deep_view(), indices@, indices@.len()),
{
    let ghost model = allocations.deep_view();
    let mut text = String::new();
    let mut rank: usize = 0;
    while rank < indices.len()
        invariant
            rank <= indices@.len(),
            model == allocations.deep_view(),
            forall|a: int|
                0 <= a < indices@.len() ==> (#[trigger] indices@[a]) < allocations@.len(),
            text@ == ranked_text(model, indices@, rank as nat),
        decreases indices@.len() - rank,
    {
        let ghost before = text@;
        if rank > 0 {
            text.append("\n\n");
        }
        text.append("#");
        push_decimal(&mut text, rank as u64);
        text.append("\n");
        assert(indices@[rank as int] < allocations@.len());
        let allocation = &allocations[indices[rank]];
        text.append(allocation.to_string().as_str());
        proof {
            assert(model[indices@[rank as int] as int] == allocation@);
            if rank > 0 {
                assert(text@ =~= before + "\n\n"@ + ranked_entry(model, indices@, rank as int));
            } else {
                assert(text@ =~= ranked_entry(model, indices@, 0));
            }
        }
        rank = rank + 1;
    }
    text
}

/// The list of commands.
pub fn help_message() -> (text: String)
    ensures
        text@ == help_text(),
{
    let mut text = String::new();
    text.append(
        "Available commands:\n  help                    - Display this help message.\n  i | inspect <index>     - Inspect an allocation at the specified index.\n  sql <query>             - Execute an SQL query against the loaded data (require build sql database first).\n  sqlbuild                - Build the in-memory sqlite database from current data.\n  byte <value>            - Format a byte value (e.g., '1024' -> '1.0 KiB').\n  timeline <path>         - Plot a timeline graph and save it to the specified path.\n  q | quit                - Exit the application.",
    );
    proof {
        assert(text@ =~= help_text());
    }
    text
}

impl MemSnap {
    /// Shows a ranking that a query gave, or hands on its refusal.
    fn show_ranking(
        &self,
        answer: Result<Vec<usize>, QueryError>,
        verbose: bool,
    ) -> (r: Result<Reply, CommandError>)
        requires
            answer matches Ok(top) ==> forall|a: int|
                0 <= a < top@.len() ==> (#[trigger] top@[a]) < self@.allocations.len(),
        ensures
            match answer {
                Ok(top) => reply_agrees(
                    r,
                    ranking_reply(
                        self@.allocations,
                        Ok::<Seq<usize>, QueryError>(top@),
                        verbose,
                    ),
                ),
                Err(e) => reply_agrees(
                    r,
                    ranking_reply(
                        self@.allocations,
                        Err::<Seq<usize>, QueryError>(e),
                        verbose,
                    ),
                ),
            },
    {
        match answer {
            Err(e) => Err(CommandError::Query(e)),
            Ok(top) => {
                if verbose {
                    Ok(Reply::Text(list_ranked(self.allocations(), &top)))
                } else {
                    Ok(Reply::Text(list_indices(&top)))
                }
            },
        }
    }

    /// The report of the allocation at `index`: its size, its peak, the
    /// times of its peak, its first and last sampled time, and its call
    /// stack. An index that is not below the number of allocations is
    /// refused.
    pub fn allocation_detail(&self, index: usize) -> (r: Result<String, QueryError>)
        ensures
            index < self@.allocations.len() ==> (r matches Ok(text) && text@ == allocation_text(
                self@.allocations[index as int],
            )),
            index >= self@.allocations.len() ==> r == Err::<String, QueryError>(
                QueryError::OutOfBounds(index, self@.allocations.len() as usize),
            ),
    {
        let allocations = self.allocations();
        if index >= allocations.len() {
            return Err(QueryError::OutOfBounds(index, allocations.len()));
        }
        assert(allocations.deep_view()[index as int] == allocations@[index as int]@);
        Ok(allocations[index].to_string())
    }

    /// Carries out one line of input.
    ///
    /// The line is read as a command ([`parse_line`]). A line that is not
    /// understood leaves the store as it was. A command that the store can
    /// answer is answered as text; the queries among them fill the store's
    /// caches as they do on their own. A command for work outside the store
    /// comes back as the [`Reply`] that names that work.
    pub fn exec(&mut self, cmd: String) -> (r: Result<Reply, CommandError>)
        ensures
            final(self)@.wf(),
            match parse_line(cmd@, old(self)@.allocations.len() as usize) {
                Err(e) => final(self)@ == old(self)@ && (r matches Err(f) && f@ == e),
                Ok(command) => final(self)@ == after_command(old(self)@, command) && reply_agrees(
                    r,
                    respond(old(self)@, command),
                ),
            },
    {
        let total = self.len();
        let command = match parse_command(cmd.as_str(), total) {
            Ok(command) => command,
            Err(e) => {
                return Err(e);
            },
        };
        proof {
            crate::command::lemma_parsed_in_bounds(cmd@, total);
        }
        match command {
            Command::Nothing => Ok(Reply::Text(String::new())),
            Command::Sql(query) => Ok(Reply::RunSql(query)),
            Command::SqlBuild => Ok(Reply::BuildSqlite),
            Command::Byte(count) => Ok(Reply::Text(format_bytes(count))),
            Command::Timeline(path) => Ok(Reply::PlotTimeline(path)),
            Command::Peak { k, verbose } => {
                let answer = self.peak_topk(k);
                self.show_ranking(answer, verbose)
            },
            Command::Top { k, option } => match option {
                TopkOption::Global => {
                    let answer = self.global_topk(k);
                    self.show_ranking(answer, false)
                },
                TopkOption::GlobalVerbose => {
                    let answer = self.global_topk(k);
                    self.show_ranking(answer, true)
                },
                TopkOption::Timestamp(time) => {
                    let answer = self.timestamp_topk(time as u64, k);
                    self.show_ranking(answer, false)
                },
                TopkOption::TimestampVerbose(time) => {
                    let answer = self.timestamp_topk(time as u64, k);
                    self.show_ranking(answer, true)
                },
            },
            Command::Inspect { index } => match self.allocation_detail(index) {
                Ok(text) => Ok(Reply::Text(text)),
                Err(e) => Err(CommandError::Query(e)),
            },
            Command::Help => Ok(Reply::Text(help_message())),
            Command::Quit => Err(CommandError::Quit(Quit)),
        }
    }
}

} // verus!
