//! What the store hands to a relational engine, and how the engine's answer
//! is laid out as text. The engine itself is not part of this library.
use vstd::prelude::*;
use vstd::string::StringExecFns;
use crate::allocation::{Allocation, AllocationView, Frame, FrameView};
use crate::text::{decimal, push_decimal};

verus! {

/// One row of the table of allocations.
#[derive(Debug, Clone, PartialEq, Eq)]
pub struct AllocationDbRow {
    pub index: usize,
    pub size: u64,
    pub callstack: String,
    pub peak_mem: u64,
    pub start_timestamp: u64,
    pub end_timestamp: u64,
}

/// The model of an [`AllocationDbRow`].
pub struct AllocationDbRowView {
    pub index: usize,
    pub size: u64,
    pub callstack: Seq<char>,
    pub peak_mem: u64,
    pub start_timestamp: u64,
    pub end_timestamp: u64,
}

impl View for AllocationDbRow {
    type V = AllocationDbRowView;

    open spec fn view(&self) -> AllocationDbRowView {
        AllocationDbRowView {
            index: self.index,
            size: self.size,
            callstack: self.callstack@,
            peak_mem: self.peak_mem,
            start_timestamp: self.start_timestamp,
            end_timestamp: self.end_timestamp,
        }
    }
}

impl DeepView for AllocationDbRow {
    type V = AllocationDbRowView;

    open spec fn deep_view(&self) -> AllocationDbRowView {
        self@
    }
}

/// One frame as `filename:line:name`.
pub open spec fn frame_line(frame: FrameView) -> Seq<char> {
    frame.filename + ":"@ + decimal(frame.line as nat) + ":"@ + frame.name
}

/// A call stack as text: one frame per line, outermost first, with no line
/// break after the last.
pub open spec fn callstack_text(frames: Seq<FrameView>) -> Seq<char>
    decreases frames.len(),
{
    if frames.len() == 0 {
        Seq::empty()
    } else if frames.len() == 1 {
        frame_line(frames[0])
    } else {
        callstack_text(frames.drop_last()) + "\n"@ + frame_line(frames.last())
    }
}

/// A call stack as text: one `filename:line:name` per line.
pub fn format_callstack(frames: &[Frame]) -> (text: String)
    ensures
        text@ == callstack_text(frames.deep_view()),
{
    let ghost model = frames.deep_view();
    let mut text = String::new();
    let mut i: usize = 0;
    while i < frames.len()
        invariant
            i <= frames@.len(),
            model == frames.deep_view(),
            text@ == callstack_text(model.take(i as int)),
        decreases frames@.len() - i,
    {
        let ghost before = text@;
        if i > 0 {
            text.append("\n");
        }
        let frame = &frames[i];
        text.append(frame.filename.as_str());
        text.append(":");
        push_decimal(&mut text, frame.line as u64);
        text.append(":");
        text.append(frame.name.as_str());
        proof {
            let now = model.take(i + 1);
            assert(now.drop_last() =~= model.take(i as int));
            assert(now.last() == frame@);
            if i > 0 {
                assert(text@ =~= before + "\n"@ + frame_line(frame@));
            } else {
                assert(text@ =~= frame_line(frame@));
            }
        }
        i = i + 1;
    }
    proof {
        assert(model.take(i as int) =~= model);
    }
    text
}

/// The row of the allocation at `index`.
pub open spec fn row_of(index: int, allocation: AllocationView) -> AllocationDbRowView {
    AllocationDbRowView {
        index: index as usize,
        size: allocation.size,
        callstack: callstack_text(allocation.callstack),
        peak_mem: allocation.peak_mem,
        start_timestamp: allocation.start(),
        end_timestamp: allocation.end(),
    }
}

/// The table of allocations: one row for each, in the order of the store.
pub open spec fn rows_of(allocations: Seq<AllocationView>) -> Seq<AllocationDbRowView> {
    Seq::new(allocations.len(), |i: int| row_of(i, allocations[i]))
}

/// The rows to fill the table of allocations with.
pub fn allocation_rows(allocations: &Vec<Allocation>) -> (rows: Vec<AllocationDbRow>)
    requires
        forall|i: int|
            0 <= i < allocations@.len() ==> (#[trigger] allocations@[i]).timesteps@.len() >= 1,
    ensures
        rows.deep_view() == rows_of(allocations.deep_view()),
{
    let mut rows: Vec<AllocationDbRow> = Vec::new();
    let mut index: usize = 0;
    while index < allocations.len()
        invariant
            index <= allocations@.len(),
            forall|i: int|
                0 <= i < allocations@.len() ==> (#[trigger] allocations@[i]).timesteps@.len() >= 1,
            rows@.len() == index,
            forall|i: int| 0 <= i < index ==> (#[trigger] rows@[i])@ == row_of(i, allocations@[i]@),
        decreases allocations@.len() - index,
    {
        let allocation = &allocations[index];
        assert(allocations@[index as int].timesteps@.len() >= 1);
        let span = allocation.start_end_time();
        let row = AllocationDbRow {
            index,
            size: allocation.size,
            callstack: format_callstack(allocation.callstack.as_slice()),
            peak_mem: allocation.peak_mem,
            start_timestamp: span.0,
            end_timestamp: span.1,
        };
        rows.push(row);
        index = index + 1;
    }
    proof {
        assert(rows.deep_view() =~= rows_of(allocations.deep_view()));
    }
    rows
}

/// One answer row as text: a heading with the row's number, then one line
/// for each column that has both a name and a value.
pub open spec fn answer_row_text(number: nat, names: Seq<Seq<char>>, values: Seq<Seq<char>>, n: nat) -> Seq<
    char,
>
    decreases n,
{
    if n == 0 {
        "\n===== Row "@ + decimal(number) + " =====\n"@
    } else {
        answer_row_text(number, names, values, (n - 1) as nat) + "column ["@ + names[n - 1]
            + "] : "@ + values[n - 1] + "\n"@
    }
}

/// The number of columns of a row that have both a name and a value.
pub open spec fn paired(names: Seq<Seq<char>>, values: Seq<Seq<char>>) -> nat {
    if names.len() <= values.len() {
        names.len()
    } else {
        values.len()
    }
}

/// The first `n` answer rows as text, under one heading.
pub open spec fn answer_text(names: Seq<Seq<char>>, rows: Seq<Seq<Seq<char>>>, n: nat) -> Seq<char>
    decreases n,
{
    if n == 0 {
        "\n===== SQL Query Results =====\n"@
    } else {
        answer_text(names, rows, (n - 1) as nat) + answer_row_text(
            (n - 1) as nat,
            names,
            rows[n - 1],
            paired(names, rows[n - 1]),
        )
    }
}

/// Lays out the answer to a query: the names of its columns and, for each
/// row, the value of each column as text.
pub fn format_answer(names: &Vec<String>, rows: &Vec<Vec<String>>) -> (text: String)
    ensures
        text@ == answer_text(names.deep_view(), rows.deep_view(), rows@.len()),
{
    let ghost name_texts = names.deep_view();
    let ghost row_texts = rows.deep_view();
    let mut text = String::new();
    text.append("\n===== SQL Query Results =====\n");
    assert(text@ =~= answer_text(name_texts, row_texts, 0));
    let mut r: usize = 0;
    while r < rows.len()
        invariant
            r <= rows@.len(),
            name_texts == names.deep_view(),
            row_texts == rows.deep_view(),
            text@ == answer_text(name_texts, row_texts, r as nat),
        decreases rows@.len() - r,
    {
        let row = &rows[r];
        let ghost values = row.deep_view();
        let ghost before = text@;
        assert(row_texts[r as int] == values);
        text.append("\n===== Row ");
        push_decimal(&mut text, r as u64);
        text.append(" =====\n");
        assert(text@ =~= before + answer_row_text(r as nat, name_texts, values, 0));
        let cols: usize = if names.len() <= row.len() {
            names.len()
        } else {
            row.len()
        };
        let mut c: usize = 0;
        while c < cols
            invariant
                c <= cols,
                cols == paired(name_texts, values),
                name_texts == names.deep_view(),
                values == row.deep_view(),
                text@ == before + answer_row_text(r as nat, name_texts, values, c as nat),
            decreases cols - c,
        {
            text.append("column [");
            text.append(names[c].as_str());
            text.append("] : ");
            text.append(row[c].as_str());
            text.append("\n");
            proof {
                assert(name_texts[c as int] == names@[c as int]@);
                assert(values[c as int] == row@[c as int]@);
                assert(text@ =~= before + answer_row_text(
                    r as nat,
                    name_texts,
                    values,
                    (c + 1) as nat,
                ));
            }
            c = c + 1;
        }
        r = r + 1;
    }
    text
}

} // verus!
