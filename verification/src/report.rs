//! Allocations, frames and lists of indices as text.
use vstd::prelude::*;
use vstd::string::StringExecFns;
use crate::allocation::{Allocation, AllocationView, Frame, FrameView};
use crate::text::{decimal, push_decimal};
use crate::utils::{bytes_text, format_bytes};

verus! {

/// A frame as `  at name (filename:line)`.
pub open spec fn frame_text(frame: FrameView) -> Seq<char> {
    "  at "@ + frame.name + " ("@ + frame.filename + ":"@ + decimal(frame.line as nat) + ")"@
}

/// The first `n` numbers, in decimal, with `, ` between each two.
pub open spec fn numbers_text(numbers: Seq<u64>, n: nat) -> Seq<char>
    decreases n,
{
    if n == 0 {
        Seq::empty()
    } else if n == 1 {
        decimal(numbers[0] as nat)
    } else {
        numbers_text(numbers, (n - 1) as nat) + ", "@ + decimal(numbers[n - 1] as nat)
    }
}

/// A list of numbers as `[1, 2, 3]`.
pub open spec fn list_text(numbers: Seq<u64>) -> Seq<char> {
    "["@ + numbers_text(numbers, numbers.len()) + "]"@
}

/// The first `n` frames of a call stack, one per line: a branch mark, the
/// frame's position in brackets, and the frame. The last frame of the stack
/// gets the mark that closes the tree.
pub open spec fn frames_text(frames: Seq<FrameView>, n: nat) -> Seq<char>
    decreases n,
{
    if n == 0 {
        Seq::empty()
    } else {
        let mark = if n == frames.len() {
            "    └──"@
        } else {
            "    ├──"@
        };
        frames_text(frames, (n - 1) as nat) + mark + " ("@ + decimal((n - 1) as nat) + ")"@
            + frame_text(frames[n - 1]) + "\n"@
    }
}

/// The first sampled time, or 0 where there is none.
pub open spec fn first_or_zero(times: Seq<u64>) -> u64 {
    if times.len() == 0 {
        0
    } else {
        times[0]
    }
}

/// The last sampled time, or 0 where there is none.
pub open spec fn last_or_zero(times: Seq<u64>) -> u64 {
    if times.len() == 0 {
        0
    } else {
        times.last()
    }
}

/// The report of an allocation: its size, its peak, the times of its peak,
/// its first and last sampled time, and its call stack.
pub open spec fn allocation_text(a: AllocationView) -> Seq<char> {
    "Allocation Details:\n"@ + "├── Size: "@ + bytes_text(a.size) + "\n"@ + "├── Peak Memory: "@
        + bytes_text(a.peak_mem) + "\n"@ + "├── Peak Timestamps: "@ + list_text(a.peak_timestamps)
        + "\n"@ + "├── Timesteps: start "@ + decimal(first_or_zero(a.timesteps) as nat)
        + ", stop "@ + decimal(last_or_zero(a.timesteps) as nat) + "\n"@
        + "├── Offsets: omitted\n"@ + "└── Callstack:\n"@ + (if a.callstack.len() == 0 {
        "    └── (empty callstack)\n"@
    } else {
        frames_text(a.callstack, a.callstack.len())
    })
}

/// Appends a list of numbers as `[1, 2, 3]`.
pub fn push_list(out: &mut String, numbers: &Vec<u64>)
    ensures
        final(out)@ == old(out)@ + list_text(numbers@),
{
    out.append("[");
    let ghost start = out@;
    let mut i: usize = 0;
    while i < numbers.len()
        invariant
            i <= numbers@.len(),
            out@ == start + numbers_text(numbers@, i as nat),
        decreases numbers@.len() - i,
    {
        if i > 0 {
            out.append(", ");
        }
        push_decimal(out, numbers[i]);
        proof {
            if i > 0 {
                assert(out@ =~= start + (numbers_text(numbers@, i as nat) + ", "@ + decimal(
                    numbers@[i as int] as nat,
                )));
            } else {
                assert(out@ =~= start + decimal(numbers@[0] as nat));
            }
        }
        i = i + 1;
    }
    out.append("]");
    proof {
        assert(out@ =~= old(out)@ + list_text(numbers@));
    }
}

impl Frame {
    /// The frame as `  at name (filename:line)`.
    pub fn to_string(&self) -> (text: String)
        ensures
            text@ == frame_text(self@),
    {
        let mut text = String::new();
        text.append("  at ");
        text.append(self.name.as_str());
        text.append(" (");
        text.append(self.filename.as_str());
        text.append(":");
        push_decimal(&mut text, self.line as u64);
        text.append(")");
        proof {
            assert(text@ =~= frame_text(self@));
        }
        text
    }
}

impl Allocation {
    /// The report of the allocation.
    pub fn to_string(&self) -> (text: String)
        ensures
            text@ == allocation_text(self@),
    {
        let mut text = String::new();
        text.append("Allocation Details:\n");
        text.append("├── Size: ");
        text.append(format_bytes(self.size).as_str());
        text.append("\n");
        text.append("├── Peak Memory: ");
        text.append(format_bytes(self.peak_mem).as_str());
        text.append("\n");
        text.append("├── Peak Timestamps: ");
        push_list(&mut text, &self.peak_timestamps);
        text.append("\n");
        text.append("├── Timesteps: start ");
        let n = self.timesteps.len();
        let start: u64 = if n == 0 {
            0
        } else {
            self.timesteps[0]
        };
        let stop: u64 = if n == 0 {
            0
        } else {
            self.timesteps[n - 1]
        };
        push_decimal(&mut text, start);
        text.append(", stop ");
        push_decimal(&mut text, stop);
        text.append("\n");
        text.append("├── Offsets: omitted\n");
        text.append("└── Callstack:\n");
        let ghost head = text@;
        let ghost frames = self.callstack.deep_view();
        let count = self.callstack.len();
        if count == 0 {
            text.append("    └── (empty callstack)\n");
        } else {
            let mut i: usize = 0;
            while i < count
                invariant
                    i <= count,
                    count == self.callstack@.len(),
                    frames == self.callstack.deep_view(),
                    text@ == head + frames_text(frames, i as nat),
                decreases count - i,
            {
                if i == count - 1 {
                    text.append("    └──");
                } else {
                    text.append("    ├──");
                }
                text.append(" (");
                push_decimal(&mut text, i as u64);
                text.append(")");
                text.append(self.callstack[i].to_string().as_str());
                text.append("\n");
                proof {
                    assert(frames[i as int] == self.callstack@[i as int]@);
                    assert(text@ =~= head + frames_text(frames, (i + 1) as nat));
                }
                i = i + 1;
            }
        }
        proof {
            assert(text@ =~= allocation_text(self@));
        }
        text
    }
}

} // verus!
