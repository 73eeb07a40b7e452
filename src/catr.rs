//! Numbering the lines of concatenated inputs.
use vstd::prelude::*;
use vstd::string::{StrSliceExecFns, StringExecFns};

use crate::decimal::{append_right_aligned, right_aligned};

verus! {

/// Which lines get a number, and the next number to give. One counter runs on
/// across all inputs.
#[derive(Clone, Copy, Debug, PartialEq, Eq, Structural)]
pub enum Counter {
    /// Every line.
    All { count: usize },
    /// Every line that is not empty.
    NonBlank { count: usize },
    /// No line.
    Off,
}

impl Counter {
    /// The counter that the options ask for, numbering from one; numbering
    /// every line wins over numbering the non-empty ones.
    pub fn from_flags(number_lines: bool, number_nonblank_lines: bool) -> (r: Counter)
        ensures
            number_lines ==> r == (Counter::All { count: 1 }),
            !number_lines && number_nonblank_lines ==> r == (Counter::NonBlank { count: 1 }),
            !number_lines && !number_nonblank_lines ==> r == Counter::Off,
    {
        if number_lines {
            Counter::All { count: 1 }
        } else if number_nonblank_lines {
            Counter::NonBlank { count: 1 }
        } else {
            Counter::Off
        }
    }
}

/// A numbered line: the number right-aligned in six columns, a tab, the line.
pub open spec fn numbered(count: nat, line: Seq<char>) -> Seq<char> {
    right_aligned(count, 6) + seq!['\t'] + line
}

/// The output line for `line`, given the counter before it.
pub open spec fn shown_line(line: Seq<char>, c: Counter) -> Seq<char> {
    match c {
        Counter::Off => line,
        Counter::All { count } => numbered(count as nat, line),
        Counter::NonBlank { count } => if line.len() > 0 {
            numbered(count as nat, line)
        } else {
            Seq::empty()
        },
    }
}

/// The counter after `line`.
pub open spec fn counter_after(line: Seq<char>, c: Counter) -> Counter {
    match c {
        Counter::Off => c,
        Counter::All { count } => Counter::All { count: (count + 1) as usize },
        Counter::NonBlank { count } => if line.len() > 0 {
            Counter::NonBlank { count: (count + 1) as usize }
        } else {
            c
        },
    }
}

/// The largest number a counter may hold before another line.
pub open spec fn room(c: Counter) -> bool {
    match c {
        Counter::All { count } => count < usize::MAX,
        Counter::NonBlank { count } => count < usize::MAX,
        Counter::Off => true,
    }
}

/// The output line for `line`, numbered as the counter says; the counter moves
/// on past each line it numbers.
pub fn print_line(line: &str, counter: &mut Counter) -> (r: String)
    requires
        room(*old(counter)),
    ensures
        r@ == shown_line(line@, *old(counter)),
        *final(counter) == counter_after(line@, *old(counter)),
{
    proof {
        reveal_strlit("\t");
    }
    let mut s = String::new();
    match counter {
        Counter::Off => {
            s.append(line);
        },
        Counter::All { count } => {
            append_right_aligned(&mut s, *count, 6);
            s.append("\t");
            s.append(line);
            *count = *count + 1;
        },
        Counter::NonBlank { count } => {
            if line.unicode_len() > 0 {
                append_right_aligned(&mut s, *count, 6);
                s.append("\t");
                s.append(line);
                *count = *count + 1;
            }
        },
    }
    assert(s@ =~= shown_line(line@, *old(counter)));
    s
}

} // verus!
