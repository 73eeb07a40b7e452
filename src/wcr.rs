//! Counting the lines, words, bytes and characters of a text.
use vstd::prelude::*;
use vstd::string::{StringExecFns, StringSliceAdditionalSpecFns};

use crate::decimal::{append_right_aligned, right_aligned};
use crate::text::chars_of;

verus! {

/// Whether `c` has the Unicode `White_Space` property.
pub open spec fn white_space(c: char) -> bool {
    let u = c as u32;
    (9 <= u <= 13) || u == 32 || u == 0x85 || u == 0xa0 || u == 0x1680 || (0x2000 <= u <= 0x200a)
        || u == 0x2028 || u == 0x2029 || u == 0x202f || u == 0x205f || u == 0x3000
}

/// Number of newline characters in `s`.
pub open spec fn newline_chars(s: Seq<char>) -> nat
    decreases s.len(),
{
    if s.len() == 0 {
        0
    } else {
        newline_chars(s.drop_last()) + if s.last() == '\n' {
            1nat
        } else {
            0nat
        }
    }
}

/// Number of lines in `s`: its newlines, and a final unterminated fragment.
pub open spec fn text_lines(s: Seq<char>) -> nat {
    newline_chars(s) + if s.len() > 0 && s.last() != '\n' {
        1nat
    } else {
        0nat
    }
}

/// Number of words in `s`: maximal runs of characters that are not white space.
pub open spec fn text_words(s: Seq<char>) -> nat
    decreases s.len(),
{
    if s.len() == 0 {
        0
    } else {
        text_words(s.drop_last()) + if !white_space(s.last()) && (s.len() == 1 || white_space(
            s[s.len() - 2],
        )) {
            1nat
        } else {
            0nat
        }
    }
}

/// The counts of one input, or the sum of several.
#[derive(Debug, PartialEq)]
pub struct FileInfo {
    pub name: Option<String>,
    pub num_lines: usize,
    pub num_words: usize,
    pub num_bytes: usize,
    pub num_chars: usize,
}

/// Whether an owned name holds the same text as a borrowed one.
pub open spec fn same_name(a: Option<String>, b: Option<&str>) -> bool {
    match (a, b) {
        (None, None) => true,
        (Some(x), Some(y)) => x@ == y@,
        _ => false,
    }
}

impl FileInfo {
    /// Counts of zero under the given name.
    pub fn new(name: &Option<&str>) -> (r: FileInfo)
        ensures
            same_name(r.name, *name),
            r.num_lines == 0,
            r.num_words == 0,
            r.num_bytes == 0,
            r.num_chars == 0,
    {
        FileInfo {
            name: match name {
                None => None,
                Some(s) => Some((*s).to_owned()),
            },
            num_lines: 0,
            num_words: 0,
            num_bytes: 0,
            num_chars: 0,
        }
    }

    /// Adds the counts of `rhs` to these; the name stays.
    pub fn add_assign(&mut self, rhs: &FileInfo)
        requires
            old(self).num_lines + rhs.num_lines <= usize::MAX,
            old(self).num_words + rhs.num_words <= usize::MAX,
            old(self).num_bytes + rhs.num_bytes <= usize::MAX,
            old(self).num_chars + rhs.num_chars <= usize::MAX,
        ensures
            final(self).name == old(self).name,
            final(self).num_lines == old(self).num_lines + rhs.num_lines,
            final(self).num_words == old(self).num_words + rhs.num_words,
            final(self).num_bytes == old(self).num_bytes + rhs.num_bytes,
            final(self).num_chars == old(self).num_chars + rhs.num_chars,
    {
        self.num_bytes = self.num_bytes + rhs.num_bytes;
        self.num_chars = self.num_chars + rhs.num_chars;
        self.num_lines = self.num_lines + rhs.num_lines;
        self.num_words = self.num_words + rhs.num_words;
    }
}

/// Whether `c` is white space, as `char::is_whitespace` decides it.
pub fn is_white_space(c: char) -> (r: bool)
    ensures
        r == white_space(c),
{
    let u = c as u32;
    (9 <= u && u <= 13) || u == 32 || u == 0x85 || u == 0xa0 || u == 0x1680 || (0x2000 <= u && u
        <= 0x200a) || u == 0x2028 || u == 0x2029 || u == 0x202f || u == 0x205f || u == 0x3000
}

/// The counts of `text`, under the given name.
pub fn count(filename: &Option<&str>, text: &str) -> (r: FileInfo)
    ensures
        same_name(r.name, *filename),
        r.num_lines == text_lines(text@),
        r.num_words == text_words(text@),
        r.num_bytes == text.spec_bytes().len() as usize,
        r.num_chars == text@.len(),
{
    let mut info = FileInfo::new(filename);
    let chars = chars_of(text);
    let mut lines: usize = 0;
    let mut words: usize = 0;
    let mut i: usize = 0;
    while i < chars.len()
        invariant
            i <= chars@.len(),
            chars@ == text@,
            newline_chars(chars@.subrange(0, i as int)) == lines,
            text_words(chars@.subrange(0, i as int)) == words,
            lines <= i,
            words <= i,
            i > 0 && chars@[i - 1] != '\n' ==> lines < i,
        decreases chars@.len() - i,
    {
        let c = chars[i];
        let ghost prev = chars@.subrange(0, i as int);
        let ghost next = chars@.subrange(0, i + 1);
        assert(next.drop_last() =~= prev);
        if c == '\n' {
            lines = lines + 1;
        }
        if !is_white_space(c) && (i == 0 || is_white_space(chars[i - 1])) {
            words = words + 1;
        }
        i = i + 1;
    }
    assert(chars@.subrange(0, i as int) =~= text@);
    if chars.len() > 0 && chars[chars.len() - 1] != '\n' {
        lines = lines + 1;
    }
    info.num_lines = lines;
    info.num_words = words;
    info.num_bytes = text.len();
    info.num_chars = chars.len();
    info
}

/// Which counts are shown.
#[derive(Clone, Copy, Debug, PartialEq, Eq, Structural)]
pub struct Columns {
    pub lines: bool,
    pub words: bool,
    pub bytes: bool,
    pub chars: bool,
}

impl Columns {
    /// The columns to show: as asked, or lines, words and bytes where none was.
    pub fn resolve(self) -> (r: Columns)
        ensures
            (self.lines || self.words || self.bytes || self.chars) ==> r == self,
            !(self.lines || self.words || self.bytes || self.chars) ==> r == (Columns {
                lines: true,
                words: true,
                bytes: true,
                chars: false,
            }),
    {
        if self.lines || self.words || self.bytes || self.chars {
            self
        } else {
            Columns { lines: true, words: true, bytes: true, chars: false }
        }
    }

    pub open spec fn shown(self) -> nat {
        (if self.lines {
            1nat
        } else {
            0nat
        }) + (if self.words {
            1nat
        } else {
            0nat
        }) + (if self.bytes {
            1nat
        } else {
            0nat
        }) + (if self.chars {
            1nat
        } else {
            0nat
        })
    }
}

/// Number of decimal digits that write `n`.
pub open spec fn decimal_width(n: nat) -> nat
    decreases n,
{
    if n < 10 {
        1
    } else {
        1 + decimal_width(n / 10)
    }
}

/// The width of each count column: one where a single column is shown, else
/// the number of digits of the total byte count.
pub fn get_width(total: &FileInfo, columns: &Columns) -> (r: usize)
    ensures
        columns.shown() == 1 ==> r == 1,
        columns.shown() != 1 ==> r == decimal_width(total.num_bytes as nat),
{
    let shown: usize = (if columns.lines {
        1usize
    } else {
        0
    }) + (if columns.words {
        1usize
    } else {
        0
    }) + (if columns.bytes {
        1usize
    } else {
        0
    }) + (if columns.chars {
        1usize
    } else {
        0
    });
    if shown == 1 {
        return 1;
    }
    let mut n: usize = total.num_bytes;
    let mut width: usize = 1;
    while n >= 10
        invariant
            width + decimal_width(n as nat) == 1 + decimal_width(total.num_bytes as nat),
            width + n <= total.num_bytes + 1,
        decreases n,
    {
        n = n / 10;
        width = width + 1;
    }
    width
}

/// The counts that a row shows, in column order.
pub open spec fn shown_counts(info: FileInfo, c: Columns) -> Seq<usize> {
    (if c.lines {
        seq![info.num_lines]
    } else {
        Seq::empty()
    }) + (if c.words {
        seq![info.num_words]
    } else {
        Seq::empty()
    }) + (if c.bytes {
        seq![info.num_bytes]
    } else {
        Seq::empty()
    }) + (if c.chars {
        seq![info.num_chars]
    } else {
        Seq::empty()
    })
}

/// The counts, each right-aligned in `width` columns, a space between each two.
pub open spec fn count_cells(ns: Seq<usize>, width: nat) -> Seq<char>
    decreases ns.len(),
{
    if ns.len() == 0 {
        Seq::empty()
    } else {
        count_cells(ns.drop_last(), width) + (if ns.len() > 1 {
            seq![' ']
        } else {
            Seq::empty()
        }) + right_aligned(ns.last() as nat, width)
    }
}

/// A row of the report: the shown counts, then the name where there is one.
pub open spec fn info_line(info: FileInfo, c: Columns, width: nat) -> Seq<char> {
    count_cells(shown_counts(info, c), width) + match info.name {
        Some(n) => seq![' '] + n@,
        None => Seq::empty(),
    }
}

fn push_count(s: &mut String, n: usize, width: usize, first: bool, ghost_ns: Ghost<Seq<usize>>)
    requires
        old(s)@ == count_cells(ghost_ns@, width as nat),
        first == (ghost_ns@.len() == 0),
    ensures
        final(s)@ == count_cells(ghost_ns@.push(n), width as nat),
{
    proof {
        reveal_strlit(" ");
    }
    if !first {
        s.append(" ");
    }
    append_right_aligned(s, n, width);
    assert(ghost_ns@.push(n).drop_last() =~= ghost_ns@);
    assert(final(s)@ =~= count_cells(ghost_ns@.push(n), width as nat));
}

/// One row of the report for `info`, without its line end.
pub fn format_info(info: &FileInfo, columns: &Columns, width: usize) -> (r: String)
    ensures
        r@ == info_line(*info, *columns, width as nat),
{
    proof {
        reveal_strlit(" ");
    }
    let mut s = String::new();
    let ghost mut ns: Seq<usize> = Seq::empty();
    let mut first = true;
    if columns.lines {
        push_count(&mut s, info.num_lines, width, first, Ghost(ns));
        proof {
            ns = ns.push(info.num_lines);
        }
        first = false;
    }
    if columns.words {
        push_count(&mut s, info.num_words, width, first, Ghost(ns));
        proof {
            ns = ns.push(info.num_words);
        }
        first = false;
    }
    if columns.bytes {
        push_count(&mut s, info.num_bytes, width, first, Ghost(ns));
        proof {
            ns = ns.push(info.num_bytes);
        }
        first = false;
    }
    if columns.chars {
        push_count(&mut s, info.num_chars, width, first, Ghost(ns));
        proof {
            ns = ns.push(info.num_chars);
        }
    }
    assert(ns =~= shown_counts(*info, *columns));
    match &info.name {
        Some(name) => {
            s.append(" ");
            s.append(name.as_str());
        },
        None => {},
    }
    assert(s@ =~= info_line(*info, *columns, width as nat));
    s
}

/// The report of an input that could not be counted.
pub fn format_error(filename: &Option<&str>, error: &str) -> (r: String)
    ensures
        r@ == "wcr: "@ + match *filename {
            Some(f) => f@ + ": "@,
            None => Seq::empty(),
        } + error@,
{
    let mut s = String::new();
    s.append("wcr: ");
    match filename {
        Some(f) => {
            s.append(f);
            s.append(": ");
        },
        None => {},
    }
    s.append(error);
    assert(s@ =~= "wcr: "@ + match *filename {
        Some(f) => f@ + ": "@,
        None => Seq::empty(),
    } + error@);
    s
}

} // verus!
