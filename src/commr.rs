//! Comparing two sorted inputs line by line: lines only in the first, lines
//! only in the second, and lines in both, each in a column of its own.
use vstd::prelude::*;
use vstd::string::{StringExecFns, StringSliceAdditionalSpecFns};
use vstd::utf8::encode_utf8;

use crate::text::{chars_of, lower_of, lowercase};

verus! {

/// How the columns are compared and written.
pub struct CommOptions {
    pub suppress_first: bool,
    pub suppress_second: bool,
    pub suppress_common: bool,
    pub insensitive: bool,
    pub delimiter: String,
}

/// The order of two byte strings: negative, zero or positive as `a` sorts
/// before, with or after `b`.
pub open spec fn lex(a: Seq<u8>, b: Seq<u8>) -> int
    decreases a.len(),
{
    if a.len() == 0 && b.len() == 0 {
        0
    } else if a.len() == 0 {
        -1
    } else if b.len() == 0 {
        1
    } else if a[0] < b[0] {
        -1
    } else if a[0] > b[0] {
        1
    } else {
        lex(a.drop_first(), b.drop_first())
    }
}

/// A line as it is compared and written.
pub open spec fn folded(s: Seq<char>, insensitive: bool) -> Seq<char> {
    if insensitive {
        lower_of(s)
    } else {
        s
    }
}

/// The order of two lines: that of their UTF-8 encodings, as `String` orders them.
pub open spec fn line_order(a: Seq<char>, b: Seq<char>) -> int {
    lex(encode_utf8(a), encode_utf8(b))
}

/// What is written before a value of a column: a delimiter for each column
/// shown to its left.
pub open spec fn prefix(column: nat, o: CommOptions) -> Seq<char> {
    let d = o.delimiter@;
    if column == 1 {
        Seq::empty()
    } else if column == 2 {
        if o.suppress_first {
            Seq::empty()
        } else {
            d
        }
    } else if o.suppress_first && o.suppress_second {
        Seq::empty()
    } else if o.suppress_first || o.suppress_second {
        d
    } else {
        d + d
    }
}

/// Whether a column is shown.
pub open spec fn shown(column: nat, o: CommOptions) -> bool {
    if column == 1 {
        !o.suppress_first
    } else if column == 2 {
        !o.suppress_second
    } else {
        !o.suppress_common
    }
}

/// The output line for a value in a column, if the column is shown.
pub open spec fn emit(column: nat, v: Seq<char>, o: CommOptions) -> Seq<Seq<char>> {
    if shown(column, o) {
        seq![prefix(column, o) + v]
    } else {
        Seq::empty()
    }
}

/// The output of comparing the (already folded) lines `a` and `b`.
pub open spec fn comm(a: Seq<Seq<char>>, b: Seq<Seq<char>>, o: CommOptions) -> Seq<Seq<char>>
    decreases a.len() + b.len(),
{
    if a.len() == 0 && b.len() == 0 {
        Seq::empty()
    } else if b.len() == 0 {
        emit(1, a[0], o) + comm(a.drop_first(), b, o)
    } else if a.len() == 0 {
        emit(2, b[0], o) + comm(a, b.drop_first(), o)
    } else if line_order(a[0], b[0]) > 0 {
        emit(2, b[0], o) + comm(a, b.drop_first(), o)
    } else if line_order(a[0], b[0]) < 0 {
        emit(1, a[0], o) + comm(a.drop_first(), b, o)
    } else {
        emit(3, a[0], o) + comm(a.drop_first(), b.drop_first(), o)
    }
}

fn compare_bytes(a: &[u8], b: &[u8]) -> (r: i8)
    ensures
        r as int == lex(a@, b@),
{
    let mut i: usize = 0;
    assert(a@.subrange(0, a@.len() as int) =~= a@);
    assert(b@.subrange(0, b@.len() as int) =~= b@);
    while i < a.len() && i < b.len()
        invariant
            i <= a@.len(),
            i <= b@.len(),
            lex(a@, b@) == lex(a@.subrange(i as int, a@.len() as int), b@.subrange(i as int, b@.len() as int)),
        decreases a@.len() - i,
    {
        let ghost sa = a@.subrange(i as int, a@.len() as int);
        let ghost sb = b@.subrange(i as int, b@.len() as int);
        assert(sa.drop_first() =~= a@.subrange(i + 1, a@.len() as int));
        assert(sb.drop_first() =~= b@.subrange(i + 1, b@.len() as int));
        assert(sa[0] == a@[i as int] && sb[0] == b@[i as int]);
        if a[i] < b[i] {
            return -1;
        }
        if a[i] > b[i] {
            return 1;
        }
        i = i + 1;
    }
    if i == a.len() && i == b.len() {
        0
    } else if i == a.len() {
        -1
    } else {
        1
    }
}

fn fold_all(lines: &[String], insensitive: bool) -> (r: Vec<String>)
    ensures
        r@.len() == lines@.len(),
        forall|k: int| 0 <= k < lines@.len() ==> #[trigger] r@[k]@ == folded(lines@[k]@, insensitive),
{
    let mut r: Vec<String> = Vec::new();
    let mut i: usize = 0;
    while i < lines.len()
        invariant
            i <= lines@.len(),
            r@.len() == i,
            forall|k: int| 0 <= k < i ==> #[trigger] r@[k]@ == folded(lines@[k]@, insensitive),
        decreases lines@.len() - i,
    {
        if insensitive {
            r.push(lowercase(lines[i].as_str()));
        } else {
            r.push(lines[i].clone());
        }
        i = i + 1;
    }
    r
}

fn push_emit(out: &mut Vec<String>, column: u8, v: &String, o: &CommOptions)
    requires
        1 <= column <= 3,
    ensures
        final(out)@.map_values(|s: String| s@) == old(out)@.map_values(|s: String| s@) + emit(
            column as nat,
            v@,
            *o,
        ),
{
    let show = if column == 1 {
        !o.suppress_first
    } else if column == 2 {
        !o.suppress_second
    } else {
        !o.suppress_common
    };
    let ghost before = old(out)@.map_values(|s: String| s@);
    if !show {
        assert(before + emit(column as nat, v@, *o) =~= before);
        return ;
    }
    let mut line = String::new();
    let d = o.delimiter.as_str();
    if column == 2 && !o.suppress_first {
        line.append(d);
    } else if column == 3 && (o.suppress_first || o.suppress_second) && !(o.suppress_first
        && o.suppress_second) {
        line.append(d);
    } else if column == 3 && !o.suppress_first && !o.suppress_second {
        line.append(d);
        line.append(d);
    }
    line.append(v.as_str());
    assert(line@ =~= prefix(column as nat, *o) + v@);
    out.push(line);
    assert(out@.map_values(|s: String| s@) =~= before + emit(column as nat, v@, *o));
}

/// Compares the lines of two sorted inputs and returns the output lines: each
/// line only in `lines1` in the first column, each only in `lines2` in the
/// second, each in both in the third, columns shown as `options` asks.
pub fn run(lines1: &[String], lines2: &[String], options: &CommOptions) -> (r: Vec<String>)
    ensures
        r@.map_values(|s: String| s@) == comm(
            lines1@.map_values(|s: String| folded(s@, options.insensitive)),
            lines2@.map_values(|s: String| folded(s@, options.insensitive)),
            *options,
        ),
{
    let a = fold_all(lines1, options.insensitive);
    let b = fold_all(lines2, options.insensitive);
    let ghost fa = a@.map_values(|s: String| s@);
    let ghost fb = b@.map_values(|s: String| s@);
    assert(fa =~= lines1@.map_values(|s: String| folded(s@, options.insensitive)));
    assert(fb =~= lines2@.map_values(|s: String| folded(s@, options.insensitive)));
    let mut out: Vec<String> = Vec::new();
    let mut i: usize = 0;
    let mut j: usize = 0;
    assert(fa.subrange(0, fa.len() as int) =~= fa);
    assert(fb.subrange(0, fb.len() as int) =~= fb);
    assert(out@.map_values(|s: String| s@) + comm(fa, fb, *options) =~= comm(fa, fb, *options));
    while i < a.len() || j < b.len()
        invariant
            i <= a@.len(),
            j <= b@.len(),
            fa == a@.map_values(|s: String| s@),
            fb == b@.map_values(|s: String| s@),
            out@.map_values(|s: String| s@) + comm(
                fa.subrange(i as int, fa.len() as int),
                fb.subrange(j as int, fb.len() as int),
                *options,
            ) == comm(fa, fb, *options),
        decreases a@.len() + b@.len() - i - j,
    {
        let ghost ra = fa.subrange(i as int, fa.len() as int);
        let ghost rb = fb.subrange(j as int, fb.len() as int);
        let ghost before = out@.map_values(|s: String| s@);
        let ghost ra1 = fa.subrange(i + 1, fa.len() as int);
        let ghost rb1 = fb.subrange(j + 1, fb.len() as int);
        assert(ra.len() > 0 ==> ra.drop_first() =~= ra1 && ra[0] == fa[i as int]);
        assert(rb.len() > 0 ==> rb.drop_first() =~= rb1 && rb[0] == fb[j as int]);
        if j == b.len() {
            push_emit(&mut out, 1, &a[i], options);
            assert(before + emit(1, fa[i as int], *options) + comm(ra1, rb, *options) =~= before
                + comm(ra, rb, *options));
            i = i + 1;
        } else if i == a.len() {
            push_emit(&mut out, 2, &b[j], options);
            assert(before + emit(2, fb[j as int], *options) + comm(ra, rb1, *options) =~= before
                + comm(ra, rb, *options));
            j = j + 1;
        } else {
            let c = compare_bytes(a[i].as_str().as_bytes(), b[j].as_str().as_bytes());
            if c > 0 {
                push_emit(&mut out, 2, &b[j], options);
                assert(before + emit(2, fb[j as int], *options) + comm(ra, rb1, *options)
                    =~= before + comm(ra, rb, *options));
                j = j + 1;
            } else if c < 0 {
                push_emit(&mut out, 1, &a[i], options);
                assert(before + emit(1, fa[i as int], *options) + comm(ra1, rb, *options)
                    =~= before + comm(ra, rb, *options));
                i = i + 1;
            } else {
                push_emit(&mut out, 3, &a[i], options);
                assert(before + emit(3, fa[i as int], *options) + comm(ra1, rb1, *options)
                    =~= before + comm(ra, rb, *options));
                i = i + 1;
                j = j + 1;
            }
        }
    }
    assert(fa.subrange(i as int, fa.len() as int) =~= Seq::<Seq<char>>::empty());
    assert(fb.subrange(j as int, fb.len() as int) =~= Seq::<Seq<char>>::empty());
    assert(out@.map_values(|s: String| s@) =~= comm(fa, fb, *options));
    out
}

/// Whether a name stands for standard input.
pub open spec fn is_stdin(name: Seq<char>) -> bool {
    name == seq!['-']
}

fn names_stdin(name: &str) -> (r: bool)
    ensures
        r == is_stdin(name@),
{
    let c = chars_of(name);
    let r = c.len() == 1 && c[0] == '-';
    assert(r ==> c@ =~= seq!['-']);
    r
}

/// Whether the two inputs would both be standard input, which cannot be read
/// twice: the first is `-`, and the second is `-` or missing.
pub fn both_stdin(file1: &str, file2: &Option<String>) -> (r: bool)
    ensures
        r == (is_stdin(file1@) && match *file2 {
            None => true,
            Some(f) => is_stdin(f@),
        }),
{
    names_stdin(file1) && match file2 {
        None => true,
        Some(f) => names_stdin(f.as_str()),
    }
}

} // verus!
