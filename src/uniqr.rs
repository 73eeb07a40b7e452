//! Collapsing runs of equal adjacent lines, optionally with their counts.
use vstd::prelude::*;
use vstd::string::{StrSliceExecFns, StringExecFns};

use crate::decimal::{append_right_aligned, right_aligned};

verus! {

/// An output line: the line, after its count where counts are shown.
pub open spec fn output_line(line: Seq<char>, print_count: bool, count: nat) -> Seq<char> {
    if print_count {
        right_aligned(count, 7) + seq![' '] + line
    } else {
        line
    }
}

/// The runs of equal adjacent lines, each as its line and its length.
pub open spec fn runs(lines: Seq<Seq<char>>) -> Seq<(Seq<char>, nat)>
    decreases lines.len(),
{
    if lines.len() == 0 {
        Seq::empty()
    } else {
        let before = runs(lines.drop_last());
        if before.len() > 0 && before.last().0 == lines.last() {
            before.drop_last().push((lines.last(), before.last().1 + 1))
        } else {
            before.push((lines.last(), 1))
        }
    }
}

/// The output of collapsing `lines`: a line for each run, except that a final
/// run of empty lines is not written.
pub open spec fn collapsed(lines: Seq<Seq<char>>, print_count: bool) -> Seq<Seq<char>> {
    let rs = runs(lines);
    let kept = if rs.len() > 0 && rs.last().0.len() == 0 {
        rs.drop_last()
    } else {
        rs
    };
    kept.map_values(|r: (Seq<char>, nat)| output_line(r.0, print_count, r.1))
}

/// One output line: `line`, after its count right-aligned in seven columns
/// where counts are shown.
pub fn write_to_output(line: &str, print_count: bool, count: usize) -> (r: String)
    ensures
        r@ == output_line(line@, print_count, count as nat),
{
    let mut s = String::new();
    if print_count {
        proof {
            reveal_strlit(" ");
        }
        append_right_aligned(&mut s, count, 7);
        s.append(" ");
    }
    s.append(line);
    assert(s@ =~= output_line(line@, print_count, count as nat));
    s
}

/// Collapses each run of equal adjacent lines into one output line, with the
/// length of the run where `print_count` is set. A final run of empty lines is
/// not written.
pub fn write_lines(lines: &[String], print_count: bool) -> (r: Vec<String>)
    ensures
        r@.map_values(|s: String| s@) == collapsed(
            lines@.map_values(|s: String| s@),
            print_count,
        ),
{
    let ghost views = lines@.map_values(|s: String| s@);
    let mut out: Vec<String> = Vec::new();
    if lines.len() == 0 {
        assert(out@.map_values(|s: String| s@) =~= collapsed(views, print_count));
        return out;
    }
    let mut prev: usize = 0;
    let mut count: usize = 1;
    let mut i: usize = 1;
    assert(views.subrange(0, 1).drop_last() =~= Seq::<Seq<char>>::empty());
    let ghost first = views.subrange(0, 1);
    assert(runs(first.drop_last()) =~= Seq::<(Seq<char>, nat)>::empty());
    assert(first.last() == views[0]);
    assert(runs(first) =~= seq![(views[0], 1nat)]);
    assert(out@.map_values(|s: String| s@) =~= runs(views.subrange(0, 1)).drop_last().map_values(
        |r: (Seq<char>, nat)| output_line(r.0, print_count, r.1),
    ));
    while i < lines.len()
        invariant
            1 <= i <= lines@.len(),
            views == lines@.map_values(|s: String| s@),
            prev < i,
            1 <= count <= i,
            runs(views.subrange(0, i as int)).len() >= 1,
            runs(views.subrange(0, i as int)).last() == (views[prev as int], count as nat),
            out@.map_values(|s: String| s@) == runs(views.subrange(0, i as int)).drop_last().map_values(
                |r: (Seq<char>, nat)| output_line(r.0, print_count, r.1),
            ),
        decreases lines@.len() - i,
    {
        let ghost rs = runs(views.subrange(0, i as int));
        let ghost next = views.subrange(0, i + 1);
        assert(next.drop_last() =~= views.subrange(0, i as int));
        assert(next.last() == views[i as int]);
        if lines[i] == lines[prev] {
            count = count + 1;
            assert(runs(next).drop_last() =~= rs.drop_last());
        } else {
            let ghost before = out@.map_values(|s: String| s@);
            out.push(write_to_output(lines[prev].as_str(), print_count, count));
            assert(out@.map_values(|s: String| s@) =~= before.push(
                output_line(views[prev as int], print_count, count as nat),
            ));
            assert(runs(next).drop_last() =~= rs);
            assert(rs =~= rs.drop_last().push(rs.last()));
            assert(out@.map_values(|s: String| s@) =~= runs(next).drop_last().map_values(
                |r: (Seq<char>, nat)| output_line(r.0, print_count, r.1),
            ));
            prev = i;
            count = 1;
        }
        i = i + 1;
    }
    assert(views.subrange(0, i as int) =~= views);
    let ghost rs = runs(views);
    let ghost before = out@.map_values(|s: String| s@);
    if lines[prev].as_str().unicode_len() > 0 {
        out.push(write_to_output(lines[prev].as_str(), print_count, count));
        assert(out@.map_values(|s: String| s@) =~= before.push(
            output_line(views[prev as int], print_count, count as nat),
        ));
        assert(rs.map_values(|r: (Seq<char>, nat)| output_line(r.0, print_count, r.1))
            =~= rs.drop_last().map_values(
            |r: (Seq<char>, nat)| output_line(r.0, print_count, r.1),
        ).push(output_line(rs.last().0, print_count, rs.last().1)));
        assert(out@.map_values(|s: String| s@) =~= rs.map_values(
            |r: (Seq<char>, nat)| output_line(r.0, print_count, r.1),
        ));
    }
    out
}

} // verus!
