//! Selecting the lines that a pattern matches, or those it does not.
use vstd::prelude::*;

use crate::pattern::{regex_matches, Pattern};

verus! {

/// The lines of `lines` that are selected: those the pattern matches, or with
/// `invert_match` those it does not, in order.
pub open spec fn matching(lines: Seq<Seq<char>>, p: Pattern, invert_match: bool) -> Seq<Seq<char>>
    decreases lines.len(),
{
    if lines.len() == 0 {
        Seq::empty()
    } else {
        let rest = matching(lines.drop_last(), p, invert_match);
        if regex_matches(p.source(), p.insensitive(), lines.last()) != invert_match {
            rest.push(lines.last())
        } else {
            rest
        }
    }
}

/// The selected lines of an input; their number is what a count reports.
pub fn find_lines(lines: &[String], pattern: &Pattern, invert_match: bool) -> (r: Vec<String>)
    ensures
        r@.map_values(|s: String| s@) == matching(
            lines@.map_values(|s: String| s@),
            *pattern,
            invert_match,
        ),
{
    let ghost views = lines@.map_values(|s: String| s@);
    let mut out: Vec<String> = Vec::new();
    let mut i: usize = 0;
    assert(views.subrange(0, 0) =~= Seq::<Seq<char>>::empty());
    assert(out@.map_values(|s: String| s@) =~= Seq::<Seq<char>>::empty());
    while i < lines.len()
        invariant
            i <= lines@.len(),
            views == lines@.map_values(|s: String| s@),
            out@.map_values(|s: String| s@) == matching(
                views.subrange(0, i as int),
                *pattern,
                invert_match,
            ),
        decreases lines@.len() - i,
    {
        let ghost next = views.subrange(0, i + 1);
        assert(next.drop_last() =~= views.subrange(0, i as int));
        assert(next.last() == lines@[i as int]@);
        let ghost before = out@.map_values(|s: String| s@);
        if pattern.is_match(lines[i].as_str()) != invert_match {
            out.push(lines[i].clone());
            assert(out@.map_values(|s: String| s@) =~= before.push(lines@[i as int]@));
        }
        i = i + 1;
    }
    assert(views.subrange(0, i as int) =~= views);
    out
}

} // verus!
