//! Listing: which paths a listing shows, and the permission column.
use vstd::prelude::*;
use vstd::string::{StrSliceExecFns, StringExecFns};

verus! {

/// The letter for one permission bit: `letter` where `bit` is set in `mode`, else `-`.
pub open spec fn flag(mode: u32, bit: u32, letter: char) -> char {
    if mode & bit != 0 {
        letter
    } else {
        '-'
    }
}

/// The nine permission letters of a mode: owner, group, others, each `rwx`.
pub open spec fn mode_text(mode: u32) -> Seq<char> {
    seq![
        flag(mode, 0o400, 'r'),
        flag(mode, 0o200, 'w'),
        flag(mode, 0o100, 'x'),
        flag(mode, 0o040, 'r'),
        flag(mode, 0o020, 'w'),
        flag(mode, 0o010, 'x'),
        flag(mode, 0o004, 'r'),
        flag(mode, 0o002, 'w'),
        flag(mode, 0o001, 'x'),
    ]
}

fn push_flag(s: &mut String, mode: u32, bit: u32, letter: u8)
    requires
        letter == 0 || letter == 1 || letter == 2,
    ensures
        final(s)@ == old(s)@.push(
            flag(
                mode,
                bit,
                if letter == 0 {
                    'r'
                } else if letter == 1 {
                    'w'
                } else {
                    'x'
                },
            ),
        ),
{
    proof {
        reveal_strlit("r");
        reveal_strlit("w");
        reveal_strlit("x");
        reveal_strlit("-");
    }
    if mode & bit != 0 {
        if letter == 0 {
            s.append("r");
        } else if letter == 1 {
            s.append("w");
        } else {
            s.append("x");
        }
    } else {
        s.append("-");
    }
    assert(s@ =~= old(s)@.push(
        flag(
            mode,
            bit,
            if letter == 0 {
                'r'
            } else if letter == 1 {
                'w'
            } else {
                'x'
            },
        ),
    ));
}

/// The permission column of a listing, as `ls -l` writes it.
pub fn format_mode(mode: u32) -> (r: String)
    ensures
        r@ == mode_text(mode),
{
    let mut s = String::new();
    push_flag(&mut s, mode, 0o400, 0);
    push_flag(&mut s, mode, 0o200, 1);
    push_flag(&mut s, mode, 0o100, 2);
    push_flag(&mut s, mode, 0o040, 0);
    push_flag(&mut s, mode, 0o020, 1);
    push_flag(&mut s, mode, 0o010, 2);
    push_flag(&mut s, mode, 0o004, 0);
    push_flag(&mut s, mode, 0o002, 1);
    push_flag(&mut s, mode, 0o001, 2);
    assert(s@ =~= mode_text(mode));
    s
}

/// An entry of a directory: its name, and its path under the directory.
pub struct DirEntryInfo {
    pub name: String,
    pub path: String,
}

/// What stands at a path that was asked for.
pub enum PathKind {
    /// Nothing, or nothing that could be read.
    Missing,
    /// A file, or anything else that is not a directory.
    File,
    /// A directory, with its entries as the directory lists them.
    Dir(Vec<DirEntryInfo>),
}

/// A path that was asked for, and what stands there.
pub struct PathInfo {
    pub path: String,
    pub kind: PathKind,
}

/// Whether a name is hidden: it starts with a dot.
pub open spec fn hidden(name: Seq<char>) -> bool {
    name.len() > 0 && name[0] == '.'
}

/// The paths of the entries that a listing shows.
pub open spec fn shown_entries(es: Seq<DirEntryInfo>, show_hidden: bool) -> Seq<Seq<char>>
    decreases es.len(),
{
    if es.len() == 0 {
        Seq::empty()
    } else {
        let rest = shown_entries(es.drop_last(), show_hidden);
        if !show_hidden && hidden(es.last().name@) {
            rest
        } else {
            rest.push(es.last().path@)
        }
    }
}

/// The paths that a listing of one asked-for path shows: the path itself for
/// a file, however it is named; the shown entries for a directory.
pub open spec fn found_in(p: PathInfo, show_hidden: bool) -> Seq<Seq<char>> {
    match p.kind {
        PathKind::Missing => Seq::empty(),
        PathKind::File => seq![p.path@],
        PathKind::Dir(es) => shown_entries(es@, show_hidden),
    }
}

/// The paths that a listing of all the asked-for paths shows, in order.
pub open spec fn found(ps: Seq<PathInfo>, show_hidden: bool) -> Seq<Seq<char>>
    decreases ps.len(),
{
    if ps.len() == 0 {
        Seq::empty()
    } else {
        found(ps.drop_last(), show_hidden) + found_in(ps.last(), show_hidden)
    }
}

fn is_hidden(name: &String) -> (r: bool)
    ensures
        r == hidden(name@),
{
    let s = name.as_str();
    s.unicode_len() > 0 && s.get_char(0) == '.'
}

fn push_shown(out: &mut Vec<String>, es: &Vec<DirEntryInfo>, show_hidden: bool)
    ensures
        final(out)@.map_values(|s: String| s@) == old(out)@.map_values(|s: String| s@)
            + shown_entries(es@, show_hidden),
{
    let ghost start = out@.map_values(|s: String| s@);
    let mut i: usize = 0;
    assert(es@.subrange(0, 0) =~= Seq::<DirEntryInfo>::empty());
    assert(start + Seq::<Seq<char>>::empty() =~= start);
    while i < es.len()
        invariant
            i <= es@.len(),
            out@.map_values(|s: String| s@) == start + shown_entries(
                es@.subrange(0, i as int),
                show_hidden,
            ),
        decreases es@.len() - i,
    {
        let e = &es[i];
        let ghost next = es@.subrange(0, i + 1);
        assert(next.drop_last() =~= es@.subrange(0, i as int));
        let ghost before = out@;
        if show_hidden || !is_hidden(&e.name) {
            out.push(e.path.clone());
            assert(out@.map_values(|s: String| s@) =~= before.map_values(|s: String| s@).push(
                e.path@,
            ));
        }
        i = i + 1;
    }
    assert(es@.subrange(0, i as int) =~= es@);
}

/// The paths that a listing shows: each file asked for as it was named, and
/// the entries of each directory asked for, the hidden ones only where
/// `show_hidden` is set. A missing path adds nothing.
pub fn find_files(paths: &[PathInfo], show_hidden: bool) -> (r: Vec<String>)
    ensures
        r@.map_values(|s: String| s@) == found(paths@, show_hidden),
{
    let mut out: Vec<String> = Vec::new();
    let mut i: usize = 0;
    assert(paths@.subrange(0, 0) =~= Seq::<PathInfo>::empty());
    assert(out@.map_values(|s: String| s@) =~= Seq::<Seq<char>>::empty());
    while i < paths.len()
        invariant
            i <= paths@.len(),
            out@.map_values(|s: String| s@) == found(paths@.subrange(0, i as int), show_hidden),
        decreases paths@.len() - i,
    {
        let p = &paths[i];
        let ghost next = paths@.subrange(0, i + 1);
        assert(next.drop_last() =~= paths@.subrange(0, i as int));
        let ghost before = out@.map_values(|s: String| s@);
        match &p.kind {
            PathKind::Missing => {
                assert(before + Seq::<Seq<char>>::empty() =~= before);
            },
            PathKind::File => {
                out.push(p.path.clone());
                assert(out@.map_values(|s: String| s@) =~= before + seq![p.path@]);
            },
            PathKind::Dir(es) => {
                push_shown(&mut out, es, show_hidden);
            },
        }
        i = i + 1;
    }
    assert(paths@.subrange(0, i as int) =~= paths@);
    out
}

} // verus!
