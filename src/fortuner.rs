//! Fortunes: choosing the fortune files, reading the fortunes they hold, and
//! picking one.
use vstd::prelude::*;
use vstd::string::{StrSliceExecFns, StringExecFns};

use crate::pattern::{regex_matches, Pattern};
use crate::text::chars_of;
use crate::wcr::{is_white_space, white_space};

verus! {

/// The rank of a character when paths are compared: the separator sorts
/// before every other character, as `Path` compares component by component.
pub open spec fn path_key(c: char) -> int {
    if c == '/' {
        -1
    } else {
        (c as u32) as int
    }
}

/// Whether path `a` sorts strictly before path `b`.
pub open spec fn path_less(a: Seq<char>, b: Seq<char>) -> bool
    decreases a.len(),
{
    if a.len() == 0 {
        b.len() > 0
    } else if b.len() == 0 {
        false
    } else if a[0] != b[0] {
        path_key(a[0]) < path_key(b[0])
    } else {
        path_less(a.drop_first(), b.drop_first())
    }
}

pub proof fn lemma_path_order_total(a: Seq<char>, b: Seq<char>)
    ensures
        path_less(a, b) || a == b || path_less(b, a),
        !(path_less(a, b) && path_less(b, a)),
    decreases a.len(),
{
    if a.len() > 0 && b.len() > 0 {
        if a[0] == b[0] {
            lemma_path_order_total(a.drop_first(), b.drop_first());
            if a.drop_first() == b.drop_first() {
                assert(a =~= seq![a[0]] + a.drop_first());
                assert(b =~= seq![b[0]] + b.drop_first());
            }
        } else {
            vstd::utf8::char_u32_cast(a[0], a[0] as u32);
            vstd::utf8::char_u32_cast(b[0], b[0] as u32);
            assert(path_key(a[0]) != path_key(b[0]));
        }
    } else if a.len() == 0 && b.len() == 0 {
        assert(a =~= b);
    }
}

fn path_lt(a: &str, b: &str) -> (r: bool)
    ensures
        r == path_less(a@, b@),
{
    let x = chars_of(a);
    let y = chars_of(b);
    let mut i: usize = 0;
    assert(x@.subrange(0, x@.len() as int) =~= x@);
    assert(y@.subrange(0, y@.len() as int) =~= y@);
    while i < x.len() && i < y.len()
        invariant
            i <= x@.len(),
            i <= y@.len(),
            x@ == a@,
            y@ == b@,
            path_less(a@, b@) == path_less(
                x@.subrange(i as int, x@.len() as int),
                y@.subrange(i as int, y@.len() as int),
            ),
        decreases x@.len() - i,
    {
        let ghost sa = x@.subrange(i as int, x@.len() as int);
        let ghost sb = y@.subrange(i as int, y@.len() as int);
        assert(sa.drop_first() =~= x@.subrange(i + 1, x@.len() as int));
        assert(sb.drop_first() =~= y@.subrange(i + 1, y@.len() as int));
        assert(sa[0] == x@[i as int] && sb[0] == y@[i as int]);
        let c = x[i];
        let d = y[i];
        if c != d {
            let kc: i64 = if c == '/' {
                -1
            } else {
                c as u32 as i64
            };
            let kd: i64 = if d == '/' {
                -1
            } else {
                d as u32 as i64
            };
            return kc < kd;
        }
        i = i + 1;
    }
    i == x.len() && i < y.len()
}

/// Whether a path names a data file: its last component has the extension `dat`.
pub open spec fn dat_file(p: Seq<char>) -> bool {
    p.len() >= 5 && p.subrange(p.len() - 4, p.len() as int) == ".dat"@ && p[p.len() - 5] != '/'
}

/// Whether the path does not name a data file.
pub fn is_not_dat(path: &str) -> (r: bool)
    ensures
        r == !dat_file(path@),
{
    proof {
        reveal_strlit(".dat");
    }
    let c = chars_of(path);
    let n = c.len();
    if n < 5 {
        return true;
    }
    let is_dat = c[n - 4] == '.' && c[n - 3] == 'd' && c[n - 2] == 'a' && c[n - 1] == 't' && c[n
        - 5] != '/';
    assert(is_dat ==> c@.subrange(n - 4, n as int) =~= ".dat"@);
    proof {
        let tail = c@.subrange(n - 4, n as int);
        if !is_dat && tail == ".dat"@ {
            assert(tail[0] == '.' && tail[1] == 'd' && tail[2] == 'a' && tail[3] == 't');
        }
    }
    !is_dat
}

/// An entry met on a walk.
pub struct WalkEntry {
    pub path: String,
    pub is_file: bool,
}

/// The outcome of walking one of the given paths: its entries, the path itself
/// first, or why the walk failed.
pub struct Walk {
    pub root: String,
    pub entries: Result<Vec<WalkEntry>, String>,
}

/// A walk that failed.
#[derive(Debug)]
pub struct WalkError {
    pub root: String,
    pub message: String,
}

/// Whether an entry is a fortune file.
pub open spec fn fortune_file(e: WalkEntry) -> bool {
    e.is_file && !dat_file(e.path@)
}

/// The paths of the fortune files that the walks met.
pub open spec fn walked_files(walks: Seq<Walk>) -> Set<Seq<char>> {
    Set::new(
        |p: Seq<char>|
            exists|k: int, i: int|
                0 <= k < walks.len() && walks[k].entries is Ok && 0 <= i
                    < walks[k].entries->Ok_0@.len() && fortune_file(
                    #[trigger] walks[k].entries->Ok_0@[i],
                ) && walks[k].entries->Ok_0@[i].path@ == p,
    )
}

/// Whether each path sorts strictly before the next.
pub open spec fn strictly_sorted(ps: Seq<Seq<char>>) -> bool {
    forall|i: int| 0 <= i < ps.len() - 1 ==> path_less(#[trigger] ps[i], ps[i + 1])
}

fn insert_sorted(out: &mut Vec<String>, p: &String)
    requires
        strictly_sorted(old(out)@.map_values(|s: String| s@)),
    ensures
        strictly_sorted(final(out)@.map_values(|s: String| s@)),
        final(out)@.map_values(|s: String| s@).to_set() == old(out)@.map_values(
            |s: String| s@,
        ).to_set().insert(p@),
{
    let ghost before = out@.map_values(|s: String| s@);
    let mut j: usize = 0;
    while j < out.len() && path_lt(out[j].as_str(), p.as_str())
        invariant
            j <= out@.len(),
            out@.map_values(|s: String| s@) == before,
            j > 0 ==> path_less(before[j - 1], p@),
        decreases out@.len() - j,
    {
        j = j + 1;
    }
    if j < out.len() && out[j] == *p {
        proof {
            assert(before[j as int] == p@);
            assert(before.to_set().insert(p@) =~= before.to_set());
        }
        return ;
    }
    proof {
        if j < before.len() {
            lemma_path_order_total(before[j as int], p@);
        }
    }
    out.insert(j, p.clone());
    let ghost after = out@.map_values(|s: String| s@);
    assert(after =~= before.insert(j as int, p@));
    assert(strictly_sorted(after)) by {
        assert forall|i: int| 0 <= i < after.len() - 1 implies path_less(
            #[trigger] after[i],
            after[i + 1],
        ) by {
            if i + 1 < j {
                assert(after[i] == before[i] && after[i + 1] == before[i + 1]);
            } else if i + 1 == j {
                assert(after[i] == before[i] && after[i + 1] == p@);
            } else if i == j {
                assert(after[i] == p@ && after[i + 1] == before[i]);
            } else {
                assert(after[i] == before[i - 1] && after[i + 1] == before[i]);
            }
        }
    }
    assert(after.to_set() =~= before.to_set().insert(p@)) by {
        assert forall|x: Seq<char>| after.to_set().contains(x) <==> before.to_set().insert(
            p@,
        ).contains(x) by {
            if after.to_set().contains(x) {
                let i = choose|i: int| 0 <= i < after.len() && after[i] == x;
                if i < j {
                    assert(before[i] == x);
                } else if i > j {
                    assert(before[i - 1] == x);
                }
            }
            if before.to_set().contains(x) {
                let i = choose|i: int| 0 <= i < before.len() && before[i] == x;
                if i < j {
                    assert(after[i] == x);
                } else {
                    assert(after[i + 1] == x);
                }
            }
            if x == p@ {
                assert(after[j as int] == x);
            }
        }
    }
}

/// The paths of the fortune files among the first `n` entries of a walk.
pub open spec fn entry_files(es: Seq<WalkEntry>, n: int) -> Set<Seq<char>> {
    Set::new(
        |p: Seq<char>|
            exists|t: int| 0 <= t < n && fortune_file(#[trigger] es[t]) && es[t].path@ == p,
    )
}

proof fn lemma_entry_files_step(es: Seq<WalkEntry>, n: int)
    requires
        0 <= n < es.len(),
    ensures
        entry_files(es, n + 1) == if fortune_file(es[n]) {
            entry_files(es, n).insert(es[n].path@)
        } else {
            entry_files(es, n)
        },
{
    let next = if fortune_file(es[n]) {
        entry_files(es, n).insert(es[n].path@)
    } else {
        entry_files(es, n)
    };
    assert forall|p: Seq<char>| entry_files(es, n + 1).contains(p) implies next.contains(p) by {
        let t = choose|t: int| 0 <= t < n + 1 && fortune_file(#[trigger] es[t]) && es[t].path@ == p;
        if t < n {
            assert(entry_files(es, n).contains(p));
        }
    }
    assert forall|p: Seq<char>| next.contains(p) implies entry_files(es, n + 1).contains(p) by {
        if entry_files(es, n).contains(p) {
            let t = choose|t: int| 0 <= t < n && fortune_file(#[trigger] es[t]) && es[t].path@ == p;
            assert(0 <= t < n + 1);
        } else {
            assert(fortune_file(es[n]) && es[n].path@ == p);
        }
    }
    assert(entry_files(es, n + 1) =~= next);
}

/// The fortune files met on the walks: files whose extension is not `dat`,
/// sorted by path, each once; or the first walk that failed.
pub fn find_files(walks: &[Walk]) -> (r: Result<Vec<String>, WalkError>)
    ensures
        r is Err <==> exists|k: int| 0 <= k < walks@.len() && (#[trigger] walks@[k]).entries is Err,
        r matches Err(e) ==> exists|k: int|
            0 <= k < walks@.len() && (#[trigger] walks@[k]).entries is Err
                && walks@[k].entries->Err_0@ == e.message@ && walks@[k].root@ == e.root@ && forall|
                j: int,
            |
                0 <= j < k ==> (#[trigger] walks@[j]).entries is Ok,
        r matches Ok(v) ==> strictly_sorted(v@.map_values(|s: String| s@)) && v@.map_values(
            |s: String| s@,
        ).to_set() == walked_files(walks@),
{
    let mut out: Vec<String> = Vec::new();
    let mut k: usize = 0;
    assert(out@.map_values(|s: String| s@).to_set() =~= Set::<Seq<char>>::empty());
    while k < walks.len()
        invariant
            k <= walks@.len(),
            forall|j: int| 0 <= j < k ==> (#[trigger] walks@[j]).entries is Ok,
            strictly_sorted(out@.map_values(|s: String| s@)),
            out@.map_values(|s: String| s@).to_set() == walked_files(walks@.subrange(0, k as int)),
        decreases walks@.len() - k,
    {
        let ghost prefix = walks@.subrange(0, k as int);
        let ghost next = walks@.subrange(0, k + 1);
        match &walks[k].entries {
            Err(m) => {
                return Err(WalkError { root: walks[k].root.clone(), message: m.clone() });
            },
            Ok(entries) => {
                let mut i: usize = 0;
                while i < entries.len()
                    invariant
                        k < walks@.len(),
                        walks@[k as int].entries == Ok::<Vec<WalkEntry>, String>(*entries),
                        i <= entries@.len(),
                        prefix == walks@.subrange(0, k as int),
                        next == walks@.subrange(0, k + 1),
                        strictly_sorted(out@.map_values(|s: String| s@)),
                        out@.map_values(|s: String| s@).to_set() == walked_files(prefix).union(
                            entry_files(entries@, i as int),
                        ),
                    decreases entries@.len() - i,
                {
                    let e = &entries[i];
                    proof {
                        lemma_entry_files_step(entries@, i as int);
                    }
                    if e.is_file && is_not_dat(e.path.as_str()) {
                        insert_sorted(&mut out, &e.path);
                    }
                    i = i + 1;
                    assert(out@.map_values(|s: String| s@).to_set() =~= walked_files(prefix).union(
                        entry_files(entries@, i as int),
                    ));
                }
                assert(walked_files(next) =~= walked_files(prefix).union(
                    entry_files(entries@, entries@.len() as int),
                )) by {
                    assert forall|p: Seq<char>| walked_files(next).contains(p) implies walked_files(
                        prefix,
                    ).contains(p) || entry_files(entries@, entries@.len() as int).contains(p) by {
                        let (kk, ii) = choose|kk: int, ii: int|
                            0 <= kk < next.len() && next[kk].entries is Ok && 0 <= ii
                                < next[kk].entries->Ok_0@.len() && fortune_file(
                                #[trigger] next[kk].entries->Ok_0@[ii],
                            ) && next[kk].entries->Ok_0@[ii].path@ == p;
                        if kk < k {
                            assert(prefix[kk] == next[kk]);
                        } else {
                            assert(next[kk] == walks@[k as int]);
                            assert(entry_files(entries@, entries@.len() as int).contains(p));
                        }
                    }
                    assert forall|p: Seq<char>| walked_files(prefix).contains(p) implies walked_files(
                        next,
                    ).contains(p) by {
                        let (kk, ii) = choose|kk: int, ii: int|
                            0 <= kk < prefix.len() && prefix[kk].entries is Ok && 0 <= ii
                                < prefix[kk].entries->Ok_0@.len() && fortune_file(
                                #[trigger] prefix[kk].entries->Ok_0@[ii],
                            ) && prefix[kk].entries->Ok_0@[ii].path@ == p;
                        assert(next[kk] == prefix[kk]);
                    }
                    assert forall|p: Seq<char>|
                        entry_files(entries@, entries@.len() as int).contains(
                            p,
                        ) implies walked_files(next).contains(p) by {
                        let t = choose|t: int|
                            0 <= t < entries@.len() && fortune_file(#[trigger] entries@[t])
                                && entries@[t].path@ == p;
                        assert(next[k as int] == walks@[k as int]);
                        assert(fortune_file(next[k as int].entries->Ok_0@[t]));
                    }
                }
            },
        }
        k = k + 1;
    }
    assert(walks@.subrange(0, k as int) =~= walks@);
    Ok(out)
}

/// `s` without its leading white space.
pub open spec fn trim_start(s: Seq<char>) -> Seq<char>
    decreases s.len(),
{
    if s.len() > 0 && white_space(s[0]) {
        trim_start(s.drop_first())
    } else {
        s
    }
}

/// `s` without its trailing white space.
pub open spec fn trim_end(s: Seq<char>) -> Seq<char>
    decreases s.len(),
{
    if s.len() > 0 && white_space(s.last()) {
        trim_end(s.drop_last())
    } else {
        s
    }
}

/// `s` without white space at either end, as `str::trim` leaves it.
pub open spec fn trimmed(s: Seq<char>) -> Seq<char> {
    trim_end(trim_start(s))
}

/// The text without white space at either end.
pub fn trim(s: &str) -> (r: String)
    ensures
        r@ == trimmed(s@),
{
    let c = chars_of(s);
    let n = c.len();
    let mut lo: usize = 0;
    assert(c@.subrange(0, n as int) =~= c@);
    while lo < n && is_white_space(c[lo])
        invariant
            lo <= n,
            n == c@.len(),
            c@ == s@,
            trim_start(s@) == trim_start(c@.subrange(lo as int, n as int)),
        decreases n - lo,
    {
        assert(c@.subrange(lo as int, n as int).drop_first() =~= c@.subrange(lo + 1, n as int));
        lo = lo + 1;
    }
    let mut hi: usize = n;
    while hi > lo && is_white_space(c[hi - 1])
        invariant
            lo <= hi <= n,
            n == c@.len(),
            trim_end(c@.subrange(lo as int, n as int)) == trim_end(
                c@.subrange(lo as int, hi as int),
            ),
        decreases hi,
    {
        assert(c@.subrange(lo as int, hi as int).drop_last() =~= c@.subrange(
            lo as int,
            hi - 1,
        ));
        hi = hi - 1;
    }
    s.substring_char(lo, hi).to_owned()
}

/// The last component of a path: what follows its last separator.
pub open spec fn name_of(p: Seq<char>) -> Seq<char>
    decreases p.len(),
{
    if p.len() == 0 || p.last() == '/' {
        Seq::empty()
    } else {
        name_of(p.drop_last()).push(p.last())
    }
}

fn file_name(path: &str) -> (r: String)
    ensures
        r@ == name_of(path@),
{
    let c = chars_of(path);
    let n = c.len();
    let mut j: usize = n;
    assert(c@.subrange(0, n as int) =~= c@);
    assert(c@.subrange(n as int, n as int) =~= Seq::<char>::empty());
    while j > 0 && c[j - 1] != '/'
        invariant
            j <= n,
            n == c@.len(),
            c@ == path@,
            name_of(path@) == name_of(c@.subrange(0, j as int)) + c@.subrange(j as int, n as int),
        decreases j,
    {
        assert(c@.subrange(0, j as int).drop_last() =~= c@.subrange(0, j - 1));
        assert(c@.subrange(j - 1, n as int) =~= seq![c@[j - 1]] + c@.subrange(j as int, n as int));
        j = j - 1;
    }
    path.substring_char(j, n).to_owned()
}

/// A fortune, and the name of the file it came from.
#[derive(Debug)]
pub struct Fortune {
    pub source: String,
    pub text: String,
}

impl Fortune {
    /// The fortune `text`, trimmed, from the file at `path`.
    pub fn new(path: &str, text: &str) -> (r: Fortune)
        ensures
            r.source@ == name_of(path@),
            r.text@ == trimmed(text@),
    {
        Fortune { source: file_name(path), text: trim(text) }
    }
}

/// The pieces of `s` between `%` signs.
pub open spec fn pieces(s: Seq<char>) -> Seq<Seq<char>>
    decreases s.len(),
{
    if s.len() == 0 {
        seq![Seq::empty()]
    } else {
        let ps = pieces(s.drop_last());
        if s.last() == '%' {
            ps.push(Seq::empty())
        } else {
            ps.update(ps.len() - 1, ps.last().push(s.last()))
        }
    }
}

pub proof fn lemma_pieces_nonempty(s: Seq<char>)
    ensures
        pieces(s).len() >= 1,
    decreases s.len(),
{
    if s.len() > 0 {
        lemma_pieces_nonempty(s.drop_last());
    }
}

/// The trimmed texts of the pieces that are not blank, in order.
pub open spec fn kept_texts(ps: Seq<Seq<char>>) -> Seq<Seq<char>>
    decreases ps.len(),
{
    if ps.len() == 0 {
        Seq::empty()
    } else if trimmed(ps.last()).len() > 0 {
        kept_texts(ps.drop_last()).push(trimmed(ps.last()))
    } else {
        kept_texts(ps.drop_last())
    }
}

/// A fortune file: where it was read from, and what it holds.
pub struct FortuneFile {
    pub path: String,
    pub contents: String,
}

/// The fortunes of one file: the pieces between `%` signs that are not blank,
/// trimmed.
pub fn read_fortunes_from_file(file: &FortuneFile) -> (r: Vec<Fortune>)
    ensures
        r@.map_values(|f: Fortune| f.text@) == kept_texts(pieces(file.contents@)),
        forall|k: int| 0 <= k < r@.len() ==> (#[trigger] r@[k]).source@ == name_of(file.path@),
{
    let text = file.contents.as_str();
    let c = chars_of(text);
    let n = c.len();
    let mut out: Vec<Fortune> = Vec::new();
    let mut start: usize = 0;
    let mut i: usize = 0;
    assert(c@.subrange(0, 0) =~= Seq::<char>::empty());
    assert(pieces(Seq::<char>::empty()).drop_last() =~= Seq::<Seq<char>>::empty());
    while i < n
        invariant
            start <= i <= n,
            n == c@.len(),
            c@ == text@,
            text@ == file.contents@,
            pieces(c@.subrange(0, i as int)).len() >= 1,
            pieces(c@.subrange(0, i as int)).last() == c@.subrange(start as int, i as int),
            out@.map_values(|f: Fortune| f.text@) == kept_texts(
                pieces(c@.subrange(0, i as int)).drop_last(),
            ),
            forall|k: int| 0 <= k < out@.len() ==> (#[trigger] out@[k]).source@ == name_of(
                file.path@,
            ),
        decreases n - i,
    {
        let ghost ps = pieces(c@.subrange(0, i as int));
        let ghost next = c@.subrange(0, i + 1);
        assert(next.drop_last() =~= c@.subrange(0, i as int));
        assert(next.last() == c@[i as int]);
        if c[i] == '%' {
            let piece = text.substring_char(start, i);
            let f = Fortune::new(file.path.as_str(), piece);
            let ghost before = out@.map_values(|f: Fortune| f.text@);
            assert(pieces(next).drop_last() =~= ps);
            assert(ps =~= ps.drop_last().push(c@.subrange(start as int, i as int)));
            if f.text.as_str().unicode_len() > 0 {
                out.push(f);
                assert(out@.map_values(|f: Fortune| f.text@) =~= before.push(
                    trimmed(c@.subrange(start as int, i as int)),
                ));
            }
            start = i + 1;
            assert(pieces(next).last() =~= c@.subrange(start as int, i + 1));
        } else {
            assert(pieces(next).drop_last() =~= ps.drop_last());
            assert(pieces(next).last() =~= c@.subrange(start as int, i + 1));
        }
        i = i + 1;
    }
    assert(c@.subrange(0, i as int) =~= c@);
    let ghost ps = pieces(c@);
    let piece = text.substring_char(start, n);
    let f = Fortune::new(file.path.as_str(), piece);
    let ghost before = out@.map_values(|f: Fortune| f.text@);
    assert(ps =~= ps.drop_last().push(c@.subrange(start as int, n as int)));
    if f.text.as_str().unicode_len() > 0 {
        out.push(f);
        assert(out@.map_values(|f: Fortune| f.text@) =~= before.push(
            trimmed(c@.subrange(start as int, n as int)),
        ));
    }
    out
}

/// The fortunes of all the files, file by file.
pub open spec fn all_texts(files: Seq<FortuneFile>) -> Seq<Seq<char>>
    decreases files.len(),
{
    if files.len() == 0 {
        Seq::empty()
    } else {
        all_texts(files.drop_last()) + kept_texts(pieces(files.last().contents@))
    }
}

/// The fortunes of all the files, in the order of the files.
pub fn read_fortunes(files: &[FortuneFile]) -> (r: Vec<Fortune>)
    ensures
        r@.map_values(|f: Fortune| f.text@) == all_texts(files@),
{
    let mut out: Vec<Fortune> = Vec::new();
    let mut k: usize = 0;
    assert(files@.subrange(0, 0) =~= Seq::<FortuneFile>::empty());
    assert(out@.map_values(|f: Fortune| f.text@) =~= Seq::<Seq<char>>::empty());
    while k < files.len()
        invariant
            k <= files@.len(),
            out@.map_values(|f: Fortune| f.text@) == all_texts(files@.subrange(0, k as int)),
        decreases files@.len() - k,
    {
        let ghost next = files@.subrange(0, k + 1);
        assert(next.drop_last() =~= files@.subrange(0, k as int));
        let ghost before = out@.map_values(|f: Fortune| f.text@);
        let mut more = read_fortunes_from_file(&files[k]);
        let ghost added = more@.map_values(|f: Fortune| f.text@);
        out.append(&mut more);
        assert(out@.map_values(|f: Fortune| f.text@) =~= before + added);
        k = k + 1;
    }
    assert(files@.subrange(0, k as int) =~= files@);
    out
}

/// The index that `rand`'s `SliceRandom::choose` picks from a slice of `len`
/// items with a `StdRng` seeded by `seed_from_u64(seed)`.
pub uninterp spec fn seeded_pick(seed: u64, len: nat) -> nat;

/// Relies on `rand::rngs::StdRng::seed_from_u64` and `SliceRandom::choose`:
/// the same seed and length pick the same item, one of the slice's.
#[verifier::external_body]
fn pick_seeded(seed: u64, len: usize) -> (r: usize)
    requires
        len > 0,
    ensures
        r == seeded_pick(seed, len as nat),
        r < len,
{
    let mut rng = <rand::rngs::StdRng as rand::SeedableRng>::seed_from_u64(seed);
    let indices: Vec<usize> = (0..len).collect();
    *rand::seq::SliceRandom::choose(&indices[..], &mut rng).unwrap()
}

/// Relies on `rand::rngs::StdRng::from_entropy` and `SliceRandom::choose`:
/// one of the slice's items, at random.
#[verifier::external_body]
fn pick_at_random(len: usize) -> (r: usize)
    requires
        len > 0,
    ensures
        r < len,
{
    let mut rng = <rand::rngs::StdRng as rand::SeedableRng>::from_entropy();
    let indices: Vec<usize> = (0..len).collect();
    *rand::seq::SliceRandom::choose(&indices[..], &mut rng).unwrap()
}

/// Picks the text of one fortune: the one a seeded generator chooses where a
/// seed is given, else one at random; `None` where there is none.
pub fn pick_fortune(fortunes: &[Fortune], seed: &Option<u64>) -> (r: Option<String>)
    ensures
        fortunes@.len() == 0 <==> r is None,
        r matches Some(t) ==> exists|k: int|
            0 <= k < fortunes@.len() && (#[trigger] fortunes@[k]).text@ == t@ && (*seed matches Some(
                s,
            ) ==> k == seeded_pick(s, fortunes@.len())),
{
    if fortunes.len() == 0 {
        return None;
    }
    let k = match seed {
        Some(s) => pick_seeded(*s, fortunes.len()),
        None => pick_at_random(fortunes.len()),
    };
    Some(fortunes[k].text.clone())
}

/// The positions of the fortunes whose text the pattern matches, in order.
pub fn matching_fortunes(fortunes: &[Fortune], pattern: &Pattern) -> (r: Vec<usize>)
    ensures
        forall|t: int| 0 <= t < r@.len() ==> (#[trigger] r@[t]) < fortunes@.len(),
        forall|t: int| 0 <= t < r@.len() - 1 ==> #[trigger] r@[t] < r@[t + 1],
        forall|k: int|
            0 <= k < fortunes@.len() ==> (r@.contains(k as usize) <==> regex_matches(
                pattern.source(),
                pattern.insensitive(),
                (#[trigger] fortunes@[k]).text@,
            )),
{
    let mut out: Vec<usize> = Vec::new();
    let mut i: usize = 0;
    while i < fortunes.len()
        invariant
            i <= fortunes@.len(),
            forall|t: int| 0 <= t < out@.len() ==> (#[trigger] out@[t]) < i,
            forall|t: int| 0 <= t < out@.len() - 1 ==> #[trigger] out@[t] < out@[t + 1],
            forall|k: int|
                0 <= k < i ==> (out@.contains(k as usize) <==> regex_matches(
                    pattern.source(),
                    pattern.insensitive(),
                    (#[trigger] fortunes@[k]).text@,
                )),
        decreases fortunes@.len() - i,
    {
        let ghost before = out@;
        if pattern.is_match(fortunes[i].text.as_str()) {
            out.push(i);
            assert forall|k: int| 0 <= k < i implies (#[trigger] out@.contains(k as usize)
                <==> before.contains(k as usize)) by {
                if out@.contains(k as usize) {
                    let t = choose|t: int| 0 <= t < out@.len() && out@[t] == k as usize;
                    if t < before.len() {
                        assert(before[t] == k as usize);
                    }
                }
                if before.contains(k as usize) {
                    let t = choose|t: int| 0 <= t < before.len() && before[t] == k as usize;
                    assert(out@[t] == k as usize);
                }
            }
            assert(out@[out@.len() - 1] == i);
        } else {
            assert(!out@.contains(i));
        }
        i = i + 1;
    }
    out
}

} // verus!
