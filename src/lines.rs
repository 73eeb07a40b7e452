//! The mathematical model of a byte source read as lines.
//!
//! A line ends at a newline byte; a non-empty fragment after the last newline
//! is a line too. Every result here is stated over `Seq<u8>`.
use vstd::prelude::*;

verus! {

/// The byte that ends a line.
pub const NEWLINE: u8 = 10;

/// Number of newline bytes in `s`.
pub open spec fn newlines(s: Seq<u8>) -> nat
    decreases s.len(),
{
    if s.len() == 0 {
        0
    } else {
        newlines(s.drop_last()) + if s.last() == NEWLINE {
            1nat
        } else {
            0nat
        }
    }
}

/// Whether `s` ends inside a line, that is with a fragment that no newline closes.
pub open spec fn ends_open(s: Seq<u8>) -> bool {
    s.len() > 0 && s.last() != NEWLINE
}

/// Number of lines in `s`: the newlines, plus one for a final unterminated fragment.
pub open spec fn line_total(s: Seq<u8>) -> nat {
    newlines(s) + if ends_open(s) {
        1nat
    } else {
        0nat
    }
}

/// What is left of `s` once its first `k` lines are dropped.
pub open spec fn skip_lines(s: Seq<u8>, k: nat) -> Seq<u8>
    decreases s.len(),
{
    if k == 0 || s.len() == 0 {
        s
    } else if s[0] == NEWLINE {
        skip_lines(s.drop_first(), (k - 1) as nat)
    } else {
        skip_lines(s.drop_first(), k)
    }
}

/// What is left of `s` once its first `n` bytes are dropped.
pub open spec fn skip_bytes(s: Seq<u8>, n: nat) -> Seq<u8> {
    if n <= s.len() {
        s.subrange(n as int, s.len() as int)
    } else {
        Seq::empty()
    }
}

/// The last `n` bytes of `s`, or all of `s` where it is shorter.
pub open spec fn last_bytes(s: Seq<u8>, n: nat) -> Seq<u8> {
    if n <= s.len() {
        s.subrange(s.len() - n, s.len() as int)
    } else {
        s
    }
}

/// `a - b` on naturals, zero where `b` exceeds `a`.
pub open spec fn sat_sub(a: nat, b: nat) -> nat {
    if a >= b {
        (a - b) as nat
    } else {
        0
    }
}

pub proof fn lemma_newlines_concat(a: Seq<u8>, b: Seq<u8>)
    ensures
        newlines(a + b) == newlines(a) + newlines(b),
    decreases b.len(),
{
    if b.len() == 0 {
        assert(a + b =~= a);
    } else {
        lemma_newlines_concat(a, b.drop_last());
        assert((a + b).drop_last() =~= a + b.drop_last());
    }
}

/// The count of newlines, read from the front.
pub proof fn lemma_newlines_front(s: Seq<u8>)
    requires
        s.len() > 0,
    ensures
        newlines(s) == newlines(s.drop_first()) + if s[0] == NEWLINE {
            1nat
        } else {
            0nat
        },
{
    let head = seq![s[0]];
    lemma_newlines_concat(head, s.drop_first());
    assert(head + s.drop_first() =~= s);
    assert(head.drop_last() =~= Seq::<u8>::empty());
    assert(newlines(Seq::<u8>::empty()) == 0);
    assert(head.last() == s[0]);
}

pub proof fn lemma_newlines_bound(s: Seq<u8>)
    ensures
        newlines(s) <= s.len(),
        ends_open(s) ==> newlines(s) < s.len(),
    decreases s.len(),
{
    if s.len() > 0 {
        lemma_newlines_bound(s.drop_last());
    }
}

/// The line count, read from the front.
pub proof fn lemma_line_total_front(s: Seq<u8>)
    requires
        s.len() > 0,
    ensures
        s[0] == NEWLINE ==> line_total(s) == line_total(s.drop_first()) + 1,
        s[0] != NEWLINE && s.len() == 1 ==> line_total(s) == 1,
        s[0] != NEWLINE && s.len() > 1 ==> line_total(s) == line_total(s.drop_first()),
        s.len() > 1 ==> line_total(s.drop_first()) >= 1,
{
    lemma_newlines_front(s);
    if s.len() > 1 {
        let t = s.drop_first();
        assert(t.last() == s.last());
        if !ends_open(t) {
            assert(t.last() == NEWLINE);
            lemma_newlines_front(t.drop_last().push(t.last()));
            assert(t.drop_last().push(t.last()) =~= t);
        }
    }
}

/// Dropping lines from a concatenation: while `a` holds enough newlines, the
/// lines dropped all come from `a`; else the rest of the count carries into `b`.
pub proof fn lemma_skip_lines_concat(a: Seq<u8>, b: Seq<u8>, k: nat)
    ensures
        skip_lines(a + b, k) == if newlines(a) >= k {
            skip_lines(a, k) + b
        } else {
            skip_lines(b, (k - newlines(a)) as nat)
        },
    decreases a.len(),
{
    if a.len() == 0 {
        assert(a + b =~= b);
    } else if k == 0 {
    } else {
        lemma_newlines_front(a);
        assert((a + b)[0] == a[0]);
        assert((a + b).drop_first() =~= a.drop_first() + b);
        if a[0] == NEWLINE {
            lemma_skip_lines_concat(a.drop_first(), b, (k - 1) as nat);
        } else {
            lemma_skip_lines_concat(a.drop_first(), b, k);
        }
    }
}

/// Dropping `k` lines leaves `line_total(s) - k` of them.
pub proof fn lemma_skip_lines_total(s: Seq<u8>, k: nat)
    ensures
        line_total(skip_lines(s, k)) == sat_sub(line_total(s), k),
        k >= line_total(s) ==> skip_lines(s, k).len() == 0,
    decreases s.len(),
{
    if s.len() == 0 {
    } else if k == 0 {
    } else {
        lemma_line_total_front(s);
        if s[0] == NEWLINE {
            lemma_skip_lines_total(s.drop_first(), (k - 1) as nat);
        } else {
            lemma_skip_lines_total(s.drop_first(), k);
        }
    }
}

/// Dropping `k` newlines' worth of lines removes exactly `k` newlines.
pub proof fn lemma_skip_lines_newlines(s: Seq<u8>, k: nat)
    requires
        k <= newlines(s),
    ensures
        newlines(skip_lines(s, k)) + k == newlines(s),
    decreases s.len(),
{
    if s.len() == 0 {
    } else if k == 0 {
    } else {
        lemma_newlines_front(s);
        if s[0] == NEWLINE {
            lemma_skip_lines_newlines(s.drop_first(), (k - 1) as nat);
        } else {
            lemma_skip_lines_newlines(s.drop_first(), k);
        }
    }
}

/// Dropping `i` lines and then `j` more is dropping `i + j`.
pub proof fn lemma_skip_lines_twice(s: Seq<u8>, i: nat, j: nat)
    ensures
        skip_lines(skip_lines(s, i), j) == skip_lines(s, i + j),
    decreases s.len(),
{
    if s.len() == 0 {
    } else if i == 0 {
    } else if s[0] == NEWLINE {
        lemma_skip_lines_twice(s.drop_first(), (i - 1) as nat, j);
        assert((i - 1) as nat + j == (i + j - 1) as nat);
    } else {
        lemma_skip_lines_twice(s.drop_first(), i, j);
    }
}

/// What is left after dropping lines is a suffix of the source.
pub proof fn lemma_skip_lines_suffix(s: Seq<u8>, k: nat)
    ensures
        skip_lines(s, k).len() <= s.len(),
        skip_lines(s, k) == s.subrange(s.len() - skip_lines(s, k).len(), s.len() as int),
    decreases s.len(),
{
    if s.len() == 0 {
        assert(s.subrange(0, 0) =~= s);
    } else if k == 0 {
        assert(s.subrange(0, s.len() as int) =~= s);
    } else {
        let t = s.drop_first();
        let kk: nat = if s[0] == NEWLINE {
            (k - 1) as nat
        } else {
            k
        };
        lemma_skip_lines_suffix(t, kk);
        let r = skip_lines(t, kk);
        assert(t.subrange(t.len() - r.len(), t.len() as int) =~= s.subrange(
            s.len() - r.len(),
            s.len() as int,
        ));
    }
}

pub proof fn lemma_skip_bytes_concat(a: Seq<u8>, b: Seq<u8>, n: nat)
    ensures
        skip_bytes(a + b, n) == if n <= a.len() {
            skip_bytes(a, n) + b
        } else {
            skip_bytes(b, (n - a.len()) as nat)
        },
{
    if n <= a.len() {
        assert(skip_bytes(a + b, n) =~= skip_bytes(a, n) + b);
    } else {
        assert(skip_bytes(a + b, n) =~= skip_bytes(b, (n - a.len()) as nat));
    }
}

} // verus!
