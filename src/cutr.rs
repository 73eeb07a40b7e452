//! Selecting bytes, characters or fields of a line by lists of 1-based ranges.
use std::ops::Range;

use vstd::prelude::*;
use vstd::string::{StrSliceExecFns, StringExecFns, StringSliceAdditionalSpecFns};
use vstd::utf8::encode_utf8;

verus! {

pub const DASH: u8 = 45;

pub const PLUS: u8 = 43;

/// Why a range could not be read.
#[derive(Clone, Copy, Debug, PartialEq, Eq, Structural)]
pub enum RangeError {
    /// A number was empty.
    Empty,
    /// A number held something other than digits.
    InvalidDigit,
    /// A number, or the end after it, does not fit in a `usize`.
    TooLarge,
    /// The range held more than one dash.
    NotEnoughValues,
}

impl RangeError {
    /// The words that describe the error.
    pub fn describe(&self) -> (r: &'static str) {
        match self {
            RangeError::Empty => "cannot parse integer from empty string",
            RangeError::InvalidDigit => "invalid digit found in string",
            RangeError::TooLarge => "number too large to fit in target type",
            RangeError::NotEnoughValues => "not enough values",
        }
    }
}

pub open spec fn is_digit(b: u8) -> bool {
    48 <= b <= 57
}

/// Reads the digits of `s` from index `i` on, after the value `acc`, as
/// `usize::from_str` does: left to right, failing at the first non-digit or
/// at the first digit that overflows.
pub open spec fn scan_digits(s: Seq<u8>, i: int, acc: nat) -> Result<nat, RangeError>
    decreases s.len() - i,
{
    if i >= s.len() {
        Ok(acc)
    } else if !is_digit(s[i]) {
        Err(RangeError::InvalidDigit)
    } else if acc * 10 + (s[i] - 48) > usize::MAX {
        Err(RangeError::TooLarge)
    } else {
        scan_digits(s, i + 1, acc * 10 + (s[i] - 48) as nat)
    }
}

/// The `usize` that `s` writes: an optional `+`, then decimal digits.
pub open spec fn usize_of(s: Seq<u8>) -> Result<nat, RangeError> {
    if s.len() == 0 {
        Err(RangeError::Empty)
    } else if s[0] == PLUS {
        if s.len() == 1 {
            Err(RangeError::InvalidDigit)
        } else {
            scan_digits(s, 1, 0)
        }
    } else {
        scan_digits(s, 0, 0)
    }
}

/// Number of dashes in `s`.
pub open spec fn dashes(s: Seq<u8>) -> nat
    decreases s.len(),
{
    if s.len() == 0 {
        0
    } else {
        dashes(s.drop_last()) + if s.last() == DASH {
            1nat
        } else {
            0nat
        }
    }
}

/// The range that `s` writes: `n` for `n..n+1`, or `a-b` for `a..b+1`.
pub open spec fn range_of(s: Seq<u8>) -> Result<(nat, nat), RangeError> {
    if dashes(s) == 0 {
        match usize_of(s) {
            Err(e) => Err(e),
            Ok(n) => if n + 1 > usize::MAX {
                Err(RangeError::TooLarge)
            } else {
                Ok((n, n + 1))
            },
        }
    } else if dashes(s) == 1 {
        let k = choose|k: int| 0 <= k < s.len() && s[k] == DASH;
        match usize_of(s.subrange(0, k)) {
            Err(e) => Err(e),
            Ok(a) => match usize_of(s.subrange(k + 1, s.len() as int)) {
                Err(e) => Err(e),
                Ok(b) => if b + 1 > usize::MAX {
                    Err(RangeError::TooLarge)
                } else {
                    Ok((a, b + 1))
                },
            },
        }
    } else {
        Err(RangeError::NotEnoughValues)
    }
}

pub(crate) fn parse_usize(s: &[u8]) -> (r: Result<usize, RangeError>)
    ensures
        match usize_of(s@) {
            Ok(n) => r == Ok::<usize, RangeError>(n as usize),
            Err(e) => r == Err::<usize, RangeError>(e),
        },
        r is Ok ==> usize_of(s@) == Ok::<nat, RangeError>(r->Ok_0 as nat),
{
    if s.len() == 0 {
        return Err(RangeError::Empty);
    }
    let mut i: usize = 0;
    if s[0] == PLUS {
        if s.len() == 1 {
            return Err(RangeError::InvalidDigit);
        }
        i = 1;
    }
    let ghost first = i as int;
    let mut acc: usize = 0;
    while i < s.len()
        invariant
            first <= i <= s@.len(),
            usize_of(s@) == scan_digits(s@, i as int, acc as nat),
        decreases s@.len() - i,
    {
        let b = s[i];
        if b < 48 || b > 57 {
            return Err(RangeError::InvalidDigit);
        }
        let d = (b - 48) as usize;
        if acc > (usize::MAX - d) / 10 {
            assert(acc * 10 + d > usize::MAX) by (nonlinear_arith)
                requires
                    acc > (usize::MAX - d) / 10,
                    d <= 9,
            ;
            return Err(RangeError::TooLarge);
        }
        assert(acc * 10 + d <= usize::MAX) by (nonlinear_arith)
            requires
                acc <= (usize::MAX - d) / 10,
                d <= 9,
        ;
        acc = acc * 10 + d;
        i = i + 1;
    }
    Ok(acc)
}

fn find_dash(s: &[u8]) -> (r: (usize, usize))
    ensures
        r.0 == dashes(s@),
        r.0 >= 1 ==> r.1 < s@.len() && s@[r.1 as int] == DASH,
        r.0 == 1 ==> forall|k: int| 0 <= k < s@.len() && s@[k] == DASH ==> k == r.1,
{
    let mut count: usize = 0;
    let mut at: usize = 0;
    let mut i: usize = 0;
    assert(s@.subrange(0, 0) =~= Seq::<u8>::empty());
    while i < s.len()
        invariant
            i <= s@.len(),
            count == dashes(s@.subrange(0, i as int)),
            count <= i,
            count >= 1 ==> at < i && s@[at as int] == DASH,
            count == 1 ==> forall|k: int| 0 <= k < i && s@[k] == DASH ==> k == at,
            count == 0 ==> forall|k: int| 0 <= k < i ==> s@[k] != DASH,
        decreases s@.len() - i,
    {
        let ghost next = s@.subrange(0, i + 1);
        assert(next.drop_last() =~= s@.subrange(0, i as int));
        if s[i] == DASH {
            if count == 0 {
                at = i;
            }
            count = count + 1;
        }
        i = i + 1;
    }
    assert(s@.subrange(0, i as int) =~= s@);
    (count, at)
}

fn copy_part(s: &[u8], from: usize, to: usize) -> (r: Vec<u8>)
    requires
        from <= to <= s@.len(),
    ensures
        r@ == s@.subrange(from as int, to as int),
{
    let mut r: Vec<u8> = Vec::new();
    let mut i: usize = from;
    while i < to
        invariant
            from <= i <= to,
            to <= s@.len(),
            r@ == s@.subrange(from as int, i as int),
        decreases to - i,
    {
        r.push(s[i]);
        i = i + 1;
        assert(r@ =~= s@.subrange(from as int, i as int));
    }
    r
}

/// Reads one range of a list: `n` selects the `n`-th unit, `a-b` the units
/// from the `a`-th to the `b`-th.
pub fn parse_range(value: &str) -> (r: Result<Range<usize>, RangeError>)
    ensures
        match range_of(value.spec_bytes()) {
            Ok((a, b)) => r is Ok && r->Ok_0.start == a && r->Ok_0.end == b,
            Err(e) => r == Err::<Range<usize>, RangeError>(e),
        },
{
    let s = value.as_bytes();
    let len = s.len();
    let (count, at) = find_dash(s);
    if count == 0 {
        match parse_usize(s) {
            Err(e) => Err(e),
            Ok(n) => {
                if n == usize::MAX {
                    Err(RangeError::TooLarge)
                } else {
                    Ok(n..n + 1)
                }
            },
        }
    } else if count == 1 {
        let ghost k = choose|k: int| 0 <= k < s@.len() && s@[k] == DASH;
        assert(k == at);
        let before = copy_part(s, 0, at);
        let after = copy_part(s, at + 1, len);
        match parse_usize(before.as_slice()) {
            Err(e) => Err(e),
            Ok(a) => match parse_usize(after.as_slice()) {
                Err(e) => Err(e),
                Ok(b) => {
                    if b == usize::MAX {
                        Err(RangeError::TooLarge)
                    } else {
                        Ok(a..b + 1)
                    }
                },
            },
        }
    } else {
        Err(RangeError::NotEnoughValues)
    }
}

/// A list value that could not be read, and why.
#[derive(Debug)]
pub struct RangeListError {
    pub value: String,
    pub error: RangeError,
}

/// Reads every range of a list, or reports the first that cannot be read.
pub fn parse_ranges(values: &[String]) -> (r: Result<Vec<Range<usize>>, RangeListError>)
    ensures
        r is Ok <==> forall|k: int| 0 <= k < values@.len() ==> #[trigger] range_of(encode_utf8(values@[k]@)) is Ok,
        r is Ok ==> r->Ok_0@.len() == values@.len() && forall|k: int|
            0 <= k < values@.len() ==> #[trigger] range_of(encode_utf8(values@[k]@))
                == Ok::<(nat, nat), RangeError>(
                (r->Ok_0@[k].start as nat, r->Ok_0@[k].end as nat),
            ),
        r is Err ==> exists|k: int|
            0 <= k < values@.len() && values@[k]@ == r->Err_0.value@ && range_of(encode_utf8(values@[k]@)) == Err::<(nat, nat), RangeError>(r->Err_0.error) && forall|j: int|
                0 <= j < k ==> #[trigger] range_of(encode_utf8(values@[j]@)) is Ok,
{
    let mut out: Vec<Range<usize>> = Vec::new();
    let mut i: usize = 0;
    while i < values.len()
        invariant
            i <= values@.len(),
            out@.len() == i,
            forall|k: int|
                0 <= k < i ==> #[trigger] range_of(encode_utf8(values@[k]@))
                    == Ok::<(nat, nat), RangeError>((out@[k].start as nat, out@[k].end as nat)),
        decreases values@.len() - i,
    {
        match parse_range(values[i].as_str()) {
            Ok(range) => {
                out.push(range);
            },
            Err(error) => {
                return Err(RangeListError { value: values[i].clone(), error });
            },
        }
        i = i + 1;
    }
    Ok(out)
}

/// The spans, as 0-based index ranges over `len` units, that a list of ranges
/// selects: each range is read from where the previous one ended, a range that
/// ends before that position is passed over, and the first range that selects
/// nothing ends the list.
pub open spec fn spans(len: nat, rs: Seq<Range<usize>>, counter: nat) -> Seq<(nat, nat)>
    decreases rs.len(),
{
    if rs.len() == 0 {
        Seq::empty()
    } else if counter >= rs[0].end {
        spans(len, rs.drop_first(), counter)
    } else {
        let c: nat = if counter >= rs[0].start {
            counter
        } else {
            rs[0].start as nat
        };
        let from: nat = if (c - 1) as nat <= len {
            (c - 1) as nat
        } else {
            len
        };
        let to: nat = if (rs[0].end - 1) as nat <= len {
            (rs[0].end - 1) as nat
        } else {
            len
        };
        if from >= to {
            Seq::empty()
        } else {
            seq![(from, to)] + spans(len, rs.drop_first(), rs[0].end as nat)
        }
    }
}

/// The spans of `len` units that the ranges select, in order.
pub fn process_ranges(len: usize, ranges: &[Range<usize>]) -> (r: Vec<Range<usize>>)
    ensures
        r@.map_values(|s: Range<usize>| (s.start as nat, s.end as nat)) == spans(
            len as nat,
            ranges@,
            1,
        ),
        forall|k: int|
            0 <= k < r@.len() ==> (#[trigger] r@[k]).start < r@[k].end && r@[k].end <= len,
{
    let mut out: Vec<Range<usize>> = Vec::new();
    let mut counter: usize = 1;
    let mut i: usize = 0;
    assert(ranges@.subrange(0, ranges@.len() as int) =~= ranges@);
    while i < ranges.len()
        invariant
            i <= ranges@.len(),
            counter >= 1,
            out@.map_values(|s: Range<usize>| (s.start as nat, s.end as nat)) + spans(
                len as nat,
                ranges@.subrange(i as int, ranges@.len() as int),
                counter as nat,
            ) == spans(len as nat, ranges@, 1),
            forall|k: int|
                0 <= k < out@.len() ==> (#[trigger] out@[k]).start < out@[k].end && out@[k].end
                    <= len,
        decreases ranges@.len() - i,
    {
        let ghost rest = ranges@.subrange(i as int, ranges@.len() as int);
        let ghost before = out@.map_values(|s: Range<usize>| (s.start as nat, s.end as nat));
        assert(rest.drop_first() =~= ranges@.subrange(i + 1, ranges@.len() as int));
        assert(rest[0] == ranges@[i as int]);
        let start = ranges[i].start;
        let end = ranges[i].end;
        if counter >= end {
            i = i + 1;
            continue ;
        }
        let c = if counter >= start {
            counter
        } else {
            start
        };
        let from = if c - 1 <= len {
            c - 1
        } else {
            len
        };
        let to = if end - 1 <= len {
            end - 1
        } else {
            len
        };
        if from >= to {
            assert(before + spans(len as nat, rest, counter as nat) =~= before);
            assert(ranges@.subrange(ranges@.len() as int, ranges@.len() as int) =~= Seq::<
                Range<usize>,
            >::empty());
            i = ranges.len();
            continue ;
        }
        let span = Range { start: from, end: to };
        assert(span.start < span.end <= len);
        out.push(span);
        assert(out@[out@.len() - 1] == span);
        assert(out@.map_values(|s: Range<usize>| (s.start as nat, s.end as nat)) =~= before.push(
            (from as nat, to as nat),
        ));
        assert(before.push((from as nat, to as nat)) + spans(
            len as nat,
            rest.drop_first(),
            end as nat,
        ) =~= before + spans(len as nat, rest, counter as nat));
        counter = end;
        i = i + 1;
    }
    assert(ranges@.subrange(i as int, ranges@.len() as int) =~= Seq::<Range<usize>>::empty());
    assert(out@.map_values(|s: Range<usize>| (s.start as nat, s.end as nat)) =~= spans(
        len as nat,
        ranges@,
        1,
    ));
    out
}

/// The items that the spans cover, in order.
pub open spec fn picked<T>(items: Seq<T>, sp: Seq<(nat, nat)>) -> Seq<T>
    decreases sp.len(),
{
    if sp.len() == 0 {
        Seq::empty()
    } else {
        picked(items, sp.drop_last()) + items.subrange(sp.last().0 as int, sp.last().1 as int)
    }
}

/// The texts joined, `d` between each two.
pub open spec fn joined(items: Seq<Seq<char>>, d: Seq<char>) -> Seq<char>
    decreases items.len(),
{
    if items.len() == 0 {
        Seq::empty()
    } else if items.len() == 1 {
        items[0]
    } else {
        joined(items.drop_last(), d) + d + items.last()
    }
}

/// The spans as pairs of naturals.
pub open spec fn span_view(r: Seq<Range<usize>>) -> Seq<(nat, nat)> {
    r.map_values(|s: Range<usize>| (s.start as nat, s.end as nat))
}

/// The bytes of `line` in each selected span, one piece per span.
pub fn select_bytes(line: &[u8], ranges: &[Range<usize>]) -> (r: Vec<Vec<u8>>)
    ensures
        r@.map_values(|v: Vec<u8>| v@) == spans(line@.len() as nat, ranges@, 1).map_values(
            |sp: (nat, nat)| line@.subrange(sp.0 as int, sp.1 as int),
        ),
{
    let sp = process_ranges(line.len(), ranges);
    let ghost want = span_view(sp@).map_values(
        |x: (nat, nat)| line@.subrange(x.0 as int, x.1 as int),
    );
    let mut out: Vec<Vec<u8>> = Vec::new();
    let mut k: usize = 0;
    while k < sp.len()
        invariant
            k <= sp@.len(),
            forall|t: int| 0 <= t < sp@.len() ==> (#[trigger] sp@[t]).start < sp@[t].end && sp@[t].end <= line@.len(),
            want == span_view(sp@).map_values(|x: (nat, nat)| line@.subrange(x.0 as int, x.1 as int)),
            out@.map_values(|v: Vec<u8>| v@) == want.take(k as int),
        decreases sp@.len() - k,
    {
        let a = sp[k].start;
        let b = sp[k].end;
        let piece = copy_part(line, a, b);
        let ghost before = out@.map_values(|v: Vec<u8>| v@);
        assert(span_view(sp@)[k as int] == (a as nat, b as nat));
        assert(want[k as int] == line@.subrange(a as int, b as int));
        let ghost pv = piece@;
        out.push(piece);
        assert(out@.map_values(|v: Vec<u8>| v@) =~= before.push(pv));
        assert(out@.map_values(|v: Vec<u8>| v@) =~= want.take(k + 1));
        k = k + 1;
    }
    assert(want.take(k as int) =~= want);
    out
}

/// The characters of `line` in the selected spans, one after another.
pub fn select_chars(line: &str, ranges: &[Range<usize>]) -> (r: String)
    ensures
        r@ == picked(line@, spans(line@.len() as nat, ranges@, 1)),
{
    let n = crate::text::chars_of(line).len();
    let sp = process_ranges(n, ranges);
    let mut out = String::new();
    let mut k: usize = 0;
    assert(span_view(sp@).take(0) =~= Seq::<(nat, nat)>::empty());
    while k < sp.len()
        invariant
            k <= sp@.len(),
            n == line@.len(),
            forall|t: int| 0 <= t < sp@.len() ==> (#[trigger] sp@[t]).start < sp@[t].end && sp@[t].end <= n,
            out@ == picked(line@, span_view(sp@).take(k as int)),
        decreases sp@.len() - k,
    {
        out.append(line.substring_char(sp[k].start, sp[k].end));
        assert(span_view(sp@).take(k + 1).drop_last() =~= span_view(sp@).take(k as int));
        k = k + 1;
    }
    assert(span_view(sp@).take(k as int) =~= span_view(sp@));
    out
}

/// The selected fields of a record, joined by the delimiter.
pub fn select_fields(fields: &[String], ranges: &[Range<usize>], delim: &str) -> (r: String)
    ensures
        r@ == joined(
            picked(fields@.map_values(|f: String| f@), spans(fields@.len() as nat, ranges@, 1)),
            delim@,
        ),
{
    let ghost views = fields@.map_values(|f: String| f@);
    let sp = process_ranges(fields.len(), ranges);
    let mut out = String::new();
    let ghost mut acc: Seq<Seq<char>> = Seq::empty();
    let mut started = false;
    let mut k: usize = 0;
    assert(span_view(sp@).take(0) =~= Seq::<(nat, nat)>::empty());
    while k < sp.len()
        invariant
            k <= sp@.len(),
            views == fields@.map_values(|f: String| f@),
            forall|t: int| 0 <= t < sp@.len() ==> (#[trigger] sp@[t]).start < sp@[t].end && sp@[t].end <= fields@.len(),
            acc == picked(views, span_view(sp@).take(k as int)),
            out@ == joined(acc, delim@),
            started == (acc.len() > 0),
        decreases sp@.len() - k,
    {
        let a = sp[k].start;
        let b = sp[k].end;
        let ghost base = acc;
        let mut j: usize = a;
        assert(views.subrange(a as int, a as int) =~= Seq::<Seq<char>>::empty());
        assert(base + views.subrange(a as int, a as int) =~= base);
        while j < b
            invariant
                a <= j <= b,
                b <= fields@.len(),
                views == fields@.map_values(|f: String| f@),
                acc == base + views.subrange(a as int, j as int),
                out@ == joined(acc, delim@),
                started == (acc.len() > 0),
            decreases b - j,
        {
            let ghost prev = acc;
            if started {
                out.append(delim);
            }
            out.append(fields[j].as_str());
            started = true;
            proof {
                acc = acc.push(views[j as int]);
                assert(acc.drop_last() =~= prev);
                assert(base + views.subrange(a as int, j + 1) =~= acc);
            }
            j = j + 1;
        }
        assert(span_view(sp@).take(k + 1).drop_last() =~= span_view(sp@).take(k as int));
        k = k + 1;
    }
    assert(span_view(sp@).take(k as int) =~= span_view(sp@));
    out
}

} // verus!
