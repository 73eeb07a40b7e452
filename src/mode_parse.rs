//! Reading a count or an offset, as written on a command line, into a `Mode`.
//!
//! The text may hold dashes anywhere, which are ignored; what is left is an
//! optional `+` and then decimal digits. A leading `+` on the text as written
//! anchors the mode at a start position; otherwise it counts from the end.
use vstd::prelude::*;

use crate::tailr::{Mode, Unit};

verus! {

pub const DASH: u8 = 45;

pub const PLUS: u8 = 43;

/// The text with every dash removed.
pub open spec fn strip_dashes(s: Seq<u8>) -> Seq<u8>
    decreases s.len(),
{
    if s.len() == 0 {
        s
    } else if s.last() == DASH {
        strip_dashes(s.drop_last())
    } else {
        strip_dashes(s.drop_last()).push(s.last())
    }
}

/// The text less one leading `+`, if it has one.
pub open spec fn unsigned_part(s: Seq<u8>) -> Seq<u8> {
    if s.len() > 0 && s[0] == PLUS {
        s.drop_first()
    } else {
        s
    }
}

pub open spec fn is_digit(b: u8) -> bool {
    48 <= b <= 57
}

pub open spec fn all_digits(s: Seq<u8>) -> bool {
    forall|i: int| 0 <= i < s.len() ==> is_digit(#[trigger] s[i])
}

/// The number that a run of decimal digits writes.
pub open spec fn digits_value(s: Seq<u8>) -> nat
    decreases s.len(),
{
    if s.len() == 0 {
        0
    } else {
        digits_value(s.drop_last()) * 10 + (s.last() - 48) as nat
    }
}

/// The count that the text writes, where it writes one that fits in a `u64`.
pub open spec fn count_of(s: Seq<u8>) -> Option<u64> {
    let d = unsigned_part(strip_dashes(s));
    if d.len() > 0 && all_digits(d) && digits_value(d) <= u64::MAX {
        Some(digits_value(d) as u64)
    } else {
        None
    }
}

/// The mode that the text writes for a unit.
pub open spec fn mode_of(s: Seq<u8>, unit: Unit) -> Option<Mode> {
    match count_of(s) {
        None => None,
        Some(n) => Some(
            if s.len() > 0 && s[0] == PLUS {
                match unit {
                    Unit::Lines => Mode::FromLine(n),
                    Unit::Bytes => Mode::FromByte(n),
                }
            } else {
                match unit {
                    Unit::Lines => Mode::LastLines(n),
                    Unit::Bytes => Mode::LastBytes(n),
                }
            },
        ),
    }
}

/// The text does not write a count; `unit` says which count was asked for.
#[derive(Clone, Copy, Debug, PartialEq, Eq, Structural)]
pub struct IllegalCount {
    pub unit: Unit,
}

/// A longer run of digits writes at least as large a number.
proof fn lemma_digits_value_grows(s: Seq<u8>, j: int)
    requires
        0 <= j <= s.len(),
        all_digits(s),
    ensures
        digits_value(s.subrange(0, j)) <= digits_value(s),
    decreases s.len() - j,
{
    if j < s.len() {
        let t = s.subrange(0, j + 1);
        assert(t.drop_last() =~= s.subrange(0, j));
        assert(is_digit(s[j]));
        lemma_digits_value_grows(s, j + 1);
    } else {
        assert(s.subrange(0, j) =~= s);
    }
}

/// Reads the count that `s` writes, all of it digits.
fn digits_to_u64(s: &[u8]) -> (r: Option<u64>)
    ensures
        r == (if s@.len() > 0 && all_digits(s@) && digits_value(s@) <= u64::MAX {
            Some(digits_value(s@) as u64)
        } else {
            None
        }),
{
    if s.len() == 0 {
        return None;
    }
    let mut acc: u64 = 0;
    let mut i: usize = 0;
    assert(s@.subrange(0, 0) =~= Seq::<u8>::empty());
    while i < s.len()
        invariant
            i <= s@.len(),
            acc == digits_value(s@.subrange(0, i as int)),
            all_digits(s@.subrange(0, i as int)),
        decreases s@.len() - i,
    {
        let b = s[i];
        let ghost next = s@.subrange(0, i + 1);
        assert(next.drop_last() =~= s@.subrange(0, i as int));
        if b < 48 || b > 57 {
            assert(!is_digit(s@[i as int]));
            return None;
        }
        assert(all_digits(next)) by {
            assert forall|k: int| 0 <= k < next.len() implies is_digit(#[trigger] next[k]) by {
                if k < i {
                    assert(next[k] == s@.subrange(0, i as int)[k]);
                }
            }
        }
        match acc.checked_mul(10) {
            None => {
                proof {
                    assert(!all_digits(s@) || digits_value(s@) > u64::MAX) by {
                        if all_digits(s@) {
                            lemma_digits_value_grows(s@, i + 1);
                        }
                    }
                }
                return None;
            },
            Some(m) => match m.checked_add((b - 48) as u64) {
                None => {
                    proof {
                        assert(!all_digits(s@) || digits_value(s@) > u64::MAX) by {
                            if all_digits(s@) {
                                lemma_digits_value_grows(s@, i + 1);
                            }
                        }
                    }
                    return None;
                },
                Some(v) => {
                    acc = v;
                },
            },
        }
        i = i + 1;
    }
    assert(s@.subrange(0, i as int) =~= s@);
    Some(acc)
}

/// Reads the mode that `value` writes for `unit`; `value` is the count or the
/// offset as given, with its sign.
pub fn parse_mode(value: &[u8], unit: Unit) -> (r: Result<Mode, IllegalCount>)
    ensures
        match mode_of(value@, unit) {
            Some(m) => r == Ok::<Mode, IllegalCount>(m),
            None => r == Err::<Mode, IllegalCount>(IllegalCount { unit }),
        },
{
    let mut kept: Vec<u8> = Vec::new();
    let mut i: usize = 0;
    assert(value@.subrange(0, 0) =~= Seq::<u8>::empty());
    while i < value.len()
        invariant
            i <= value@.len(),
            kept@ == strip_dashes(value@.subrange(0, i as int)),
        decreases value@.len() - i,
    {
        let ghost next = value@.subrange(0, i + 1);
        assert(next.drop_last() =~= value@.subrange(0, i as int));
        if value[i] != DASH {
            kept.push(value[i]);
        }
        i = i + 1;
    }
    assert(value@.subrange(0, i as int) =~= value@);
    let start: usize = if kept.len() > 0 && kept[0] == PLUS {
        1
    } else {
        0
    };
    let digits = copy_tail(&kept, start);
    assert(digits@ =~= unsigned_part(kept@));
    match digits_to_u64(digits.as_slice()) {
        None => Err(IllegalCount { unit }),
        Some(n) => {
            let from_start = value.len() > 0 && value[0] == PLUS;
            Ok(
                if from_start {
                    match unit {
                        Unit::Lines => Mode::FromLine(n),
                        Unit::Bytes => Mode::FromByte(n),
                    }
                } else {
                    match unit {
                        Unit::Lines => Mode::LastLines(n),
                        Unit::Bytes => Mode::LastBytes(n),
                    }
                },
            )
        },
    }
}

fn copy_tail(v: &Vec<u8>, start: usize) -> (r: Vec<u8>)
    requires
        start <= v@.len(),
    ensures
        r@ == v@.subrange(start as int, v@.len() as int),
{
    let mut r: Vec<u8> = Vec::new();
    let mut i: usize = start;
    while i < v.len()
        invariant
            start <= i <= v@.len(),
            r@ == v@.subrange(start as int, i as int),
        decreases v@.len() - i,
    {
        r.push(v[i]);
        i = i + 1;
        assert(r@ =~= v@.subrange(start as int, i as int));
    }
    r
}

} // verus!
