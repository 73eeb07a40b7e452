//! The calendar: reading a month as given, and laying out a month's grid.
use vstd::prelude::*;
use vstd::string::{StrSliceExecFns, StringExecFns, StringSliceAdditionalSpecFns};
use vstd::utf8::encode_utf8;

use crate::cutr::{parse_usize, usize_of};
use crate::decimal::{append_decimal, append_right_aligned, append_spaces, decimal, right_aligned, spaces};
use crate::text::{has_prefix, lower_of, lowercase, starts_with};

verus! {

/// A calendar date.
#[derive(Clone, Copy, Debug, PartialEq, Eq, Structural)]
pub struct Date {
    pub year: i32,
    pub month: u32,
    pub day: u32,
}

/// The English name of month `m`, 1-based.
pub open spec fn month_name(m: nat) -> Seq<char> {
    if m == 1 {
        "January"@
    } else if m == 2 {
        "February"@
    } else if m == 3 {
        "March"@
    } else if m == 4 {
        "April"@
    } else if m == 5 {
        "May"@
    } else if m == 6 {
        "June"@
    } else if m == 7 {
        "July"@
    } else if m == 8 {
        "August"@
    } else if m == 9 {
        "September"@
    } else if m == 10 {
        "October"@
    } else if m == 11 {
        "November"@
    } else {
        "December"@
    }
}

fn month_str(m: u32) -> (r: &'static str)
    requires
        1 <= m <= 12,
    ensures
        r@ == month_name(m as nat),
{
    if m == 1 {
        "January"
    } else if m == 2 {
        "February"
    } else if m == 3 {
        "March"
    } else if m == 4 {
        "April"
    } else if m == 5 {
        "May"
    } else if m == 6 {
        "June"
    } else if m == 7 {
        "July"
    } else if m == 8 {
        "August"
    } else if m == 9 {
        "September"
    } else if m == 10 {
        "October"
    } else if m == 11 {
        "November"
    } else {
        "December"
    }
}

/// Why a month could not be read.
#[derive(Clone, Copy, Debug, PartialEq, Eq, Structural)]
pub enum MonthError {
    /// A number outside 1 through 12.
    OutOfRange(u32),
    /// Neither a number nor the start of exactly one month's name.
    Invalid,
}

/// The months, among the first `upto`, whose lower-case names start with `input`.
pub open spec fn name_matches(input: Seq<char>, upto: nat) -> nat
    decreases upto,
{
    if upto == 0 {
        0
    } else {
        name_matches(input, (upto - 1) as nat) + if has_prefix(lower_of(month_name(upto)), input) {
            1nat
        } else {
            0nat
        }
    }
}

/// The month that `input` names: a number from 1 through 12, or the start of
/// the lower-case name of exactly one month.
pub open spec fn month_of(input: Seq<char>) -> Result<u32, MonthError> {
    let b = encode_utf8(input);
    if usize_of(b) is Ok && usize_of(b)->Ok_0 <= u32::MAX {
        let n = usize_of(b)->Ok_0;
        if 1 <= n <= 12 {
            Ok(n as u32)
        } else {
            Err(MonthError::OutOfRange(n as u32))
        }
    } else if name_matches(input, 12) == 1 {
        Ok(
            (choose|m: nat|
                1 <= m <= 12 && has_prefix(lower_of(month_name(m)), input)) as u32,
        )
    } else {
        Err(MonthError::Invalid)
    }
}

proof fn lemma_single_match(input: Seq<char>, upto: nat, m: nat)
    requires
        1 <= m <= upto <= 12,
        name_matches(input, upto) == 1,
        has_prefix(lower_of(month_name(m)), input),
    ensures
        forall|k: nat| 1 <= k <= upto && has_prefix(lower_of(month_name(k)), input) ==> k == m,
    decreases upto,
{
    if m < upto {
        if has_prefix(lower_of(month_name(upto)), input) {
            lemma_count_positive(input, (upto - 1) as nat, m);
        } else {
            lemma_single_match(input, (upto - 1) as nat, m);
        }
    } else {
        assert forall|k: nat| 1 <= k <= upto && has_prefix(lower_of(month_name(k)), input) implies k
            == m by {
            if k < m {
                lemma_count_positive(input, (m - 1) as nat, k);
            }
        }
    }
}

proof fn lemma_count_positive(input: Seq<char>, upto: nat, k: nat)
    requires
        1 <= k <= upto,
        has_prefix(lower_of(month_name(k)), input),
    ensures
        name_matches(input, upto) >= 1,
    decreases upto,
{
    if k < upto {
        lemma_count_positive(input, (upto - 1) as nat, k);
    }
}

/// Reads a month given as a number or as the start of its name.
pub fn parse_month(input: &str) -> (r: Result<u32, MonthError>)
    ensures
        r == month_of(input@),
{
    match parse_usize(input.as_bytes()) {
        Ok(n) => {
            if n <= u32::MAX as usize {
                if 1 <= n && n <= 12 {
                    return Ok(n as u32);
                } else {
                    return Err(MonthError::OutOfRange(n as u32));
                }
            }
        },
        Err(_) => {},
    }
    let mut count: usize = 0;
    let mut found: u32 = 0;
    let mut m: u32 = 1;
    while m <= 12
        invariant
            1 <= m <= 13,
            count == name_matches(input@, (m - 1) as nat),
            count <= m - 1,
            count >= 1 ==> 1 <= found < m && has_prefix(lower_of(month_name(found as nat)), input@),
        decreases 13 - m,
    {
        let name = lowercase(month_str(m));
        if starts_with(name.as_str(), input) {
            if count == 0 {
                found = m;
            }
            count = count + 1;
        }
        m = m + 1;
    }
    if count == 1 {
        proof {
            lemma_single_match(input@, 12, found as nat);
            let c = choose|k: nat| 1 <= k <= 12 && has_prefix(lower_of(month_name(k)), input@);
            assert(c == found);
        }
        Ok(found)
    } else {
        Err(MonthError::Invalid)
    }
}

/// The weekday of the first day of a month, counted from Sunday as 0.
pub uninterp spec fn first_weekday(year: int, month: nat) -> nat;

/// Relies on `chrono::NaiveDate::from_ymd_opt`, `Datelike::weekday` and
/// `Weekday::num_days_from_sunday`: the weekday of the 1st, from 0 (Sunday) to 6.
#[verifier::external_body]
fn weekday_of_first(year: i32, month: u32) -> (r: u32)
    requires
        1 <= year <= 9999,
        1 <= month <= 12,
    ensures
        r == first_weekday(year as int, month as nat),
        r < 7,
{
    let first = chrono::NaiveDate::from_ymd_opt(year, month, 1).unwrap();
    chrono::Datelike::weekday(&first).num_days_from_sunday()
}

pub open spec fn leap_year(year: int) -> bool {
    year % 4 == 0 && (year % 100 != 0 || year % 400 == 0)
}

/// The number of days of a month in the proleptic Gregorian calendar.
pub open spec fn days_in_month(year: int, month: nat) -> nat {
    if month == 2 {
        if leap_year(year) {
            29
        } else {
            28
        }
    } else if month == 4 || month == 6 || month == 9 || month == 11 {
        30
    } else {
        31
    }
}

/// Relies on `chrono::Month::try_from` and `Month::num_days`: the length of the month.
#[verifier::external_body]
fn month_length(year: i32, month: u32) -> (r: u32)
    requires
        1 <= year <= 9999,
        1 <= month <= 12,
    ensures
        r == days_in_month(year as int, month as nat),
{
    chrono::Month::try_from(month as u8).unwrap().num_days(year).unwrap() as u32
}

/// `s` centered in `width` columns, the odd space on the right.
pub open spec fn centered(s: Seq<char>, width: nat) -> Seq<char> {
    if s.len() >= width {
        s
    } else {
        let pad = (width - s.len()) as nat;
        spaces(pad / 2) + s + spaces((pad - pad / 2) as nat)
    }
}

/// The title line of a month: its name, and the year where asked, centered
/// over the grid.
pub open spec fn title(year: i32, month: u32, print_year: bool) -> Seq<char> {
    let text = if print_year {
        month_name(month as nat) + seq![' '] + decimal(year as nat)
    } else {
        month_name(month as nat)
    };
    centered(text, 20) + seq![' ']
}

/// The line of weekday names.
pub open spec fn week_header() -> Seq<char> {
    "Su Mo Tu We Th Fr Sa "@
}

/// One cell of the grid: day `d` of the month where it is one, highlighted
/// where it is `today`; blank otherwise.
pub open spec fn cell(year: i32, month: u32, d: int, today: Date) -> Seq<char> {
    if 1 <= d <= days_in_month(year as int, month as nat) {
        if today == (Date { year, month, day: d as u32 }) {
            "\u{1b}[7m"@ + right_aligned(d as nat, 2) + "\u{1b}[0m "@
        } else {
            right_aligned(d as nat, 2) + seq![' ']
        }
    } else {
        "   "@
    }
}

/// The first `k` cells of week `w` of the grid; week 0 holds the 1st.
pub open spec fn week_cells(year: i32, month: u32, w: int, k: nat, today: Date) -> Seq<char>
    decreases k,
{
    if k == 0 {
        Seq::empty()
    } else {
        week_cells(year, month, w, (k - 1) as nat, today) + cell(
            year,
            month,
            w * 7 + (k - 1) - first_weekday(year as int, month as nat) + 1,
            today,
        )
    }
}

/// The eight lines of a month: title, weekday names, and six weeks.
pub open spec fn month_lines(year: i32, month: u32, print_year: bool, today: Date) -> Seq<
    Seq<char>,
> {
    seq![title(year, month, print_year), week_header()] + Seq::new(
        6,
        |w: int| week_cells(year, month, w, 7, today),
    )
}

fn append_cell(s: &mut String, year: i32, month: u32, d: i64, today: &Date)
    requires
        1 <= year <= 9999,
        1 <= month <= 12,
        -10 <= d <= 50,
    ensures
        final(s)@ == old(s)@ + cell(year, month, d as int, *today),
{
    proof {
        reveal_strlit("\u{1b}[7m");
        reveal_strlit("\u{1b}[0m ");
        reveal_strlit("   ");
        reveal_strlit(" ");
    }
    let n = month_length(year, month);
    if 1 <= d && d <= n as i64 {
        let day = d as u32;
        if today.year == year && today.month == month && today.day == day {
            s.append("\u{1b}[7m");
            append_right_aligned(s, day as usize, 2);
            s.append("\u{1b}[0m ");
        } else {
            append_right_aligned(s, day as usize, 2);
            s.append(" ");
        }
    } else {
        s.append("   ");
    }
    assert(s@ =~= old(s)@ + cell(year, month, d as int, *today));
}

/// The lines of a month's calendar: the title (with the year where
/// `print_year` is set), the weekday names, and six weeks of days from
/// Sunday to Saturday, `today` highlighted.
pub fn format_month(year: i32, month: u32, print_year: bool, today: Date) -> (r: Vec<String>)
    requires
        1 <= year <= 9999,
        1 <= month <= 12,
    ensures
        r@.map_values(|s: String| s@) == month_lines(year, month, print_year, today),
{
    proof {
        reveal_strlit(" ");
        reveal_strlit("Su Mo Tu We Th Fr Sa ");
    }
    let mut text = String::new();
    text.append(month_str(month));
    if print_year {
        text.append(" ");
        append_decimal(&mut text, year as usize);
    }
    let len = text.as_str().unicode_len();
    let mut header = String::new();
    if len < 20 {
        let pad = 20 - len;
        append_spaces(&mut header, pad / 2);
        header.append(text.as_str());
        append_spaces(&mut header, pad - pad / 2);
    } else {
        header.append(text.as_str());
    }
    header.append(" ");
    assert(header@ =~= title(year, month, print_year));
    let mut lines: Vec<String> = Vec::new();
    lines.push(header);
    lines.push(String::from_str("Su Mo Tu We Th Fr Sa "));
    let offset = weekday_of_first(year, month) as i64;
    let ghost all = month_lines(year, month, print_year, today);
    assert(lines@.map_values(|s: String| s@) =~= all.subrange(0, 2));
    let mut w: i64 = 0;
    while w < 6
        invariant
            0 <= w <= 6,
            1 <= year <= 9999,
            1 <= month <= 12,
            offset == first_weekday(year as int, month as nat),
            offset < 7,
            all == month_lines(year, month, print_year, today),
            lines@.map_values(|s: String| s@) == all.subrange(0, 2 + w),
        decreases 6 - w,
    {
        let mut row = String::new();
        let mut i: i64 = 0;
        while i < 7
            invariant
                0 <= i <= 7,
                0 <= w < 6,
                1 <= year <= 9999,
                1 <= month <= 12,
                offset == first_weekday(year as int, month as nat),
                offset < 7,
                row@ == week_cells(year, month, w as int, i as nat, today),
            decreases 7 - i,
        {
            append_cell(&mut row, year, month, w * 7 + i - offset + 1, &today);
            i = i + 1;
        }
        let ghost before = lines@.map_values(|s: String| s@);
        assert(all[2 + w] == week_cells(year, month, w as int, 7, today));
        lines.push(row);
        assert(lines@.map_values(|s: String| s@) =~= before.push(row@));
        assert(lines@.map_values(|s: String| s@) =~= all.subrange(0, 2 + w + 1));
        w = w + 1;
    }
    assert(all.subrange(0, 8) =~= all);
    lines
}

/// Whether a year can be shown: 1 through 9999.
pub fn valid_year(year: i32) -> (r: bool)
    ensures
        r == (1 <= year <= 9999),
{
    1 <= year && year <= 9999
}

/// Line `t` of the twelve months laid out three abreast: nine lines for each
/// row of three months, the ninth blank.
pub open spec fn year_body_line(year: i32, today: Date, t: int) -> Seq<char> {
    let g = t / 9;
    let i = t % 9;
    if i == 8 {
        Seq::empty()
    } else {
        month_lines(year, (3 * g + 1) as u32, false, today)[i] + seq![' '] + month_lines(
            year,
            (3 * g + 2) as u32,
            false,
            today,
        )[i] + seq![' '] + month_lines(year, (3 * g + 3) as u32, false, today)[i]
    }
}

/// The lines of a whole year: the year right-aligned over the middle, then
/// four rows of three months.
pub open spec fn year_lines(year: i32, today: Date) -> Seq<Seq<char>> {
    seq![right_aligned(year as nat, 32)] + Seq::new(36, |t: int| year_body_line(year, today, t))
}

/// The calendar of a whole year.
pub fn format_year(year: i32, today: Date) -> (r: Vec<String>)
    requires
        1 <= year <= 9999,
    ensures
        r@.map_values(|s: String| s@) == year_lines(year, today),
{
    proof {
        reveal_strlit(" ");
    }
    let ghost all = year_lines(year, today);
    let mut months: Vec<Vec<String>> = Vec::new();
    let mut m: u32 = 1;
    while m <= 12
        invariant
            1 <= m <= 13,
            1 <= year <= 9999,
            months@.len() == m - 1,
            forall|k: int|
                0 <= k < months@.len() ==> (#[trigger] months@[k])@.map_values(|s: String| s@)
                    == month_lines(year, (k + 1) as u32, false, today),
        decreases 13 - m,
    {
        months.push(format_month(year, m, false, today));
        m = m + 1;
    }
    let mut lines: Vec<String> = Vec::new();
    let mut head = String::new();
    append_right_aligned(&mut head, year as usize, 32);
    lines.push(head);
    assert(lines@.map_values(|s: String| s@) =~= all.take(1));
    let mut g: usize = 0;
    while g < 4
        invariant
            g <= 4,
            1 <= year <= 9999,
            all == year_lines(year, today),
            months@.len() == 12,
            forall|k: int|
                0 <= k < 12 ==> (#[trigger] months@[k])@.map_values(|s: String| s@) == month_lines(
                    year,
                    (k + 1) as u32,
                    false,
                    today,
                ),
            lines@.map_values(|s: String| s@) == all.take(1 + 9 * g),
        decreases 4 - g,
    {
        let mut i: usize = 0;
        while i < 9
            invariant
                i <= 9,
                g < 4,
                1 <= year <= 9999,
                all == year_lines(year, today),
                months@.len() == 12,
                forall|k: int|
                    0 <= k < 12 ==> (#[trigger] months@[k])@.map_values(|s: String| s@)
                        == month_lines(year, (k + 1) as u32, false, today),
                lines@.map_values(|s: String| s@) == all.take(1 + 9 * g + i),
            decreases 9 - i,
        {
            let t = 9 * g + i;
            assert(t / 9 == g as int && t % 9 == i as int) by (nonlinear_arith)
                requires
                    t == 9 * g + i,
                    i < 9,
            ;
            let mut line = String::new();
            proof {
                reveal_strlit(" ");
            }
            if i < 8 {
                let a = &months[3 * g];
                let b = &months[3 * g + 1];
                let c = &months[3 * g + 2];
                assert(a@.map_values(|s: String| s@) == month_lines(year, (3 * g + 1) as u32, false, today));
                assert(b@.map_values(|s: String| s@) == month_lines(year, (3 * g + 2) as u32, false, today));
                assert(c@.map_values(|s: String| s@) == month_lines(year, (3 * g + 3) as u32, false, today));
                assert(a@.map_values(|s: String| s@).len() == 8);
                assert(b@.map_values(|s: String| s@).len() == 8);
                assert(c@.map_values(|s: String| s@).len() == 8);
                assert(a@.map_values(|s: String| s@)[i as int] == a@[i as int]@);
                assert(b@.map_values(|s: String| s@)[i as int] == b@[i as int]@);
                assert(c@.map_values(|s: String| s@)[i as int] == c@[i as int]@);
                line.append(a[i].as_str());
                line.append(" ");
                line.append(b[i].as_str());
                line.append(" ");
                line.append(c[i].as_str());
                let ghost gi = g as int;
                let ghost ii = i as int;
                assert(year_body_line(year, today, t as int) == month_lines(
                    year,
                    (3 * gi + 1) as u32,
                    false,
                    today,
                )[ii] + seq![' '] + month_lines(year, (3 * gi + 2) as u32, false, today)[ii]
                    + seq![' '] + month_lines(year, (3 * gi + 3) as u32, false, today)[ii]);
                assert(line@ =~= a@[ii]@ + seq![' '] + b@[ii]@ + seq![' '] + c@[ii]@);
                assert(line@ =~= year_body_line(year, today, t as int));
            } else {
                assert(line@ =~= year_body_line(year, today, t as int));
            }
            assert(all[1 + t] == year_body_line(year, today, t as int));
            let ghost before = lines@.map_values(|s: String| s@);
            let ghost lv = line@;
            lines.push(line);
            assert(lines@.map_values(|s: String| s@) =~= before.push(lv));
            assert(lines@.map_values(|s: String| s@) =~= all.take(1 + 9 * g + i + 1));
            i = i + 1;
        }
        g = g + 1;
    }
    assert(all.take(37) =~= all);
    lines
}

} // verus!
