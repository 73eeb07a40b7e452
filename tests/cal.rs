use tailr::calr::{format_month, format_year, parse_month, valid_year, Date, MonthError};

#[test]
fn test_format_month() {
    let today = Date { year: 0, month: 1, day: 1 };
    let leap_february = [
        "   February 2020     ",
        "Su Mo Tu We Th Fr Sa ",
        "                   1 ",
        " 2  3  4  5  6  7  8 ",
        " 9 10 11 12 13 14 15 ",
        "16 17 18 19 20 21 22 ",
        "23 24 25 26 27 28 29 ",
        "                     ",
    ];
    assert_eq!(format_month(2020, 2, true, today), leap_february);

    let may = [
        "        May          ",
        "Su Mo Tu We Th Fr Sa ",
        "                1  2 ",
        " 3  4  5  6  7  8  9 ",
        "10 11 12 13 14 15 16 ",
        "17 18 19 20 21 22 23 ",
        "24 25 26 27 28 29 30 ",
        "31                   ",
    ];
    assert_eq!(format_month(2020, 5, false, today), may);

    let april_hl = [
        "     April 2021      ",
        "Su Mo Tu We Th Fr Sa ",
        "             1  2  3 ",
        " 4  5  6 \u{1b}[7m 7\u{1b}[0m  8  9 10 ",
        "11 12 13 14 15 16 17 ",
        "18 19 20 21 22 23 24 ",
        "25 26 27 28 29 30    ",
        "                     ",
    ];
    let today = Date { year: 2021, month: 4, day: 7 };
    assert_eq!(format_month(2021, 4, true, today), april_hl);
}

#[test]
fn month_numbers_and_names() {
    assert_eq!(parse_month("1"), Ok(1));
    assert_eq!(parse_month("12"), Ok(12));
    assert_eq!(parse_month("0"), Err(MonthError::OutOfRange(0)));
    assert_eq!(parse_month("13"), Err(MonthError::OutOfRange(13)));
    assert_eq!(parse_month("jan"), Ok(1));
    assert_eq!(parse_month("s"), Ok(9));
    assert_eq!(parse_month("ju"), Err(MonthError::Invalid));
    assert_eq!(parse_month("Jan"), Err(MonthError::Invalid));
    assert_eq!(parse_month(""), Err(MonthError::Invalid));
    assert_eq!(parse_month("december"), Ok(12));
}

#[test]
fn february_outside_leap_years() {
    let today = Date { year: 0, month: 1, day: 1 };
    let feb = format_month(1900, 2, true, today);
    assert_eq!(feb[0], "   February 1900     ");
    assert_eq!(feb[6], "25 26 27 28          ");
    let feb2000 = format_month(2000, 2, false, today);
    assert_eq!(feb2000[6], "27 28 29             ");
}

#[test]
fn whole_year() {
    assert!(valid_year(1) && valid_year(9999) && !valid_year(0) && !valid_year(10000));
    let today = Date { year: 0, month: 1, day: 1 };
    let lines = format_year(2020, today);
    assert_eq!(lines.len(), 37);
    assert_eq!(lines[0], format!("{:>32}", 2020));
    assert_eq!(
        lines[1],
        "      January               February               March         "
    );
    assert_eq!(lines[9], "");
    assert_eq!(lines[36], "");
}
