use tailr::mode_parse::{parse_mode, IllegalCount};
use tailr::tailr::{
    count_lines_and_bytes, extract, extract_single_pass, Counter, Extractor, Mode, Plan, Unit, Window,
};

fn both(data: &[u8], mode: Mode) -> Vec<u8> {
    let two = extract(data, mode);
    let one = extract_single_pass(data, mode);
    assert_eq!(two, one);
    two
}

#[test]
fn last_two_of_five_lines() {
    assert_eq!(both(b"a\nb\nc\nd\ne\n", Mode::LastLines(2)), b"d\ne\n".to_vec());
}

#[test]
fn last_lines_count_exceeds_total() {
    assert_eq!(both(b"a\nb\nc\n", Mode::LastLines(10)), b"a\nb\nc\n".to_vec());
}

#[test]
fn last_five_bytes_of_hello_world() {
    assert_eq!(both(b"hello world", Mode::LastBytes(5)), b"world".to_vec());
}

#[test]
fn from_third_line() {
    assert_eq!(both(b"a\nb\nc\nd\n", Mode::FromLine(3)), b"c\nd\n".to_vec());
}

#[test]
fn empty_source_gives_empty_output() {
    for n in [1u64, 5, 100] {
        assert_eq!(both(b"", Mode::LastLines(n)), Vec::<u8>::new());
        assert_eq!(both(b"", Mode::LastBytes(n)), Vec::<u8>::new());
    }
}

#[test]
fn last_zero_lines_is_empty() {
    assert_eq!(both(b"a\nb\nc", Mode::LastLines(0)), Vec::<u8>::new());
    assert_eq!(both(b"x", Mode::LastLines(0)), Vec::<u8>::new());
}

#[test]
fn last_zero_bytes_is_empty() {
    assert_eq!(both(b"abc", Mode::LastBytes(0)), Vec::<u8>::new());
}

#[test]
fn last_lines_counts_an_unterminated_fragment() {
    assert_eq!(both(b"a\nb\nc", Mode::LastLines(1)), b"c".to_vec());
    assert_eq!(both(b"a\nb\nc", Mode::LastLines(2)), b"b\nc".to_vec());
    assert_eq!(both(b"a\n\n\nb\n", Mode::LastLines(2)), b"\nb\n".to_vec());
}

#[test]
fn last_lines_min_of_count_and_total() {
    let src = b"one\ntwo\nthree\nfour\n";
    for count in 0u64..7 {
        let out = both(src, Mode::LastLines(count));
        let lines = out.iter().filter(|b| **b == b'\n').count() as u64;
        assert_eq!(lines, count.min(4));
        assert!(src.ends_with(&out));
    }
}

#[test]
fn last_bytes_min_of_count_and_total() {
    let src = b"0123456789";
    for count in 0u64..14 {
        let out = both(src, Mode::LastBytes(count));
        let n = count.min(10) as usize;
        assert_eq!(out, src[10 - n..].to_vec());
    }
}

#[test]
fn from_line_zero_and_one_are_whole_source() {
    let src = b"a\nb\nc";
    assert_eq!(both(src, Mode::FromLine(0)), src.to_vec());
    assert_eq!(both(src, Mode::FromLine(1)), src.to_vec());
    assert_eq!(both(src, Mode::FromLine(4)), Vec::<u8>::new());
    assert_eq!(both(src, Mode::FromLine(3)), b"c".to_vec());
}

#[test]
fn from_byte_zero_and_one_are_whole_source() {
    let src = b"hello";
    assert_eq!(both(src, Mode::FromByte(0)), src.to_vec());
    assert_eq!(both(src, Mode::FromByte(1)), src.to_vec());
    assert_eq!(both(src, Mode::FromByte(2)), b"ello".to_vec());
    assert_eq!(both(src, Mode::FromByte(5)), b"o".to_vec());
    assert_eq!(both(src, Mode::FromByte(6)), Vec::<u8>::new());
    assert_eq!(both(src, Mode::FromByte(100)), Vec::<u8>::new());
}

#[test]
fn rerun_gives_same_output() {
    let src = b"alpha\nbeta\ngamma\n";
    for mode in [Mode::LastLines(2), Mode::LastBytes(4), Mode::FromLine(2), Mode::FromByte(3)] {
        assert_eq!(extract(src, mode), extract(src, mode));
    }
}

#[test]
fn counter_totals_across_chunks() {
    let mut c = Counter::new();
    c.feed(b"ab\ncd");
    c.feed(b"\nef");
    assert_eq!(c.lines(), 3);
    assert_eq!(c.bytes(), 8);
    let mut d = Counter::new();
    d.feed(b"x\n\n");
    assert_eq!(d.lines(), 2);
    assert_eq!(d.bytes(), 3);
    let e = Counter::new();
    assert_eq!(e.lines(), 0);
    assert_eq!(e.bytes(), 0);
}

#[test]
fn extractor_across_chunks() {
    let mut x = Extractor::new(Plan::SkipLines(2));
    let mut out = x.feed(b"a\nb");
    out.extend(x.feed(b"b\nc\n"));
    out.extend(x.feed(b"d"));
    assert_eq!(out, b"c\nd".to_vec());
    let mut y = Extractor::new(Plan::SkipBytes(4));
    let mut out = y.feed(b"ab");
    out.extend(y.feed(b"cdef"));
    assert_eq!(out, b"ef".to_vec());
}

#[test]
fn window_across_chunks() {
    let mut w = Window::new(Unit::Lines, 2);
    w.feed(b"1\n2");
    w.feed(b"\n3\n4");
    assert_eq!(w.contents(), b"3\n4".to_vec());
    let mut v = Window::new(Unit::Bytes, 3);
    v.feed(b"ab");
    v.feed(b"cdef");
    assert_eq!(v.contents(), b"def".to_vec());
}

#[test]
fn plan_of_each_mode() {
    assert_eq!(Mode::LastLines(3).plan(10, 99), Plan::SkipLines(7));
    assert_eq!(Mode::LastLines(30).plan(10, 99), Plan::SkipLines(0));
    assert_eq!(Mode::LastBytes(9).plan(10, 99), Plan::SkipBytes(90));
    assert_eq!(Mode::FromLine(0).plan(10, 99), Plan::SkipLines(0));
    assert_eq!(Mode::FromByte(7).plan(10, 99), Plan::SkipBytes(6));
    assert!(Mode::LastBytes(1).needs_totals());
    assert!(!Mode::FromLine(1).needs_totals());
}

#[test]
fn parse_counts_and_offsets() {
    assert_eq!(parse_mode(b"10", Unit::Lines), Ok(Mode::LastLines(10)));
    assert_eq!(parse_mode(b"-3", Unit::Lines), Ok(Mode::LastLines(3)));
    assert_eq!(parse_mode(b"+3", Unit::Lines), Ok(Mode::FromLine(3)));
    assert_eq!(parse_mode(b"+0", Unit::Bytes), Ok(Mode::FromByte(0)));
    assert_eq!(parse_mode(b"7", Unit::Bytes), Ok(Mode::LastBytes(7)));
    assert_eq!(parse_mode(b"--7", Unit::Bytes), Ok(Mode::LastBytes(7)));
    assert_eq!(parse_mode(b"18446744073709551615", Unit::Bytes), Ok(Mode::LastBytes(u64::MAX)));
}

#[test]
fn parse_rejects_bad_counts() {
    let lines = Err(IllegalCount { unit: Unit::Lines });
    assert_eq!(parse_mode(b"foo", Unit::Lines), lines);
    assert_eq!(parse_mode(b"", Unit::Lines), lines);
    assert_eq!(parse_mode(b"+", Unit::Lines), lines);
    assert_eq!(parse_mode(b"++1", Unit::Lines), lines);
    assert_eq!(parse_mode(b"1.5", Unit::Lines), lines);
    assert_eq!(
        parse_mode(b"18446744073709551616", Unit::Bytes),
        Err(IllegalCount { unit: Unit::Bytes })
    );
}

#[test]
fn totals_of_whole_sources() {
    assert_eq!(count_lines_and_bytes(b""), (0, 0));
    assert_eq!(count_lines_and_bytes(b"a\nb"), (2, 3));
    assert_eq!(count_lines_and_bytes(b"a\nb\n"), (2, 4));
    assert_eq!(count_lines_and_bytes(b"\n\n"), (2, 2));
}
