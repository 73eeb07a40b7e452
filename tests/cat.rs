use tailr::catr::{print_line, Counter};

#[test]
fn numbers_every_line() {
    let mut c = Counter::from_flags(true, true);
    assert_eq!(print_line("one", &mut c), "     1\tone");
    assert_eq!(print_line("", &mut c), "     2\t");
    assert_eq!(c, Counter::All { count: 3 });
}

#[test]
fn numbers_nonblank_lines() {
    let mut c = Counter::from_flags(false, true);
    assert_eq!(print_line("one", &mut c), "     1\tone");
    assert_eq!(print_line("", &mut c), "");
    assert_eq!(print_line("two", &mut c), "     2\ttwo");
    assert_eq!(c, Counter::NonBlank { count: 3 });
}

#[test]
fn no_numbers() {
    let mut c = Counter::from_flags(false, false);
    assert_eq!(print_line("plain", &mut c), "plain");
    assert_eq!(c, Counter::Off);
    let mut big = Counter::All { count: 1234567 };
    assert_eq!(print_line("x", &mut big), "1234567\tx");
}
