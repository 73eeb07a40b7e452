use tailr::commr::{both_stdin, run, CommOptions};

fn opts(s1: bool, s2: bool, s3: bool, insensitive: bool) -> CommOptions {
    CommOptions {
        suppress_first: s1,
        suppress_second: s2,
        suppress_common: s3,
        insensitive,
        delimiter: "\t".to_string(),
    }
}

fn strings(v: &[&str]) -> Vec<String> {
    v.iter().map(|s| s.to_string()).collect()
}

#[test]
fn three_columns() {
    let a = strings(&["a", "b", "c"]);
    let b = strings(&["b", "c", "d"]);
    assert_eq!(run(&a, &b, &opts(false, false, false, false)), ["a", "\t\tb", "\t\tc", "\td"]);
}

#[test]
fn suppressed_columns() {
    let a = strings(&["a", "b", "c"]);
    let b = strings(&["b", "c", "d"]);
    assert_eq!(run(&a, &b, &opts(true, false, false, false)), ["\tb", "\tc", "d"]);
    assert_eq!(run(&a, &b, &opts(false, true, false, false)), ["a", "\tb", "\tc"]);
    assert_eq!(run(&a, &b, &opts(true, true, false, false)), ["b", "c"]);
    assert_eq!(run(&a, &b, &opts(false, false, true, false)), ["a", "\td"]);
    assert_eq!(run(&a, &b, &opts(true, true, true, false)), Vec::<String>::new());
}

#[test]
fn case_folding() {
    let a = strings(&["A", "b"]);
    let b = strings(&["a", "B"]);
    assert_eq!(run(&a, &b, &opts(false, false, false, true)), ["\t\ta", "\t\tb"]);
    assert_eq!(run(&a, &b, &opts(false, false, false, false)), ["A", "\ta", "\tB", "b"]);
}

#[test]
fn one_side_empty() {
    let a = strings(&["x", "y"]);
    let e: Vec<String> = Vec::new();
    assert_eq!(run(&a, &e, &opts(false, false, false, false)), ["x", "y"]);
    assert_eq!(run(&e, &a, &opts(false, false, false, false)), ["\tx", "\ty"]);
}

#[test]
fn stdin_twice_is_refused() {
    assert!(both_stdin("-", &None));
    assert!(both_stdin("-", &Some("-".to_string())));
    assert!(!both_stdin("-", &Some("b.txt".to_string())));
    assert!(!both_stdin("a.txt", &None));
}
