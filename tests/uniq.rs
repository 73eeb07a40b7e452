use tailr::uniqr::{write_lines, write_to_output};

fn strings(v: &[&str]) -> Vec<String> {
    v.iter().map(|s| s.to_string()).collect()
}

#[test]
fn collapses_adjacent_runs() {
    let lines = strings(&["a", "a", "b", "a", "c", "c", "c"]);
    assert_eq!(write_lines(&lines, false), ["a", "b", "a", "c"]);
    assert_eq!(
        write_lines(&lines, true),
        ["      2 a", "      1 b", "      1 a", "      3 c"]
    );
}

#[test]
fn final_empty_run_is_dropped() {
    let lines = strings(&["x", "", ""]);
    assert_eq!(write_lines(&lines, true), ["      1 x"]);
    let inner = strings(&["", "", "y"]);
    assert_eq!(write_lines(&inner, true), ["      2 ", "      1 y"]);
    assert_eq!(write_lines(&[], false), Vec::<String>::new());
}

#[test]
fn count_column_is_seven_wide() {
    assert_eq!(write_to_output("hi", true, 12), "     12 hi");
    assert_eq!(write_to_output("hi", true, 12345678), "12345678 hi");
    assert_eq!(write_to_output("hi", false, 12), "hi");
}
