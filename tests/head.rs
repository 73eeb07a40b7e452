use tailr::headr::{head_bytes, head_lines, HeadMode};

#[test]
fn first_lines() {
    let lines: Vec<String> = ["a", "b", "c"].iter().map(|s| s.to_string()).collect();
    assert_eq!(head_lines(&lines, 2), ["a", "b"]);
    assert_eq!(head_lines(&lines, 10), ["a", "b", "c"]);
    assert_eq!(head_lines(&lines, 0), Vec::<String>::new());
}

#[test]
fn first_bytes() {
    assert_eq!(head_bytes(b"hello", 3), b"hel".to_vec());
    assert_eq!(head_bytes(b"hi", 3), b"hi".to_vec());
}

#[test]
fn head_mode_from_options() {
    assert_eq!(HeadMode::from_options(Some(4), 10), HeadMode::Bytes(4));
    assert_eq!(HeadMode::from_options(None, 10), HeadMode::Lines(10));
}
