use tailr::cutr::{
    parse_range, parse_ranges, process_ranges, select_bytes, select_chars, select_fields, RangeError,
};

#[test]
fn single_and_double_ranges() {
    assert_eq!(parse_range("3"), Ok(3..4));
    assert_eq!(parse_range("1-3"), Ok(1..4));
    assert_eq!(parse_range("+2"), Ok(2..3));
    assert_eq!(parse_range("0"), Ok(0..1));
}

#[test]
fn range_errors() {
    assert_eq!(parse_range(""), Err(RangeError::Empty));
    assert_eq!(parse_range("a"), Err(RangeError::InvalidDigit));
    assert_eq!(parse_range("+"), Err(RangeError::InvalidDigit));
    assert_eq!(parse_range("1-"), Err(RangeError::Empty));
    assert_eq!(parse_range("x-1"), Err(RangeError::InvalidDigit));
    assert_eq!(parse_range("1-2-3"), Err(RangeError::NotEnoughValues));
    assert_eq!(parse_range("99999999999999999999"), Err(RangeError::TooLarge));
    assert_eq!(RangeError::NotEnoughValues.describe(), "not enough values");
    assert_eq!(RangeError::InvalidDigit.describe(), "invalid digit found in string");
}

#[test]
fn list_of_ranges() {
    let ok = parse_ranges(&["1".to_string(), "3-5".to_string()]).unwrap();
    assert_eq!(ok, vec![1..2, 3..6]);
    let err = parse_ranges(&["1".to_string(), "b".to_string(), "c".to_string()]).unwrap_err();
    assert_eq!(err.value, "b");
    assert_eq!(err.error, RangeError::InvalidDigit);
}

#[test]
fn spans_of_ranges() {
    // "abcdef" with -c 1,3-4 selects a and cd
    assert_eq!(process_ranges(6, &[1..2, 3..5]), vec![0..1, 2..4]);
    // a range that ends before the current position is passed over
    assert_eq!(process_ranges(6, &[3..5, 1..2, 6..7]), vec![2..4, 5..6]);
    // a range past the end ends the list
    assert_eq!(process_ranges(3, &[2..3, 5..9, 1..2]), vec![1..2]);
    // overlapping ranges continue from where the last one stopped
    assert_eq!(process_ranges(10, &[1..4, 2..6]), vec![0..3, 3..5]);
    // a range that runs past the end is cut short
    assert_eq!(process_ranges(4, &[3..10]), vec![2..4]);
    assert_eq!(process_ranges(0, &[1..2]), Vec::<std::ops::Range<usize>>::new());
}

#[test]
fn select_from_a_line() {
    assert_eq!(select_bytes(b"abcdef", &[1..2, 3..5]), vec![b"a".to_vec(), b"cd".to_vec()]);
    assert_eq!(select_chars("ébcdef", &[1..2, 3..5]), "écd");
    let fields: Vec<String> = ["x", "y", "z", "w"].iter().map(|s| s.to_string()).collect();
    assert_eq!(select_fields(&fields, &[1..3, 4..5], ","), "x,y,w");
    assert_eq!(select_fields(&fields, &[9..10], ","), "");
}
