use tailr::wcr::{count, format_error, format_info, get_width, Columns, FileInfo};

#[test]
fn test_count() {
    let text = "I don't want the world. I just want your half.\r\n";
    let info = count(&Some("filename"), text);
    let expected = FileInfo {
        name: Some(String::from("filename")),
        num_lines: 1,
        num_words: 10,
        num_chars: 48,
        num_bytes: 48,
    };
    assert_eq!(info, expected);
}

#[test]
fn count_multibyte_and_fragments() {
    let info = count(&None, "héllo  wörld\nlast");
    assert_eq!(info.name, None);
    assert_eq!(info.num_lines, 2);
    assert_eq!(info.num_words, 3);
    assert_eq!(info.num_chars, 17);
    assert_eq!(info.num_bytes, 19);
    let empty = count(&None, "");
    assert_eq!((empty.num_lines, empty.num_words, empty.num_bytes), (0, 0, 0));
    let spaced = count(&None, "a\u{3000}b\u{a0}c\n\n");
    assert_eq!(spaced.num_words, 3);
    assert_eq!(spaced.num_lines, 2);
}

#[test]
fn totals_add_up() {
    let mut total = FileInfo::new(&Some("total"));
    total.add_assign(&count(&None, "a b\n"));
    total.add_assign(&count(&None, "c\nd\n"));
    assert_eq!(total.name, Some(String::from("total")));
    assert_eq!((total.num_lines, total.num_words, total.num_bytes, total.num_chars), (3, 4, 8, 8));
}

#[test]
fn column_width() {
    let all = Columns { lines: false, words: false, bytes: false, chars: false }.resolve();
    assert_eq!(all, Columns { lines: true, words: true, bytes: true, chars: false });
    let mut info = FileInfo::new(&None);
    info.num_bytes = 12345;
    assert_eq!(get_width(&info, &all), 5);
    info.num_bytes = 9;
    assert_eq!(get_width(&info, &all), 1);
    info.num_bytes = 10;
    assert_eq!(get_width(&info, &all), 2);
    let one = Columns { lines: true, words: false, bytes: false, chars: false };
    assert_eq!(one.resolve(), one);
    info.num_bytes = 12345;
    assert_eq!(get_width(&info, &one), 1);
}

#[test]
fn report_rows() {
    let info = count(&Some("fox.txt"), "The quick brown fox\n");
    let all = Columns { lines: true, words: true, bytes: true, chars: false };
    assert_eq!(format_info(&info, &all, 2), " 1  4 20 fox.txt");
    let chars = Columns { lines: false, words: false, bytes: false, chars: true };
    assert_eq!(format_info(&count(&None, "ab"), &chars, 1), "2");
    assert_eq!(format_error(&Some("x.txt"), "gone"), "wcr: x.txt: gone");
    assert_eq!(format_error(&None, "gone"), "wcr: gone");
}
