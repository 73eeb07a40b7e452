use tailr::findr::{resolve_types, run, EntryType, FoundEntry};
use tailr::grepr::find_lines;
use tailr::pattern::Pattern;

fn entry(path: &str, kind: char) -> FoundEntry {
    FoundEntry {
        path: path.to_string(),
        file_name: path.rsplit('/').next().unwrap().to_string(),
        is_dir: kind == 'd',
        is_file: kind == 'f',
        is_symlink: kind == 'l',
    }
}

fn walk() -> Vec<FoundEntry> {
    vec![
        entry("tests/inputs", 'd'),
        entry("tests/inputs/a", 'd'),
        entry("tests/inputs/a/a.txt", 'f'),
        entry("tests/inputs/a/b", 'd'),
        entry("tests/inputs/a/b/b.csv", 'f'),
        entry("tests/inputs/d/b.csv", 'l'),
        entry("tests/inputs/f/f.txt", 'f'),
    ]
}

#[test]
fn all_types_by_default() {
    let types = resolve_types(vec![]);
    assert_eq!(types, vec![EntryType::Dir, EntryType::File, EntryType::Link]);
    assert_eq!(run(&walk(), &[], &types).len(), 7);
    assert_eq!(resolve_types(vec![EntryType::Link]), vec![EntryType::Link]);
}

#[test]
fn by_type() {
    let files = run(&walk(), &[], &[EntryType::File]);
    assert_eq!(files, ["tests/inputs/a/a.txt", "tests/inputs/a/b/b.csv", "tests/inputs/f/f.txt"]);
    let links = run(&walk(), &[], &[EntryType::Link]);
    assert_eq!(links, ["tests/inputs/d/b.csv"]);
    assert_eq!(EntryType::Dir.letter(), "d");
}

#[test]
fn by_name_and_type() {
    let csv = Pattern::new("\\.csv$", false).unwrap();
    let txt = Pattern::new("\\.txt$", false).unwrap();
    let found = run(&walk(), &[csv], &[EntryType::File, EntryType::Link]);
    assert_eq!(found, ["tests/inputs/a/b/b.csv", "tests/inputs/d/b.csv"]);
    let csv = Pattern::new("\\.csv$", false).unwrap();
    let either = run(&walk(), &[csv, txt], &[EntryType::File]);
    assert_eq!(either.len(), 3);
    assert!(Pattern::new("(", false).is_none());
}

#[test]
fn grep_selects_lines() {
    let lines: Vec<String> = ["The fox", "a dog", "FOX!"].iter().map(|s| s.to_string()).collect();
    let p = Pattern::new("fox", false).unwrap();
    assert_eq!(find_lines(&lines, &p, false), ["The fox"]);
    assert_eq!(find_lines(&lines, &p, true), ["a dog", "FOX!"]);
    let pi = Pattern::new("fox", true).unwrap();
    assert_eq!(find_lines(&lines, &pi, false), ["The fox", "FOX!"]);
    assert!(pi.is_match("a Fox"));
}
