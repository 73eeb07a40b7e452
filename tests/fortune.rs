use std::path::Path;

use tailr::fortuner::{
    find_files, is_not_dat, matching_fortunes, pick_fortune, read_fortunes, Fortune, FortuneFile,
    Walk, WalkEntry,
};
use tailr::pattern::Pattern;

fn file(path: &str) -> WalkEntry {
    WalkEntry { path: path.to_string(), is_file: true }
}

/// What a walk of each path of the test tree meets.
fn walk(root: &str) -> Walk {
    let entries = match root {
        "./tests/inputs" => {
            let mut es = vec![WalkEntry { path: root.to_string(), is_file: false }];
            for name in [
                "quotes", "jokes.dat", "ascii-art", "literature", "empty.dat", "jokes",
                "quotes.dat", "empty", "ascii-art.dat", "literature.dat",
            ] {
                es.push(file(&format!("{root}/{name}")));
            }
            Ok(es)
        }
        "./tests/inputs/jokes" | "./tests/inputs/ascii-art" => Ok(vec![file(root)]),
        _ => Err("No such file or directory (os error 2)".to_string()),
    };
    Walk { root: root.to_string(), entries }
}

fn find(paths: &[String]) -> Result<Vec<String>, tailr::fortuner::WalkError> {
    let walks: Vec<Walk> = paths.iter().map(|p| walk(p)).collect();
    find_files(&walks)
}

fn name(p: &str) -> String {
    Path::new(p).file_name().unwrap().to_string_lossy().to_string()
}

#[test]
fn lib_test_find_files() {
    // Verify that the function finds a file known to exist
    let res = find(&["./tests/inputs/jokes".to_string()]);
    assert!(res.is_ok());
    let files = res.unwrap();
    assert_eq!(files.len(), 1);
    assert_eq!(files.get(0).unwrap(), "./tests/inputs/jokes");
    // Fails to find a bad file
    let res = find(&["/path/does/not/exist".to_string()]);
    assert!(res.is_err());
    // Finds all the input files, excludes ".dat"
    let res = find(&["./tests/inputs".to_string()]);
    assert!(res.is_ok());
    // Check number and order of files
    let files = res.unwrap();
    assert_eq!(files.len(), 5);
    let first = files.get(0).unwrap();
    assert!(first.contains("ascii-art"));
    let last = files.last().unwrap();
    assert!(last.contains("quotes"));
    // Test for multiple sources, path must be unique and sorted
    let res = find(&[
        "./tests/inputs/jokes".to_string(),
        "./tests/inputs/ascii-art".to_string(),
        "./tests/inputs/jokes".to_string(),
    ]);
    assert!(res.is_ok());
    let files = res.unwrap();
    assert_eq!(files.len(), 2);
    assert_eq!(name(files.first().unwrap()), "ascii-art".to_string());
    assert_eq!(name(files.last().unwrap()), "jokes".to_string());
}

const JOKES: &str = "Q. What do you call a head of lettuce in a shirt and tie?
A. Collared greens.
%
Q: Why did the gardener quit his job?
A: His celery wasn't high enough.
%
Q. Why did the honeydew couple get married in a church?
A. Their parents told them they cantaloupe.
%
Q: What do you call a cow with no legs?
A: Ground beef.
%
Q: Why did the picture go to jail?
A: Because it was framed.
%
Q: What do you call a deer wearing an eye patch?
A: A bad idea (bad-eye deer).
%
";

const QUOTES: &str = "You can observe a lot just by watching.
-- Yogi Berra
%
It is not down on any map; true places never are.
-- Herman Melville
%
Neckties strangle clear thinking.
-- Lin Yutang
%
The world is a book.
-- Saint Augustine
%
Assumption is the mother of all screw-ups.
%
";

#[test]
fn test_read_fortunes() {
    let jokes = FortuneFile { path: "./tests/inputs/jokes".to_string(), contents: JOKES.to_string() };
    let quotes =
        FortuneFile { path: "./tests/inputs/quotes".to_string(), contents: QUOTES.to_string() };
    // One input file
    let fortunes = read_fortunes(&[jokes]);
    // Correct number and sorting
    assert_eq!(fortunes.len(), 6);
    assert_eq!(
        fortunes.first().unwrap().text,
        "Q. What do you call a head of lettuce in a shirt and tie?\n\
         A. Collared greens."
    );
    assert_eq!(
        fortunes.last().unwrap().text,
        "Q: What do you call a deer wearing an eye patch?\n\
         A: A bad idea (bad-eye deer)."
    );
    assert_eq!(fortunes[0].source, "jokes");
    // Multiple input files
    let jokes = FortuneFile { path: "./tests/inputs/jokes".to_string(), contents: JOKES.to_string() };
    assert_eq!(read_fortunes(&[jokes, quotes]).len(), 11);
}

#[test]
fn test_pick_fortune() {
    // Create a slice of fortunes
    let fortunes = &[
        Fortune {
            source: "fortunes".to_string(),
            text: "You cannot achieve the impossible without \
    attempting the absurd."
                .to_string(),
        },
        Fortune {
            source: "fortunes".to_string(),
            text: "Assumption is the mother of all screw-ups.".to_string(),
        },
        Fortune {
            source: "fortunes".to_string(),
            text: "Neckties strangle clear thinking.".to_string(),
        },
    ];
    // Pick a fortune with a seed
    assert_eq!(
        pick_fortune(fortunes, &Some(1)).unwrap(),
        "Neckties strangle clear thinking.".to_string()
    );
}

#[test]
fn pick_without_seed_and_from_nothing() {
    let fortunes = [Fortune::new("a/b", " one "), Fortune::new("a/b", "two")];
    let picked = pick_fortune(&fortunes, &None).unwrap();
    assert!(picked == "one" || picked == "two");
    assert_eq!(pick_fortune(&[], &Some(3)), None);
}

#[test]
fn fortune_fields_and_data_files() {
    let f = Fortune::new("./tests/inputs/quotes", "\n\t A quote. \u{a0}\n");
    assert_eq!(f.source, "quotes");
    assert_eq!(f.text, "A quote.");
    assert!(!is_not_dat("./x/jokes.dat"));
    assert!(is_not_dat("./x/jokes"));
    assert!(is_not_dat("./x/.dat"));
    assert!(is_not_dat("dat"));
    assert!(!is_not_dat("a.dat"));
}

#[test]
fn blank_pieces_are_skipped() {
    let file = FortuneFile { path: "f".to_string(), contents: "%\n%  \n%x\n%%y".to_string() };
    let texts: Vec<String> = read_fortunes(&[file]).into_iter().map(|f| f.text).collect();
    assert_eq!(texts, ["x", "y"]);
}

#[test]
fn fortunes_matching_a_pattern() {
    let quotes = FortuneFile { path: "q".to_string(), contents: QUOTES.to_string() };
    let fortunes = read_fortunes(&[quotes]);
    let p = Pattern::new("yogi", true).unwrap();
    assert_eq!(matching_fortunes(&fortunes, &p), vec![0]);
    let q = Pattern::new("--", false).unwrap();
    assert_eq!(matching_fortunes(&fortunes, &q), vec![0, 1, 2, 3]);
}
