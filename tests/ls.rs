use tailr::lsr::{find_files, format_mode, DirEntryInfo, PathInfo, PathKind};

fn entries(dir: &str, names: &[&str]) -> PathKind {
    PathKind::Dir(
        names
            .iter()
            .map(|n| DirEntryInfo { name: n.to_string(), path: format!("{dir}/{n}") })
            .collect(),
    )
}

fn info(path: &str) -> PathInfo {
    let kind = match path {
        "tests/inputs" => entries(
            path,
            &["bustle.txt", ".hidden", "dir", "empty.txt", "fox.txt"],
        ),
        "tests/inputs/dir" => entries(path, &["spiders.txt"]),
        "tests/inputs/bustle.txt"
        | "tests/inputs/.hidden"
        | "tests/inputs/empty.txt"
        | "tests/inputs/fox.txt" => PathKind::File,
        _ => PathKind::Missing,
    };
    PathInfo { path: path.to_string(), kind }
}

fn listed(paths: &[String], show_hidden: bool) -> Vec<String> {
    let infos: Vec<PathInfo> = paths.iter().map(|p| info(p)).collect();
    find_files(&infos, show_hidden)
}

#[test]
fn test_find_files() {
    // Find all nonhidden entries in a directory
    let mut filenames = listed(&["tests/inputs".to_string()], false);
    filenames.sort();
    assert_eq!(
        filenames,
        [
            "tests/inputs/bustle.txt",
            "tests/inputs/dir",
            "tests/inputs/empty.txt",
            "tests/inputs/fox.txt",
        ]
    );
    // Find all entries in a directory
    let mut filenames = listed(&["tests/inputs".to_string()], true);
    filenames.sort();
    assert_eq!(
        filenames,
        [
            "tests/inputs/.hidden",
            "tests/inputs/bustle.txt",
            "tests/inputs/dir",
            "tests/inputs/empty.txt",
            "tests/inputs/fox.txt",
        ]
    );
    // Any existing file should be found even if hidden
    let filenames = listed(&["tests/inputs/.hidden".to_string()], false);
    assert_eq!(filenames, ["tests/inputs/.hidden"]);
    // Test multiple path arguments
    let mut filenames = listed(
        &[
            "tests/inputs/bustle.txt".to_string(),
            "tests/inputs/dir".to_string(),
        ],
        false,
    );
    filenames.sort();
    assert_eq!(
        filenames,
        ["tests/inputs/bustle.txt", "tests/inputs/dir/spiders.txt"]
    );
}

#[test]
fn test_find_files_hidden() {
    let mut filenames = listed(&["tests/inputs".to_string()], true);
    filenames.sort();
    assert_eq!(
        filenames,
        [
            "tests/inputs/.hidden",
            "tests/inputs/bustle.txt",
            "tests/inputs/dir",
            "tests/inputs/empty.txt",
            "tests/inputs/fox.txt",
        ]
    );
}

#[test]
fn missing_paths_add_nothing() {
    let filenames = listed(&["no/such/path".to_string(), "tests/inputs/fox.txt".to_string()], false);
    assert_eq!(filenames, ["tests/inputs/fox.txt"]);
}

#[test]
fn test_format_mode() {
    assert_eq!(format_mode(0o755), "rwxr-xr-x");
    assert_eq!(format_mode(0o421), "r---w---x");
}

#[test]
fn format_mode_extremes() {
    assert_eq!(format_mode(0), "---------");
    assert_eq!(format_mode(0o777), "rwxrwxrwx");
    assert_eq!(format_mode(0o100644), "rw-r--r--");
}
