use pacrid::pacman::db::{normalize_path, parse_files_into, PacmanDb};
use pacrid::pacman::owns::is_owned;
use pacrid::pacman::query::{is_shell_safe, query_lines};

fn fixture(files: &[&str]) -> String {
    let mut content = "%FILES%\n".to_owned();
    for f in files {
        content.push_str(f);
        content.push('\n');
    }
    content
}

#[test]
fn parses_fixture_correctly() {
    let db = PacmanDb::from_files_contents(&[fixture(&["usr/bin/steam", "usr/lib/steam/steam.so"])]);
    assert!(db.owns("/usr/bin/steam"));
    assert!(db.owns("/usr/lib/steam/steam.so"));
    assert!(!db.owns("/usr/bin/nonexistent"));
}

#[test]
fn ignores_non_files_sections() {
    let content = "%DESC%\nA package\n\n%FILES%\nusr/bin/tool\n\n%DEPENDS%\nglibc\n".to_owned();
    let db = PacmanDb::from_files_contents(&[content]);
    assert!(db.owns("/usr/bin/tool"));
    assert!(!db.owns("/glibc"));
}

#[test]
fn parse_into_adds_to_existing_db() {
    let mut db = PacmanDb::default();
    assert_eq!(db.package_count(), 0);
    parse_files_into("%FILES%\r\nusr/bin/a\r\n  usr/share/a/  \n", &mut db);
    parse_files_into("%FILES%\nusr/bin/b\nusr/bin/a\n", &mut db);
    assert!(db.owns("/usr/bin/a"));
    assert!(db.owns("/usr/bin/b"));
    assert!(db.owns("/usr/share/a"));
    assert_eq!(db.package_count(), 3);
}

#[test]
fn ownership_compares_as_paths() {
    let db = PacmanDb::from_files_contents(&[fixture(&["usr/bin/steam"])]);
    assert!(is_owned("/usr/bin/steam/", &db));
    assert!(is_owned("//usr/./bin/steam", &db));
    assert!(!is_owned("/usr/bin", &db));
    assert_eq!(normalize_path("/usr//bin/./steam/"), "/usr/bin/steam");
}

#[test]
fn query_output_lines() {
    assert_eq!(query_lines("a\n\nb\r\n"), vec!["a".to_owned(), "b".to_owned()]);
    assert!(query_lines("").is_empty());
}

#[test]
fn shell_safe_names() {
    assert!(is_shell_safe("steam"));
    assert!(!is_shell_safe("a;b"));
    assert!(!is_shell_safe("a&b"));
    assert!(!is_shell_safe("a|b"));
}
