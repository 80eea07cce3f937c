use pacrid::config::Config;
use pacrid::pacman::db::PacmanDb;
use pacrid::scanners::xdg_db::{categorize, locations_for_package, lookup_xdg_entry, process_path, XdgDbScanner, XdgEntry};
use pacrid::scanners::{Category, Confidence, Reason, ScanContext};

fn steam() -> XdgEntry {
    XdgEntry {
        name: "steam".to_owned(),
        executables: vec!["steam".to_owned()],
        locations: vec![
            "$HOME/.steam".to_owned(),
            "$HOME/.steampath".to_owned(),
            "$XDG_DATA_HOME/Steam".to_owned(),
        ],
    }
}

fn ctx(packages: &[&str]) -> ScanContext {
    ScanContext {
        removed_packages: packages.iter().map(|p| p.to_string()).collect(),
        pacman_db: PacmanDb::default(),
        config: Config::default(),
        home_dir: "/home/u".to_owned(),
    }
}

#[test]
fn lookup_by_lowercase_then_without_suffix() {
    let db = vec![steam()];
    assert_eq!(lookup_xdg_entry("steam", &db), Some(0));
    assert_eq!(lookup_xdg_entry("Steam", &db), Some(0));
    assert_eq!(lookup_xdg_entry("steam-bin", &db), Some(0));
    assert_eq!(lookup_xdg_entry("discord", &db), None);
}

#[test]
fn categories_by_location() {
    let h = "/home/u";
    assert_eq!(categorize("/home/u/.config/x", h), Category::Config);
    assert_eq!(categorize("/etc/x", h), Category::Config);
    assert_eq!(categorize("/home/u/.cache/x", h), Category::Cache);
    assert_eq!(categorize("/usr/share/x", h), Category::Data);
    assert_eq!(categorize("/var/lib/x", h), Category::State);
    assert_eq!(categorize("/var/spool/x", h), Category::SystemOrphan);
    assert_eq!(categorize("/home/u/.steam", h), Category::Data);
}

#[test]
fn locations_expand_against_home() {
    let db = vec![steam()];
    let c = ctx(&["steam"]);
    let (i, paths) = locations_for_package("steam", &c, &db, true).unwrap();
    assert_eq!(i, 0);
    assert_eq!(
        paths,
        vec!["/home/u/.steam".to_owned(), "/home/u/.steampath".to_owned(), "/home/u/.local/share/Steam".to_owned()]
    );
    assert!(locations_for_package("steam", &c, &db, false).is_none());
}

#[test]
fn database_finding_is_high_when_exe_gone() {
    let cfg = Config::default();
    let f = process_path("/home/u/.steam", "steam", &["steam".to_owned()], true, &cfg, "/home/u", true, 100).unwrap();
    assert_eq!(f.confidence, Confidence::High);
    assert_eq!(f.reasons, vec![Reason::InXdgDatabase, Reason::ExecutableGone("steam".to_owned())]);
    assert_eq!(f.category, Category::Data);
    assert!(process_path("/home/u/.steam", "steam", &["steam".to_owned()], true, &cfg, "/home/u", false, 100).is_none());
    let f = process_path("/home/u/.steam", "steam", &["steam".to_owned()], false, &cfg, "/home/u", true, 100).unwrap();
    assert_eq!(f.confidence, Confidence::Medium);
}

#[test]
fn scan_uses_the_plan() {
    let scanner = XdgDbScanner;
    assert_eq!(scanner.name(), "xdg_db");
    let db = vec![XdgEntry {
        name: "__pacrid_no_such_exe__".to_owned(),
        executables: vec!["__pacrid_no_such_exe__".to_owned()],
        locations: vec!["$HOME/.nosuch".to_owned(), "$XDG_CONFIG_HOME/nosuch".to_owned()],
    }];
    let c = ctx(&["__pacrid_no_such_exe__", "other"]);
    let plan = scanner.plan(&c, &db);
    assert_eq!(plan.len(), 2);
    assert!(plan[1].found.is_none());
    let seen = vec![vec![(true, 5), (false, 0)], vec![]];
    let findings = scanner.findings(&c, &db, &plan, &seen);
    assert_eq!(findings.len(), 1);
    assert_eq!(findings[0].path, "/home/u/.nosuch");
    assert_eq!(findings[0].confidence, Confidence::High);
}
