use pacrid::config::AutoConfirmLevel;
use pacrid::review::collapse::{collapse_candidates, collapse_to_dirs, fully_orphaned_dirs};
use pacrid::review::{
    auto_select, format_finding, format_reasons, group_by_package, interactive_review, package_review,
    selected_paths, should_default_checked, sort_for_review, ReviewStep,
};
use pacrid::scanners::{Category, Confidence, Finding, Reason};

fn make_finding(path: &str, size: u64) -> Finding {
    Finding {
        path: path.to_owned(),
        size_bytes: size,
        package: String::new(),
        confidence: Confidence::Low,
        reasons: vec![Reason::PacmanOrphan],
        category: Category::SystemOrphan,
        file_count: 0,
    }
}

fn finding(path: &str, size: u64, package: &str, confidence: Confidence) -> Finding {
    Finding {
        path: path.to_owned(),
        size_bytes: size,
        package: package.to_owned(),
        confidence,
        reasons: vec![Reason::ExactNameMatch, Reason::ExecutableGone(package.to_owned())],
        category: Category::Config,
        file_count: 0,
    }
}

#[test]
fn single_finding_not_collapsed() {
    let findings = vec![make_finding("/usr/lib/node_modules/foo/index.js", 100)];
    let result = collapse_to_dirs(findings.clone(), &[]);
    assert_eq!(result.len(), 1);
    assert_eq!(result[0].path, findings[0].path);
}

#[test]
fn collapses_listed_orphan_dir() {
    let findings = vec![
        make_finding("/tmp/x/a/b/c/d/file1.txt", 1),
        make_finding("/tmp/x/a/b/c/d/file2.txt", 2),
    ];
    let dirs = vec!["/tmp/x/a/b/c/d".to_owned(), "/tmp/x/a/b".to_owned()];
    let result = collapse_to_dirs(findings, &dirs);
    assert_eq!(result.len(), 1);
    assert_eq!(result[0].path, "/tmp/x/a/b");
    assert_eq!(result[0].size_bytes, 3);
    assert_eq!(result[0].file_count, 2);
}

#[test]
fn does_not_collapse_unlisted_dir() {
    let findings = vec![make_finding("/tmp/x/a/b/c/d/orphan.txt", 1), make_finding("/tmp/y/z.txt", 4)];
    let result = collapse_to_dirs(findings, &[]);
    assert_eq!(result.len(), 2);
    assert!(result.iter().all(|f| f.file_count == 0));
}

#[test]
fn never_collapses_into_shallow_dir() {
    let findings = vec![make_finding("/usr/lib/a.so", 1), make_finding("/usr/lib/b.so", 1)];
    let result = collapse_to_dirs(findings, &["/usr/lib".to_owned(), "/usr".to_owned()]);
    assert_eq!(result.len(), 2);
}

#[test]
fn collapse_keeps_lowest_confidence_and_first_package() {
    let mut a = finding("/home/u/.local/share/app/x", 5, "app", Confidence::High);
    a.category = Category::Data;
    let b = finding("/home/u/.local/share/app/y", 6, "other", Confidence::Medium);
    let result = collapse_to_dirs(vec![a, b], &["/home/u/.local/share/app".to_owned()]);
    assert_eq!(result.len(), 1);
    assert_eq!(result[0].confidence, Confidence::Medium);
    assert_eq!(result[0].package, "app");
    assert_eq!(result[0].category, Category::Data);
    assert_eq!(result[0].size_bytes, 11);
}

#[test]
fn review_order_is_confidence_then_size() {
    let v = vec![
        finding("/a", 1, "p", Confidence::Low),
        finding("/b", 5, "p", Confidence::High),
        finding("/c", 9, "p", Confidence::High),
        finding("/d", 3, "p", Confidence::Medium),
        finding("/e", 5, "p", Confidence::High),
    ];
    let sorted = sort_for_review(v);
    let paths: Vec<&str> = sorted.iter().map(|f| f.path.as_str()).collect();
    assert_eq!(paths, vec!["/c", "/b", "/e", "/d", "/a"]);
}

#[test]
fn default_selection_by_level() {
    assert!(should_default_checked(Confidence::High, &AutoConfirmLevel::High));
    assert!(!should_default_checked(Confidence::Medium, &AutoConfirmLevel::High));
    assert!(should_default_checked(Confidence::Medium, &AutoConfirmLevel::Medium));
    assert!(!should_default_checked(Confidence::Low, &AutoConfirmLevel::Medium));
    assert!(should_default_checked(Confidence::Low, &AutoConfirmLevel::Low));
    assert!(!should_default_checked(Confidence::High, &AutoConfirmLevel::Never));
}

#[test]
fn auto_select_keeps_order() {
    let v = vec![
        finding("/a", 1, "p", Confidence::High),
        finding("/b", 1, "p", Confidence::Low),
        finding("/c", 1, "p", Confidence::Medium),
    ];
    assert_eq!(auto_select(&v, &AutoConfirmLevel::Medium), vec!["/a".to_owned(), "/c".to_owned()]);
    assert!(auto_select(&v, &AutoConfirmLevel::Never).is_empty());
}

#[test]
fn groups_follow_first_appearance() {
    let v = vec![
        finding("/a", 1, "zeta", Confidence::High),
        finding("/b", 1, "alpha", Confidence::High),
        finding("/c", 1, "zeta", Confidence::Low),
    ];
    let g = group_by_package(&v);
    assert_eq!(g.len(), 2);
    assert_eq!(g[0].package, "zeta");
    assert_eq!(g[0].findings.len(), 2);
    assert_eq!(g[0].findings[1].path, "/c");
    assert_eq!(g[1].package, "alpha");
}

#[test]
fn reasons_and_labels() {
    assert_eq!(
        format_reasons(&[Reason::InXdgDatabase, Reason::ExecutableGone("x".to_owned())]),
        "xdg_db + exe_gone"
    );
    assert_eq!(format_reasons(&[]), "");
    let f = finding("/home/u/.config/app", 512, "app", Confidence::High);
    assert_eq!(
        format_finding(&f),
        "\x1b[32mHigh  \x1b[0m  /home/u/.config/app (\x1b[36m512 B\x1b[0m)  \x1b[2m[name_match + exe_gone]\x1b[0m"
    );
    let mut c = finding("/home/u/.config/app", 2048, "app", Confidence::Low);
    c.file_count = 3;
    assert_eq!(
        format_finding(&c),
        "\x1b[31mLow   \x1b[0m  /home/u/.config/app/ (\x1b[36m2 KiB, 3 files\x1b[0m)  \x1b[2m[name_match + exe_gone]\x1b[0m"
    );
}

#[test]
fn package_review_preselects_by_level() {
    let v = vec![
        finding("/a", 10, "p", Confidence::High),
        finding("/b", 20, "p", Confidence::Low),
        finding("/c", 30, "p", Confidence::High),
    ];
    let g = group_by_package(&v).remove(0);
    let r = package_review(g, &AutoConfirmLevel::High);
    assert_eq!(r.default_indices, vec![0, 2]);
    assert_eq!(r.preselected_bytes, 40);
    assert_eq!(r.labels.len(), 3);
}

#[test]
fn non_interactive_review_selects_without_asking() {
    let v = vec![
        finding("/a", 10, "p", Confidence::Medium),
        finding("/b", 20, "q", Confidence::High),
    ];
    match interactive_review(v, &[], &AutoConfirmLevel::High, true, true) {
        ReviewStep::Selected(paths) => assert_eq!(paths, vec!["/b".to_owned()]),
        ReviewStep::Ask(_) => panic!("must not ask when non-interactive"),
    }
}

#[test]
fn interactive_review_asks_per_package_in_review_order() {
    let v = vec![
        finding("/a", 10, "p", Confidence::Medium),
        finding("/b", 20, "q", Confidence::High),
        finding("/c", 5, "p", Confidence::High),
    ];
    match interactive_review(v, &[], &AutoConfirmLevel::High, false, true) {
        ReviewStep::Ask(reviews) => {
            assert_eq!(reviews.len(), 2);
            assert_eq!(reviews[0].group.package, "q");
            assert_eq!(reviews[1].group.package, "p");
            assert_eq!(reviews[1].group.findings[0].path, "/c");
            assert_eq!(reviews[1].default_indices, vec![0]);
        }
        ReviewStep::Selected(_) => panic!("a terminal is there to ask"),
    }
    let w = vec![finding("/a", 10, "p", Confidence::Medium)];
    assert!(matches!(interactive_review(w, &[], &AutoConfirmLevel::High, false, false), ReviewStep::Selected(_)));
}

#[test]
fn picked_positions_map_to_paths() {
    let v = vec![finding("/a", 1, "p", Confidence::High), finding("/b", 1, "p", Confidence::High)];
    assert_eq!(selected_paths(&v, &[1, 7, 0]), vec!["/b".to_owned(), "/a".to_owned()]);
}

#[test]
fn candidates_are_deep_ancestors_deepest_first() {
    let findings = vec![make_finding("/tmp/x/a/b/c/d/file1.txt", 1), make_finding("/tmp/x/a/b/c/d/file2.txt", 1)];
    let c = collapse_candidates(&findings);
    assert_eq!(c, vec!["/tmp/x/a/b/c/d".to_owned(), "/tmp/x/a/b/c".to_owned(), "/tmp/x/a/b".to_owned()]);
    assert!(collapse_candidates(&[make_finding("/usr/lib/a.so", 1)]).is_empty());
}

#[test]
fn collapses_fully_orphaned_dir() {
    let f1 = "/tmp/x/a/b/c/d/file1.txt";
    let f2 = "/tmp/x/a/b/c/d/file2.txt";
    let findings = vec![make_finding(f1, 1), make_finding(f2, 1)];
    let cands = collapse_candidates(&findings);
    // What the filesystem lists under each candidate, deepest first.
    let listings = vec![
        Some(vec![(f1.to_owned(), false), (f2.to_owned(), false)]),
        Some(vec![("/tmp/x/a/b/c/d".to_owned(), true)]),
        Some(vec![("/tmp/x/a/b/c".to_owned(), true)]),
    ];
    let dirs = fully_orphaned_dirs(&cands, &listings, &findings);
    assert_eq!(dirs.len(), 3);
    let result = collapse_to_dirs(findings, &dirs);
    assert_eq!(result.len(), 1, "expected exactly one collapsed entry");
    assert_eq!(result[0].path, "/tmp/x/a/b");
    assert_eq!(result[0].size_bytes, 2);
}

#[test]
fn does_not_collapse_dir_with_non_orphan_file() {
    let f1 = "/tmp/x/a/b/c/d/orphan.txt";
    let findings = vec![make_finding(f1, 1)];
    let cands = collapse_candidates(&findings);
    let listings = vec![
        Some(vec![(f1.to_owned(), false), ("/tmp/x/a/b/c/d/owned.txt".to_owned(), false)]),
        Some(vec![("/tmp/x/a/b/c/d".to_owned(), true)]),
        None,
    ];
    let dirs = fully_orphaned_dirs(&cands, &listings, &findings);
    assert!(dirs.is_empty());
    let result = collapse_to_dirs(findings, &dirs);
    assert!(result.iter().all(|f| f.path != "/tmp/x/a/b/c/d"));
    assert_eq!(result.len(), 1);
}

#[test]
fn review_order_keeps_total_bytes() {
    let fs = vec![
        finding("/a", 5, "p", Confidence::Low),
        finding("/b", 700, "q", Confidence::High),
        finding("/c", 42, "p", Confidence::Medium),
    ];
    let before: u64 = fs.iter().map(|f| f.size_bytes).sum();
    let sorted = sort_for_review(fs);
    let after: u64 = sorted.iter().map(|f| f.size_bytes).sum();
    assert_eq!(before, after);
    assert_eq!(after, 747);
}
