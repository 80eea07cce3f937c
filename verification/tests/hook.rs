use pacrid::executor::ExecutionResult;
use pacrid::hook::{dedup_by_path, hook_skips_prompt, packages_from_lines, report_outcome};
use pacrid::scanners::{Category, Confidence, Finding, Reason};

fn finding(path: &str) -> Finding {
    Finding {
        path: path.to_owned(),
        size_bytes: 1,
        package: "p".to_owned(),
        confidence: Confidence::High,
        reasons: vec![Reason::InXdgDatabase],
        category: Category::Data,
        file_count: 0,
    }
}

#[test]
fn packages_are_trimmed_non_empty_lines() {
    let lines = vec!["  steam ".to_owned(), "".to_owned(), "\tfoo".to_owned(), "   ".to_owned()];
    assert_eq!(packages_from_lines(&lines), vec!["steam".to_owned(), "foo".to_owned()]);
}

#[test]
fn input_is_read_up_to_the_limit() {
    let lines: Vec<String> = (0..10_005).map(|i| format!("pkg{i}")).collect();
    let packages = packages_from_lines(&lines);
    assert_eq!(packages.len(), 10_001);
    assert_eq!(packages[10_000], "pkg10000");
}

#[test]
fn each_path_kept_once_first_wins() {
    let mut second = finding("/c");
    second.package = "q".to_owned();
    let v = vec![finding("/a/b"), finding("/a/b/"), finding("/c"), finding("/a//b"), second];
    let d = dedup_by_path(v);
    let paths: Vec<&str> = d.iter().map(|f| f.path.as_str()).collect();
    assert_eq!(paths, vec!["/a/b", "/c"]);
    assert_eq!(d[1].package, "p");
}

#[test]
fn prompt_skipped_for_any_reason() {
    assert!(!hook_skips_prompt(false, true, false, true));
    assert!(hook_skips_prompt(true, true, false, true));
    assert!(hook_skips_prompt(false, false, false, true));
    assert!(hook_skips_prompt(false, true, true, true));
    assert!(hook_skips_prompt(false, true, false, false));
}

#[test]
fn outcome_report_lines() {
    let result = ExecutionResult {
        succeeded: vec!["/a".to_owned(), "/b".to_owned()],
        failed: vec![("/etc".to_owned(), "refusing to delete forbidden path: /etc".to_owned())],
        journal_path: None,
        freed_bytes: 2048,
    };
    let lines = report_outcome(&result, false, false);
    assert_eq!(
        lines,
        vec![
            ":: pacrid: removed 2 paths, 2 KiB reclaimed".to_owned(),
            " -> restore with: pacrid undo".to_owned(),
            "warning: pacrid: kept /etc \u{2014} refusing to delete forbidden path: /etc".to_owned(),
        ]
    );
    let dry = report_outcome(&result, true, false);
    assert_eq!(dry[0], ":: pacrid: would remove 2 paths");
    assert_eq!(dry.len(), 2);
    let none = ExecutionResult { succeeded: vec![], failed: vec![], journal_path: None, freed_bytes: 0 };
    assert!(report_outcome(&none, false, true).is_empty());
}

#[test]
fn unicode_white_space_is_trimmed() {
    let lines = vec!["\u{3000}steam\u{a0}".to_owned(), "\u{2028}".to_owned(), "x\u{200b}".to_owned()];
    // U+200B (zero width space) is not White_Space, so it stays.
    assert_eq!(packages_from_lines(&lines), vec!["steam".to_owned(), "x\u{200b}".to_owned()]);
}
