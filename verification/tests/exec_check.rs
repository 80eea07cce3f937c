use pacrid::exec_check::{exe_candidates, executable_gone, none_found, strip_aur_suffix};

#[test]
fn nonexistent_binary_is_gone() {
    assert!(executable_gone(&["__pacrid_no_such_exe__".to_owned()]));
}

#[test]
fn strip_suffix_works() {
    assert_eq!(strip_aur_suffix("steam-bin"), "steam");
    assert_eq!(strip_aur_suffix("neovim-git"), "neovim");
    assert_eq!(strip_aur_suffix("steam"), "steam");
}

#[test]
fn strip_suffix_takes_only_one() {
    assert_eq!(strip_aur_suffix("foo-git-bin"), "foo-git");
    assert_eq!(strip_aur_suffix("app-nightly"), "app");
    assert_eq!(strip_aur_suffix("tool-stable"), "tool");
    assert_eq!(strip_aur_suffix("lib-dev"), "lib");
    assert_eq!(strip_aur_suffix("-bin"), "");
}

#[test]
fn exe_candidates_deduplicated() {
    let c = exe_candidates("foo");
    assert!(c.contains(&"foo".to_owned()));
}

#[test]
fn exe_candidates_lists_each_spelling_once() {
    assert_eq!(exe_candidates("foo"), vec!["foo".to_owned()]);
    assert_eq!(
        exe_candidates("foo-bar"),
        vec!["foo-bar".to_owned(), "foobar".to_owned(), "foo_bar".to_owned()]
    );
    assert_eq!(
        exe_candidates("brave-origin-bin"),
        vec!["brave-origin".to_owned(), "braveorigin".to_owned(), "brave_origin".to_owned()]
    );
    assert_eq!(exe_candidates("my_tool"), vec!["my_tool".to_owned(), "my-tool".to_owned()]);
}

#[test]
fn none_found_means_gone() {
    assert!(none_found(&[]));
    assert!(none_found(&[false, false]));
    assert!(!none_found(&[false, true]));
}
