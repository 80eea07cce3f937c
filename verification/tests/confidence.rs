use pacrid::confidence::{score, LARGE_BYTES};
use pacrid::scanners::{Confidence, Reason};

fn home_dir() -> &'static str {
    "/home/u"
}

#[test]
fn high_xdg_db_plus_exe_gone() {
    let reasons = vec![Reason::InXdgDatabase, Reason::ExecutableGone("steam".to_owned())];
    assert_eq!(score(&reasons, "/home/u/.steam", 100, home_dir()), Confidence::High);
}

#[test]
fn high_exact_plus_exe_gone_home_config() {
    let reasons = vec![Reason::ExactNameMatch, Reason::ExecutableGone("steam".to_owned())];
    assert_eq!(score(&reasons, "/home/u/.config/steam", 100, home_dir()), Confidence::High);
}

#[test]
fn medium_exact_name_alone() {
    let reasons = vec![Reason::ExactNameMatch];
    assert_eq!(score(&reasons, "/home/u/.config/foo", 100, home_dir()), Confidence::Medium);
}

#[test]
fn medium_pacman_orphan_in_etc() {
    let reasons = vec![Reason::PacmanOrphan];
    assert_eq!(score(&reasons, "/etc/steam", 100, home_dir()), Confidence::Medium);
}

#[test]
fn low_substring_match_alone() {
    let reasons = vec![Reason::PkgnameSubstringMatch];
    assert_eq!(
        score(&reasons, "/home/u/.config/com.valve.steam", 100, home_dir()),
        Confidence::Low
    );
}

#[test]
fn large_item_always_low() {
    let reasons = vec![Reason::InXdgDatabase, Reason::ExecutableGone("steam".to_owned())];
    let size = LARGE_BYTES + 1;
    assert_eq!(score(&reasons, "/home/u/.steam", size, home_dir()), Confidence::Low);
}

#[test]
fn var_lib_always_low() {
    let reasons = vec![Reason::InXdgDatabase, Reason::ExecutableGone("steam".to_owned())];
    assert_eq!(score(&reasons, "/var/lib/steam", 100, home_dir()), Confidence::Low);
}

#[test]
fn exactly_one_gigabyte_is_not_forced_low() {
    let reasons = vec![Reason::InXdgDatabase, Reason::ExecutableGone("steam".to_owned())];
    assert_eq!(score(&reasons, "/home/u/.steam", LARGE_BYTES, home_dir()), Confidence::High);
}

#[test]
fn srv_and_opt_are_state_paths() {
    let reasons = vec![Reason::InXdgDatabase, Reason::ExecutableGone("x".to_owned())];
    assert_eq!(score(&reasons, "/srv/x", 1, home_dir()), Confidence::Low);
    assert_eq!(score(&reasons, "/opt/x", 1, home_dir()), Confidence::Low);
}

#[test]
fn exact_match_outside_home_config_is_medium() {
    let reasons = vec![Reason::ExactNameMatch, Reason::ExecutableGone("foo".to_owned())];
    assert_eq!(score(&reasons, "/home/u/.foo", 100, home_dir()), Confidence::Medium);
}

#[test]
fn orphan_outside_etc_is_low() {
    let reasons = vec![Reason::PacmanOrphan];
    assert_eq!(score(&reasons, "/usr/share/foo", 100, home_dir()), Confidence::Low);
    assert_eq!(score(&reasons, "/etcetera/foo", 100, home_dir()), Confidence::Low);
}

#[test]
fn more_reasons_never_lower_on_examples() {
    let fewer = vec![Reason::ExactNameMatch];
    let more = vec![Reason::ExactNameMatch, Reason::ExecutableGone("foo".to_owned())];
    let a = score(&fewer, "/home/u/.config/foo", 100, home_dir());
    let b = score(&more, "/home/u/.config/foo", 100, home_dir());
    assert!(a <= b);
    assert_eq!(b, Confidence::High);
}
