use pacrid::config::{merge, parse_auto_confirm_level, AutoConfirmLevel, Config};

#[test]
fn defaults() {
    let c = Config::default();
    assert_eq!(c.auto_confirm, AutoConfirmLevel::High);
    assert!(c.use_trash && c.hook_enabled && c.hook_prompt);
    assert!(!c.auto_remove_orphan_deps);
    assert!(c.scanners.xdg_db && c.scanners.name_heuristic && !c.scanners.pacman_orphan);
}

#[test]
fn levels_parse() {
    assert_eq!(parse_auto_confirm_level("high"), Ok(AutoConfirmLevel::High));
    assert_eq!(parse_auto_confirm_level("medium"), Ok(AutoConfirmLevel::Medium));
    assert_eq!(parse_auto_confirm_level("low"), Ok(AutoConfirmLevel::Low));
    assert_eq!(parse_auto_confirm_level("none"), Ok(AutoConfirmLevel::Never));
    let e = parse_auto_confirm_level("High").unwrap_err();
    assert_eq!(e.message(), "unknown auto-confirm level: High; expected high|medium|low|none");
}

#[test]
fn user_config_wins() {
    let base = Config::default();
    let mut user = Config::default();
    user.use_trash = false;
    assert!(!merge(base, user).use_trash);
}
