use pacrid::util::{expand_xdg_with_home, format_bytes};

#[test]
fn format_bytes_human_readable() {
    let s = format_bytes(1_073_741_824);
    assert!(s.contains("GiB"), "expected GiB, got: {s}");
}

#[test]
fn format_bytes_small_and_fractional() {
    assert_eq!(format_bytes(0), "0 B");
    assert_eq!(format_bytes(1023), "1023 B");
    assert_eq!(format_bytes(1536), "1.50 KiB");
}

#[test]
fn expands_every_variable() {
    let home = "/home/u";
    assert_eq!(expand_xdg_with_home("$HOME/.steam", home), "/home/u/.steam");
    assert_eq!(expand_xdg_with_home("$XDG_CONFIG_HOME/app", home), "/home/u/.config/app");
    assert_eq!(expand_xdg_with_home("$XDG_CACHE_HOME/app", home), "/home/u/.cache/app");
    assert_eq!(expand_xdg_with_home("$XDG_DATA_HOME/Steam", home), "/home/u/.local/share/Steam");
    assert_eq!(expand_xdg_with_home("$XDG_STATE_HOME/app", home), "/home/u/.local/state/app");
    assert_eq!(expand_xdg_with_home("/etc/app", home), "/etc/app");
}

#[test]
fn expands_leading_tilde_only() {
    assert_eq!(pacrid::util::expand_home("~/.config/x", Some("/home/u".to_owned())), "/home/u/.config/x");
    assert_eq!(pacrid::util::expand_home("~/.config/x", None), "~/.config/x");
    assert_eq!(pacrid::util::expand_home("/etc/x", Some("/home/u".to_owned())), "/etc/x");
    assert_eq!(pacrid::util::expand_home("~x", Some("/home/u".to_owned())), "~x");
}

#[test]
fn locations_resolve_under_the_given_home() {
    let home = "/home/alice";
    assert!(expand_xdg_with_home("$HOME/x", home).starts_with("/home/alice"));
    assert!(expand_xdg_with_home("$XDG_CONFIG_HOME/x", home).starts_with("/home/alice/.config"));
    assert!(expand_xdg_with_home("$XDG_CACHE_HOME/x", home).starts_with("/home/alice/.cache"));
    assert!(expand_xdg_with_home("$XDG_DATA_HOME/x", home).starts_with("/home/alice/.local/share"));
    assert_eq!(expand_xdg_with_home("$XDG_STATE_HOME/x/$HOME", home), "/home/alice/.local/state/x//home/alice");
}
