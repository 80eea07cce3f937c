use pacrid::ui::{abbreviate_home, count, error, header, item, success, truncate_middle, warning};

#[test]
fn count_pluralises() {
    assert_eq!(count(1, "path"), "1 path");
    assert_eq!(count(0, "path"), "0 paths");
    assert_eq!(count(3, "path"), "3 paths");
}

#[test]
fn abbreviates_user_home() {
    assert_eq!(abbreviate_home("/home/aphunt/.local/share/lutris"), "~/.local/share/lutris");
    assert_eq!(abbreviate_home("/root/.cache/x"), "~/.cache/x");
}

#[test]
fn leaves_non_home_paths_alone() {
    assert_eq!(abbreviate_home("/etc/lutris"), "/etc/lutris");
    assert_eq!(abbreviate_home("/home"), "/home");
}

#[test]
fn truncate_keeps_both_ends() {
    let out = truncate_middle("~/.local/share/some-very-long-app-name", 20);
    assert_eq!(out.chars().count(), 20);
    assert!(out.starts_with("~/.local"), "{out}");
    assert!(out.ends_with("name"), "{out}");
}

#[test]
fn truncate_is_a_noop_when_it_fits() {
    assert_eq!(truncate_middle("~/.cache/x", 40), "~/.cache/x");
}

#[test]
fn truncate_never_splits_a_multibyte_char() {
    let out = truncate_middle("日本語のとても長いパス名です", 9);
    assert_eq!(out.chars().count(), 9);
}

#[test]
fn lines_with_and_without_colour() {
    assert_eq!(header("Scanning", false), ":: Scanning");
    assert_eq!(header("Scanning", true), "\x1b[1;34m::\x1b[0m \x1b[1mScanning\x1b[0m");
    assert_eq!(item("x", false), " -> x");
    assert_eq!(success("done", false), ":: done");
    assert_eq!(warning("careful", false), "warning: careful");
    assert_eq!(error("bad", true), "\x1b[1;31merror:\x1b[0m bad");
}

#[test]
fn root_only_as_a_whole_directory() {
    assert_eq!(abbreviate_home("/rootfs/x"), "/rootfs/x");
    assert_eq!(abbreviate_home("/root"), "~");
    assert_eq!(abbreviate_home("/root/"), "~/");
    assert_eq!(abbreviate_home("/home/u"), "/home/u");
}
