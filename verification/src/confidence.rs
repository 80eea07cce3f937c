//! Scoring: (reasons, path, size, home) to a confidence level.
use vstd::prelude::*;
use crate::path::{components, path_components, root_component};
use crate::scanners::{rank, reason_views, Confidence, Reason, ReasonView};
use crate::text::{chars_eq, chars_of, concat_chars, has_prefix, starts_with_chars};

verus! {

/// Items larger than this (1 GB) always need a human decision.
pub const LARGE_BYTES: u64 = 1_000_000_000;

pub open spec fn has_xdg_db(rs: Seq<ReasonView>) -> bool {
    exists|i: int| 0 <= i < rs.len() && rs[i] is InXdgDatabase
}

pub open spec fn has_exe_gone(rs: Seq<ReasonView>) -> bool {
    exists|i: int| 0 <= i < rs.len() && rs[i] is ExecutableGone
}

pub open spec fn has_exact(rs: Seq<ReasonView>) -> bool {
    exists|i: int| 0 <= i < rs.len() && rs[i] is ExactNameMatch
}

pub open spec fn has_orphan(rs: Seq<ReasonView>) -> bool {
    exists|i: int| 0 <= i < rs.len() && rs[i] is PacmanOrphan
}

/// Under `/var/lib/`, `/srv/` or `/opt/`: live state, never High.
pub open spec fn spec_is_state_path(p: Seq<char>) -> bool {
    has_prefix(p, "/var/lib/"@) || has_prefix(p, "/srv/"@) || has_prefix(p, "/opt/"@)
}

/// Under the user's `.config`, `.cache`, `.local/share` or `.local/state`
/// (a textual prefix of the path, as the displayed strings compare).
pub open spec fn spec_is_home_config_path(p: Seq<char>, home: Seq<char>) -> bool {
    home.len() > 0 && (has_prefix(p, home + "/.config"@) || has_prefix(p, home + "/.cache"@)
        || has_prefix(p, home + "/.local/share"@) || has_prefix(p, home + "/.local/state"@))
}

/// The path lies at or below `/etc`, component by component.
pub open spec fn spec_is_etc_path(p: Seq<char>) -> bool {
    let c = components(p);
    c.len() >= 2 && c[0] == root_component() && c[1] == "etc"@
}

/// The confidence of a finding.
pub open spec fn confidence_for(
    rs: Seq<ReasonView>,
    path: Seq<char>,
    size_bytes: u64,
    home: Seq<char>,
) -> Confidence {
    if size_bytes > LARGE_BYTES {
        Confidence::Low
    } else if spec_is_state_path(path) {
        Confidence::Low
    } else if (has_xdg_db(rs) && has_exe_gone(rs)) || (has_exact(rs) && has_exe_gone(rs)
        && spec_is_home_config_path(path, home)) {
        Confidence::High
    } else if has_exact(rs) || (has_orphan(rs) && spec_is_etc_path(path)) || has_xdg_db(rs) {
        Confidence::Medium
    } else {
        Confidence::Low
    }
}

/// Compute the confidence for a set of reasons on a given path and size.
/// `home_dir` is the real user's home (not necessarily `$HOME`: the hook runs as root).
/// Items over 1 GB and paths under `/var/lib/`, `/srv/`, `/opt/` are always Low.
pub fn score(reasons: &[Reason], path: &str, size_bytes: u64, home_dir: &str) -> (c: Confidence)
    requires
        reasons@.len() > 0,
    ensures
        c == confidence_for(reason_views(reasons@), path@, size_bytes, home_dir@),
{
    if size_bytes > LARGE_BYTES {
        return Confidence::Low;
    }
    let p = chars_of(path);
    if is_state_path(&p) {
        return Confidence::Low;
    }
    let ghost rv = reason_views(reasons@);
    let mut xdg = false;
    let mut exe = false;
    let mut exact = false;
    let mut orphan = false;
    let mut i: usize = 0;
    while i < reasons.len()
        invariant
            i <= reasons@.len(),
            rv == reason_views(reasons@),
            xdg == (exists|k: int| 0 <= k < i && rv[k] is InXdgDatabase),
            exe == (exists|k: int| 0 <= k < i && rv[k] is ExecutableGone),
            exact == (exists|k: int| 0 <= k < i && rv[k] is ExactNameMatch),
            orphan == (exists|k: int| 0 <= k < i && rv[k] is PacmanOrphan),
        decreases reasons.len() - i,
    {
        assert(rv[i as int] == reasons@[i as int]@);
        match &reasons[i] {
            Reason::InXdgDatabase => { xdg = true; },
            Reason::ExecutableGone(_) => { exe = true; },
            Reason::ExactNameMatch => { exact = true; },
            Reason::PacmanOrphan => { orphan = true; },
            _ => {},
        }
        i += 1;
    }
    let h = chars_of(home_dir);
    let home_sub = is_home_config_path(&p, &h);
    if (xdg && exe) || (exact && exe && home_sub) {
        return Confidence::High;
    }
    if exact || (orphan && is_etc_path(&p)) || xdg {
        return Confidence::Medium;
    }
    Confidence::Low
}

fn is_home_config_path(path: &[char], home: &[char]) -> (b: bool)
    ensures
        b == spec_is_home_config_path(path@, home@),
{
    if home.len() == 0 {
        return false;
    }
    starts_with_chars(path, &concat_chars(home, &chars_of("/.config")))
        || starts_with_chars(path, &concat_chars(home, &chars_of("/.cache")))
        || starts_with_chars(path, &concat_chars(home, &chars_of("/.local/share")))
        || starts_with_chars(path, &concat_chars(home, &chars_of("/.local/state")))
}

fn is_state_path(path: &[char]) -> (b: bool)
    ensures
        b == spec_is_state_path(path@),
{
    starts_with_chars(path, &chars_of("/var/lib/")) || starts_with_chars(path, &chars_of("/srv/"))
        || starts_with_chars(path, &chars_of("/opt/"))
}

fn is_etc_path(path: &[char]) -> (b: bool)
    ensures
        b == spec_is_etc_path(path@),
{
    let c = path_components(path);
    let ghost cv = c@.map_values(|v: Vec<char>| v@);
    if c.len() < 2 {
        return false;
    }
    let root = chars_of("/");
    let etc = chars_of("etc");
    proof {
        reveal_strlit("/");
    }
    assert(root@ =~= root_component());
    chars_eq(&c[0], &root) && chars_eq(&c[1], &etc)
}

/// Items over 1 GB are always Low, whatever the evidence.
pub proof fn law_large_items_are_low(rs: Seq<ReasonView>, path: Seq<char>, size_bytes: u64, home: Seq<char>)
    requires
        size_bytes > LARGE_BYTES,
    ensures
        confidence_for(rs, path, size_bytes, home) == Confidence::Low,
{
}

/// Paths under `/var/lib/`, `/srv/` and `/opt/` are always Low, whatever the evidence.
pub proof fn law_state_paths_are_low(rs: Seq<ReasonView>, path: Seq<char>, size_bytes: u64, home: Seq<char>)
    requires
        spec_is_state_path(path),
    ensures
        confidence_for(rs, path, size_bytes, home) == Confidence::Low,
{
}

/// An XDG database entry whose executable is gone scores High on any path,
/// unless the item is over 1 GB or a state path.
pub proof fn law_xdg_db_and_exe_gone_is_high(
    rs: Seq<ReasonView>,
    path: Seq<char>,
    size_bytes: u64,
    home: Seq<char>,
)
    requires
        has_xdg_db(rs),
        has_exe_gone(rs),
        size_bytes <= LARGE_BYTES,
        !spec_is_state_path(path),
    ensures
        confidence_for(rs, path, size_bytes, home) == Confidence::High,
{
}

/// High is only ever given when the executable is confirmed gone, together
/// with a database entry or an exact name match.
pub proof fn law_high_needs_exe_gone(rs: Seq<ReasonView>, path: Seq<char>, size_bytes: u64, home: Seq<char>)
    ensures
        confidence_for(rs, path, size_bytes, home) == Confidence::High ==> has_exe_gone(rs) && (
        has_xdg_db(rs) || has_exact(rs)),
{
}

/// Reasons made only of substring matches, allow-listing and access age
/// never score above Low, so never above Medium.
pub proof fn law_weak_reasons_never_high(rs: Seq<ReasonView>, path: Seq<char>, size_bytes: u64, home: Seq<char>)
    requires
        forall|i: int|
            0 <= i < rs.len() ==> (rs[i] is PkgnameSubstringMatch || rs[i] is UserAllowlist
                || rs[i] is NotAccessedFor),
    ensures
        confidence_for(rs, path, size_bytes, home) == Confidence::Low,
        rank(confidence_for(rs, path, size_bytes, home)) <= rank(Confidence::Medium),
{
    assert(!has_xdg_db(rs));
    assert(!has_exe_gone(rs));
    assert(!has_exact(rs));
    assert(!has_orphan(rs));
}

/// More evidence never lowers the confidence: if every reason of `a`
/// also occurs in `b`, `b` scores at least as high on the same path and size.
pub proof fn law_more_reasons_never_lower(
    a: Seq<ReasonView>,
    b: Seq<ReasonView>,
    path: Seq<char>,
    size_bytes: u64,
    home: Seq<char>,
)
    requires
        forall|i: int| 0 <= i < a.len() ==> #[trigger] b.contains(a[i]),
    ensures
        rank(confidence_for(a, path, size_bytes, home)) <= rank(
            confidence_for(b, path, size_bytes, home),
        ),
{
    if has_xdg_db(a) {
        let i = choose|i: int| 0 <= i < a.len() && a[i] is InXdgDatabase;
        assert(b.contains(a[i]));
    }
    if has_exe_gone(a) {
        let i = choose|i: int| 0 <= i < a.len() && a[i] is ExecutableGone;
        assert(b.contains(a[i]));
    }
    if has_exact(a) {
        let i = choose|i: int| 0 <= i < a.len() && a[i] is ExactNameMatch;
        assert(b.contains(a[i]));
    }
    if has_orphan(a) {
        let i = choose|i: int| 0 <= i < a.len() && a[i] is PacmanOrphan;
        assert(b.contains(a[i]));
    }
}

/// An exact name match whose executable is gone scores High anywhere under
/// the home's `.config`, `.cache`, `.local/share` or `.local/state`, unless
/// the item is over 1 GB or lies under `/var/lib/`, `/srv/` or `/opt/`.
pub proof fn law_exact_match_in_home_dirs_is_high(
    rs: Seq<ReasonView>,
    path: Seq<char>,
    size_bytes: u64,
    home: Seq<char>,
)
    requires
        home.len() > 0,
        has_exact(rs),
        has_exe_gone(rs),
        size_bytes <= LARGE_BYTES,
        !has_prefix(path, "/var/lib/"@),
        !has_prefix(path, "/srv/"@),
        !has_prefix(path, "/opt/"@),
        has_prefix(path, home + "/.config"@) || has_prefix(path, home + "/.cache"@) || has_prefix(
            path,
            home + "/.local/share"@,
        ) || has_prefix(path, home + "/.local/state"@),
    ensures
        confidence_for(rs, path, size_bytes, home) == Confidence::High,
{
}

/// Without the executable confirmed gone nothing scores High: an item of at
/// most 1 GB outside `/var/lib/`, `/srv/` and `/opt/` is Medium exactly when
/// it matches the package name exactly, is in the XDG database, or is a
/// pacman orphan under `/etc`, and Low otherwise.
pub proof fn law_without_exe_gone_medium_or_low(rs: Seq<ReasonView>, path: Seq<char>, size_bytes: u64, home: Seq<char>)
    requires
        !has_exe_gone(rs),
        size_bytes <= LARGE_BYTES,
        !has_prefix(path, "/var/lib/"@),
        !has_prefix(path, "/srv/"@),
        !has_prefix(path, "/opt/"@),
    ensures
        confidence_for(rs, path, size_bytes, home) == (if has_exact(rs) || has_xdg_db(rs) || (has_orphan(rs)
            && spec_is_etc_path(path)) {
            Confidence::Medium
        } else {
            Confidence::Low
        }),
{
}

} // verus!
