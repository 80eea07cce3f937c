//! The decisions of the pacman `PostTransaction` hook: which packages were
//! removed, which findings are kept, whether to ask, and what it reports.
use vstd::prelude::*;
use crate::executor::ExecutionResult;
use crate::path::{components, cview, path_components, same_components};
use crate::scanners::{finding_views, Finding, FindingView};
use crate::text::{chars_of, concat_chars, string_from_chars, string_views, trim_chars, trimmed};
use crate::ui::{counted, dim, item, item_line, painted, dim_code, success, success_line, warning, warning_line};
use crate::util::{binary_size_text, format_bytes};

verus! {

/// After this many lines of standard input the hook stops reading.
pub const HOOK_STDIN_LINE_LIMIT: usize = 10_000;

/// The package names in the hook's input lines: each line trimmed, empty
/// ones dropped, at most the first `HOOK_STDIN_LINE_LIMIT + 1` lines read.
pub open spec fn hook_packages(lines: Seq<Seq<char>>) -> Seq<Seq<char>> {
    let read = if lines.len() > HOOK_STDIN_LINE_LIMIT + 1 { lines.take(HOOK_STDIN_LINE_LIMIT + 1) } else { lines };
    read.map_values(|l: Seq<char>| trimmed(l)).filter(|t: Seq<char>| t.len() > 0)
}

/// The removed packages pacman lists on the hook's standard input, one per
/// line.
pub fn packages_from_lines(lines: &[String]) -> (r: Vec<String>)
    ensures
        string_views(r@) == hook_packages(string_views(lines@)),
{
    let ghost lv = string_views(lines@);
    let n = if lines.len() > HOOK_STDIN_LINE_LIMIT + 1 { HOOK_STDIN_LINE_LIMIT + 1 } else { lines.len() };
    let ghost read = if lv.len() > HOOK_STDIN_LINE_LIMIT + 1 { lv.take(HOOK_STDIN_LINE_LIMIT + 1) } else { lv };
    assert(read.len() == n);
    let ghost tv = read.map_values(|l: Seq<char>| trimmed(l));
    let mut r: Vec<String> = Vec::new();
    let mut i: usize = 0;
    while i < n
        invariant
            i <= n,
            n == read.len(),
            n <= lines@.len(),
            lv == string_views(lines@),
            forall|k: int| 0 <= k < n ==> #[trigger] read[k] == lv[k],
            tv == read.map_values(|l: Seq<char>| trimmed(l)),
            string_views(r@) == tv.take(i as int).filter(|t: Seq<char>| t.len() > 0),
        decreases n - i,
    {
        let t = trim_chars(&chars_of(lines[i].as_str()));
        assert(t@ == tv[i as int]);
        let ghost before = string_views(r@);
        assert(tv.take(i + 1).drop_last() =~= tv.take(i as int));
        reveal(Seq::filter);
        if t.len() > 0 {
            r.push(string_from_chars(&t));
            assert(string_views(r@) =~= before.push(tv[i as int]));
        }
        i += 1;
    }
    assert(tv.take(n as int) =~= tv);
    r
}

/// The path of `f` is, compared as a path, that of one of the findings `r`.
pub open spec fn path_among(r: Seq<FindingView>, f: FindingView) -> bool {
    exists|k: int| 0 <= k < r.len() && components(#[trigger] r[k].path) == components(f.path)
}

/// The first finding at each path (compared as paths), in order.
pub open spec fn first_per_path(s: Seq<FindingView>) -> Seq<FindingView>
    decreases s.len(),
{
    if s.len() == 0 {
        s
    } else {
        let r = first_per_path(s.drop_last());
        if path_among(r, s.last()) { r } else { r.push(s.last()) }
    }
}

/// What `first_per_path` keeps: no path twice, every path of the input, and
/// only findings of the input.
pub proof fn lemma_first_per_path(s: Seq<FindingView>)
    ensures
        forall|i: int, j: int|
            0 <= i < j < first_per_path(s).len() ==> components(#[trigger] first_per_path(s)[i].path)
                != components(#[trigger] first_per_path(s)[j].path),
        forall|i: int| 0 <= i < s.len() ==> path_among(first_per_path(s), #[trigger] s[i]),
        forall|k: int| 0 <= k < first_per_path(s).len() ==> s.contains(#[trigger] first_per_path(s)[k]),
    decreases s.len(),
{
    if s.len() > 0 {
        let init = s.drop_last();
        let x = s.last();
        lemma_first_per_path(init);
        let r = first_per_path(init);
        let out = first_per_path(s);
        if !path_among(r, x) {
            assert(out == r.push(x));
            assert forall|i: int, j: int| 0 <= i < j < out.len() implies components(#[trigger] out[i].path)
                != components(#[trigger] out[j].path) by {
                if j == r.len() {
                    assert(out[i] == r[i]);
                }
            }
        }
        assert forall|i: int| 0 <= i < s.len() implies path_among(out, #[trigger] s[i]) by {
            if i < init.len() {
                assert(init[i] == s[i]);
                assert(path_among(r, init[i]));
                let k = choose|k: int| 0 <= k < r.len() && components(#[trigger] r[k].path) == components(init[i].path);
                assert(out[k] == r[k]);
            } else if !path_among(r, x) {
                assert(out[r.len() as int] == x);
            }
        }
        assert forall|k: int| 0 <= k < out.len() implies s.contains(#[trigger] out[k]) by {
            if k < r.len() {
                assert(out[k] == r[k]);
                assert(init.contains(r[k]));
                let t = choose|t: int| 0 <= t < init.len() && init[t] == r[k];
                assert(s[t] == r[k]);
            } else {
                assert(s[s.len() - 1] == out[k]);
            }
        }
    }
}

/// Findings from several scanners or homes with each path kept once: the
/// first finding at a path (compared as paths) stays, later ones at the same
/// path are dropped.
pub fn dedup_by_path(findings: Vec<Finding>) -> (r: Vec<Finding>)
    ensures
        finding_views(r@) == first_per_path(finding_views(findings@)),
        forall|i: int, j: int|
            0 <= i < j < r@.len() ==> components((#[trigger] r@[i])@.path) != components((#[trigger] r@[j])@.path),
        forall|i: int| 0 <= i < findings@.len() ==> path_among(finding_views(r@), #[trigger] findings@[i]@),
{
    let ghost fv = finding_views(findings@);
    let mut out: Vec<Finding> = Vec::new();
    let mut kept: Vec<Vec<Vec<char>>> = Vec::new();
    let mut i: usize = 0;
    while i < findings.len()
        invariant
            i <= findings@.len(),
            fv == finding_views(findings@),
            finding_views(out@) == first_per_path(fv.take(i as int)),
            kept@.len() == out@.len(),
            forall|k: int| 0 <= k < kept@.len() ==> cview(#[trigger] kept@[k]) == components(out@[k]@.path),
        decreases findings.len() - i,
    {
        let ghost before = finding_views(out@);
        let ghost t1 = fv.take(i + 1);
        assert(t1.drop_last() =~= fv.take(i as int));
        assert(t1.last() == fv[i as int]);
        let c = path_components(&chars_of(findings[i].path.as_str()));
        let mut seen = false;
        let mut k: usize = 0;
        while k < kept.len()
            invariant
                k <= kept@.len(),
                kept@.len() == out@.len(),
                before == finding_views(out@),
                cview(c) == components(fv[i as int].path),
                forall|m: int| 0 <= m < kept@.len() ==> cview(#[trigger] kept@[m]) == components(out@[m]@.path),
                seen == exists|m: int| 0 <= m < k && components(#[trigger] before[m].path) == components(fv[i as int].path),
            decreases kept.len() - k,
        {
            let same = same_components(&kept[k], &c);
            assert(before[k as int] == out@[k as int]@);
            if same {
                seen = true;
            }
            k += 1;
        }
        assert(seen == path_among(before, fv[i as int]));
        if !seen {
            let f = findings[i].clone();
            out.push(f);
            kept.push(c);
            assert(finding_views(out@) =~= before.push(fv[i as int]));
        }
        i += 1;
    }
    assert(fv.take(findings@.len() as int) =~= fv);
    proof {
        lemma_first_per_path(fv);
        assert forall|i: int, j: int| 0 <= i < j < out@.len() implies components((#[trigger] out@[i])@.path)
            != components((#[trigger] out@[j])@.path) by {
            assert(out@[i]@ == finding_views(out@)[i]);
            assert(out@[j]@ == finding_views(out@)[j]);
        }
        assert forall|i: int| 0 <= i < findings@.len() implies path_among(finding_views(out@), #[trigger] findings@[i]@) by {
            assert(findings@[i]@ == fv[i]);
        }
    }
    out
}

/// Whether the hook decides without asking: when told to, when the
/// configuration turns the prompt off, when `PACRID_NO_PROMPT` is set, or
/// when there is no controlling terminal to ask at.
pub fn hook_skips_prompt(non_interactive: bool, hook_prompt: bool, suppressed_by_env: bool, has_terminal: bool) -> (b: bool)
    ensures
        b == (non_interactive || !hook_prompt || suppressed_by_env || !has_terminal),
{
    non_interactive || !hook_prompt || suppressed_by_env || !has_terminal
}

/// The message for one path that was kept: `pacrid: kept <path> — <reason>`.
pub open spec fn kept_message(failure: (Seq<char>, Seq<char>)) -> Seq<char> {
    "pacrid: kept "@ + failure.0 + " \u{2014} "@ + failure.1
}

/// The hook's closing report, in pacman's voice: when paths were removed, a
/// success line (`would remove` on a dry run, otherwise the paths removed
/// and the bytes reclaimed) and, unless dry, how to undo; then a warning for
/// each path kept, with why.
pub open spec fn outcome_report(
    removed: nat,
    failed: Seq<(Seq<char>, Seq<char>)>,
    freed_bytes: u64,
    dry_run: bool,
    colored: bool,
) -> Seq<Seq<char>> {
    let paths = counted(removed, "path"@);
    let head = if removed > 0 {
        if dry_run {
            seq![success_line("pacrid: would remove "@ + paths, colored)]
        } else {
            seq![
                success_line("pacrid: removed "@ + paths + ", "@ + binary_size_text(freed_bytes) + " reclaimed"@, colored),
                item_line(painted(dim_code(), "restore with: pacrid undo"@, colored), colored),
            ]
        }
    } else {
        Seq::<Seq<char>>::empty()
    };
    head + failed.map_values(|f: (Seq<char>, Seq<char>)| warning_line(kept_message(f), colored))
}

/// The failures of a run, as text pairs.
pub open spec fn failure_views(v: Seq<(String, String)>) -> Seq<(Seq<char>, Seq<char>)> {
    v.map_values(|f: (String, String)| (f.0@, f.1@))
}

/// The lines the hook prints after a run.
pub fn report_outcome(result: &ExecutionResult, dry_run: bool, colored: bool) -> (r: Vec<String>)
    ensures
        string_views(r@) == outcome_report(
            result.succeeded@.len(),
            failure_views(result.failed@),
            result.freed_bytes,
            dry_run,
            colored,
        ),
{
    let ghost fv = failure_views(result.failed@);
    let mut r: Vec<String> = Vec::new();
    let removed = result.succeeded.len();
    if removed > 0 {
        let paths = crate::ui::count(removed, "path");
        if dry_run {
            let m = concat_chars(&chars_of("pacrid: would remove "), &chars_of(paths.as_str()));
            r.push(success(string_from_chars(&m).as_str(), colored));
        } else {
            let a = concat_chars(&chars_of("pacrid: removed "), &chars_of(paths.as_str()));
            let b = concat_chars(&concat_chars(&a, &chars_of(", ")), &chars_of(format_bytes(result.freed_bytes).as_str()));
            let m = concat_chars(&b, &chars_of(" reclaimed"));
            r.push(success(string_from_chars(&m).as_str(), colored));
            r.push(item(dim("restore with: pacrid undo", colored).as_str(), colored));
        }
    }
    let ghost head = string_views(r@);
    assert(head == outcome_report(removed as nat, Seq::empty(), result.freed_bytes, dry_run, colored));
    let mut i: usize = 0;
    while i < result.failed.len()
        invariant
            i <= fv.len(),
            fv == failure_views(result.failed@),
            string_views(r@) == head + fv.take(i as int).map_values(
                |f: (Seq<char>, Seq<char>)| warning_line(kept_message(f), colored),
            ),
        decreases result.failed.len() - i,
    {
        let (path, reason) = &result.failed[i];
        let a = concat_chars(&chars_of("pacrid: kept "), &chars_of(path.as_str()));
        let m = concat_chars(&concat_chars(&a, &chars_of(" \u{2014} ")), &chars_of(reason.as_str()));
        let ghost before = string_views(r@);
        r.push(warning(string_from_chars(&m).as_str(), colored));
        assert(fv[i as int] == (path@, reason@));
        assert(string_views(r@) =~= before.push(warning_line(kept_message(fv[i as int]), colored)));
        assert(fv.take(i + 1).map_values(|f: (Seq<char>, Seq<char>)| warning_line(kept_message(f), colored))
            =~= fv.take(i as int).map_values(|f: (Seq<char>, Seq<char>)| warning_line(kept_message(f), colored)).push(
            warning_line(kept_message(fv[i as int]), colored),
        ));
        i += 1;
    }
    assert(fv.take(fv.len() as int) =~= fv);
    r
}

} // verus!
