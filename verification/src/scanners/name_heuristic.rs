//! Name-based probing: the paths a package's name suggests under the user's
//! XDG directories, dot-files and system directories.
use vstd::prelude::*;
use crate::config::Config;
use crate::confidence::{confidence_for, score};
use crate::exec_check::{first_occurrences, lemma_first_occurrences, exe_candidate_names, exe_candidates, executable_gone, strip_aur_suffix, stripped_name, stripped_name_from};
use crate::path::{join_path, path_join};
use crate::scanners::{finding_views, opt_finding_view, package_is_ignored, path_is_ignored, is_ignored_path, rank, reason_views, Category, Confidence, Finding, FindingView, Reason, ReasonView, ScanContext};
use crate::text::{has_char, has_prefix, string_views, chars_eq, chars_of, join, join_chars, remove_char, remove_char_chars, replace_char, replace_char_chars, slice_chars, split_chars, split_on, string_from_chars, concat_chars};

verus! {

/// The characters `char::to_uppercase` yields for `c`.
pub uninterp spec fn uppercase_of(c: char) -> Seq<char>;

/// The upper-case form of a character, through `char::to_uppercase`.
#[verifier::external_body]
fn upper_chars(c: char) -> (r: Vec<char>)
    ensures
        r@ == uppercase_of(c),
{
    c.to_uppercase().collect()
}

/// A word with its first character in upper case.
pub open spec fn capitalized(w: Seq<char>) -> Seq<char> {
    if w.len() == 0 { w } else { uppercase_of(w[0]) + w.skip(1) }
}

/// `s` split on `-`, each word capitalised, joined with `joiner`.
pub open spec fn title_cased(s: Seq<char>, joiner: Seq<char>) -> Seq<char> {
    join(split_on(s, '-').map_values(|w: Seq<char>| capitalized(w)), joiner)
}

/// Split `s` on '-', uppercase the first character of each word, then rejoin
/// with `joiner`. Used to produce CamelCase / Title-Case package-name variants.
pub fn title_case_join(s: &str, joiner: &str) -> (r: String)
    ensures
        r@ == title_cased(s@, joiner@),
{
    let words = split_chars(&chars_of(s), '-');
    let ghost wv = words@.map_values(|v: Vec<char>| v@);
    let mut caps: Vec<Vec<char>> = Vec::new();
    let mut i: usize = 0;
    while i < words.len()
        invariant
            i <= words@.len(),
            wv == words@.map_values(|v: Vec<char>| v@),
            caps@.map_values(|v: Vec<char>| v@) == wv.take(i as int).map_values(|w: Seq<char>| capitalized(w)),
        decreases words.len() - i,
    {
        let w = &words[i];
        let ghost before = caps@.map_values(|v: Vec<char>| v@);
        let c = if w.len() == 0 {
            Vec::new()
        } else {
            concat_chars(&upper_chars(w[0]), &slice_chars(w, 1, w.len()))
        };
        assert(c@ =~= capitalized(wv[i as int]));
        caps.push(c);
        assert(caps@.map_values(|v: Vec<char>| v@) =~= before.push(capitalized(wv[i as int])));
        assert(wv.take(i + 1).map_values(|w: Seq<char>| capitalized(w)) =~= wv.take(i as int).map_values(
            |w: Seq<char>| capitalized(w),
        ).push(capitalized(wv[i as int])));
        i += 1;
    }
    assert(wv.take(words@.len() as int) =~= wv);
    string_from_chars(&join_chars(&caps, &chars_of(joiner)))
}

/// `a` sorts before `b`: code-point order, character by character, a proper
/// prefix first. This is the order of `String`'s `Ord`, since UTF-8 keeps
/// code-point order byte by byte.
pub open spec fn lex_lt(a: Seq<char>, b: Seq<char>) -> bool
    decreases a.len(),
{
    if b.len() == 0 {
        false
    } else if a.len() == 0 {
        true
    } else if a[0] != b[0] {
        (a[0] as int) < (b[0] as int)
    } else {
        lex_lt(a.skip(1), b.skip(1))
    }
}

pub proof fn lemma_lex_total(a: Seq<char>, b: Seq<char>)
    ensures
        a != b ==> lex_lt(a, b) || lex_lt(b, a),
        !(lex_lt(a, b) && lex_lt(b, a)),
        !lex_lt(a, a),
    decreases a.len(),
{
    if a.len() > 0 && b.len() > 0 && a[0] == b[0] {
        lemma_lex_total(a.skip(1), b.skip(1));
        if a.skip(1) == b.skip(1) {
            assert(a =~= seq![a[0]] + a.skip(1));
            assert(b =~= seq![b[0]] + b.skip(1));
        }
    }
    if a.len() > 0 {
        lemma_lex_total(a.skip(1), a.skip(1));
    }
    if a.len() == 0 && b.len() == 0 {
        assert(a =~= b);
    }
    if a.len() > 0 && b.len() > 0 && a[0] != b[0] {
        assert((a[0] as int) != (b[0] as int));
    }
}

/// Whether `a` sorts before `b`.
pub fn lex_less(a: &[char], b: &[char]) -> (r: bool)
    ensures
        r == lex_lt(a@, b@),
{
    let mut i: usize = 0;
    assert(a@.skip(0) =~= a@);
    assert(b@.skip(0) =~= b@);
    while i < a.len() && i < b.len() && a[i] == b[i]
        invariant
            i <= a@.len(),
            i <= b@.len(),
            lex_lt(a@, b@) == lex_lt(a@.skip(i as int), b@.skip(i as int)),
        decreases a.len() - i,
    {
        assert(a@.skip(i as int).skip(1) =~= a@.skip(i + 1));
        assert(b@.skip(i as int).skip(1) =~= b@.skip(i + 1));
        i += 1;
    }
    let ghost sa = a@.skip(i as int);
    let ghost sb = b@.skip(i as int);
    if i == b.len() {
        assert(sb.len() == 0);
        false
    } else if i == a.len() {
        true
    } else {
        assert(sa[0] == a@[i as int] && sb[0] == b@[i as int]);
        a[i] < b[i]
    }
}

/// Strictly increasing, each element before the next.
pub open spec fn sorted_strictly(s: Seq<Seq<char>>) -> bool {
    forall|i: int| 0 <= i < s.len() - 1 ==> #[trigger] lex_lt(s[i], s[i + 1])
}

/// Inserts `x` into a strictly sorted list unless it is already there.
fn insert_sorted(v: &mut Vec<String>, x: String)
    requires
        sorted_strictly(string_views(old(v)@)),
    ensures
        sorted_strictly(string_views(final(v)@)),
        forall|y: Seq<char>|
            string_views(final(v)@).contains(y) <==> (string_views(old(v)@).contains(y) || y == x@),
{
    let ghost ov = string_views(v@);
    let xc = chars_of(x.as_str());
    let mut p: usize = 0;
    while p < v.len() && lex_less(&chars_of(v[p].as_str()), &xc)
        invariant
            p <= v@.len(),
            ov == string_views(v@),
            xc@ == x@,
            p > 0 ==> lex_lt(ov[p - 1], x@),
        decreases v.len() - p,
    {
        p += 1;
    }
    if p < v.len() && chars_eq(&chars_of(v[p].as_str()), &xc) {
        assert(ov[p as int] == x@);
        assert forall|y: Seq<char>| ov.contains(y) <==> (ov.contains(y) || y == x@) by {
            if y == x@ {
                assert(ov[p as int] == y);
            }
        }
        return;
    }
    proof {
        if p < ov.len() {
            lemma_lex_total(ov[p as int], x@);
            assert(lex_lt(x@, ov[p as int]));
        }
    }
    v.insert(p, x);
    let ghost nv = string_views(v@);
    assert(nv =~= ov.insert(p as int, xc@));
    assert forall|i: int| 0 <= i < nv.len() - 1 implies #[trigger] lex_lt(nv[i], nv[i + 1]) by {
        if i < p - 1 {
            assert(lex_lt(ov[i], ov[i + 1]));
        } else if i == p - 1 {
        } else if i == p {
        } else {
            assert(nv[i] == ov[i - 1] && nv[i + 1] == ov[i]);
            assert(lex_lt(ov[i - 1], ov[i - 1 + 1]));
        }
    }
    assert forall|y: Seq<char>| nv.contains(y) <==> (ov.contains(y) || y == xc@) by {
        if nv.contains(y) {
            let k = choose|k: int| 0 <= k < nv.len() && nv[k] == y;
            if k < p {
                assert(ov[k] == y);
            } else if k > p {
                assert(ov[k - 1] == y);
            }
        }
        if ov.contains(y) {
            let k = choose|k: int| 0 <= k < ov.len() && ov[k] == y;
            if k < p {
                assert(nv[k] == y);
            } else {
                assert(nv[k + 1] == y);
            }
        }
        if y == xc@ {
            assert(nv[p as int] == y);
        }
    }
}

/// The names a package is probed under: the name as given, with `-` as `_`,
/// with `_` as `-`, without `-`, and Title-Case / CamelCase forms of the
/// dash-separated words joined by `-`, `_` and nothing.
pub open spec fn variant_candidates(base: Seq<char>) -> Seq<Seq<char>> {
    let normalized = replace_char(base, '_', '-');
    seq![
        base,
        replace_char(base, '-', '_'),
        normalized,
        remove_char(base, '-'),
        title_cased(normalized, "-"@),
        title_cased(normalized, "_"@),
        title_cased(normalized, ""@),
    ]
}

/// The name variants of a package name, sorted and without repeats.
pub fn name_variants(base: &str) -> (r: Vec<String>)
    ensures
        sorted_strictly(string_views(r@)),
        forall|y: Seq<char>|
            string_views(r@).contains(y) <==> variant_candidates(base@).contains(y),
        string_views(r@).contains(base@),
        string_views(r@).contains(replace_char(base@, '-', '_')),
        string_views(r@).contains(replace_char(base@, '_', '-')),
        string_views(r@).contains(remove_char(base@, '-')),
{
    proof {
        law_variants_include_separator_spellings(base@);
    }
    let b = chars_of(base);
    let normalized = string_from_chars(&replace_char_chars(&b, '_', '-'));
    let cands: Vec<String> = vec![
        string_from_chars(&b),
        string_from_chars(&replace_char_chars(&b, '-', '_')),
        string_from_chars(&replace_char_chars(&b, '_', '-')),
        string_from_chars(&remove_char_chars(&b, '-')),
        title_case_join(normalized.as_str(), "-"),
        title_case_join(normalized.as_str(), "_"),
        title_case_join(normalized.as_str(), ""),
    ];
    let ghost cv = string_views(cands@);
    assert(cv =~= variant_candidates(base@));
    let mut r: Vec<String> = Vec::new();
    let mut i: usize = 0;
    while i < cands.len()
        invariant
            i <= cands@.len(),
            cv == string_views(cands@),
            sorted_strictly(string_views(r@)),
            forall|y: Seq<char>|
                string_views(r@).contains(y) <==> cv.take(i as int).contains(y),
        decreases cands.len() - i,
    {
        let x = string_from_chars(&chars_of(cands[i].as_str()));
        let ghost before = string_views(r@);
        insert_sorted(&mut r, x);
        let ghost ta = cv.take(i as int);
        let ghost tb = cv.take(i + 1);
        assert(tb =~= ta.push(cv[i as int]));
        assert forall|y: Seq<char>|
            string_views(r@).contains(y) <==> tb.contains(y) by {
            if tb.contains(y) {
                let k = choose|k: int| 0 <= k < tb.len() && #[trigger] tb[k] == y;
                if k < i {
                    assert(ta[k] == y);
                }
            }
            if ta.contains(y) {
                let k = choose|k: int| 0 <= k < ta.len() && #[trigger] ta[k] == y;
                assert(tb[k] == y);
            }
            if y == cv[i as int] {
                assert(tb[i as int] == y);
            }
        }
        i += 1;
    }
    assert(cv.take(cands@.len() as int) =~= cv);
    r
}

/// A limit put on the confidence of a probed path.
#[derive(Debug, Clone, Copy, PartialEq, Eq, Structural)]
pub enum ConfidenceCap {
    /// The score stands.
    Unchanged,
    /// System configuration and caches: never above Medium.
    AtMostMedium,
    /// Live state under `/var/lib`: always Low.
    AlwaysLow,
}

/// The confidence after the cap.
pub open spec fn capped(c: Confidence, cap: ConfidenceCap) -> Confidence {
    match cap {
        ConfidenceCap::Unchanged => c,
        ConfidenceCap::AtMostMedium => if rank(c) > rank(Confidence::Medium) { Confidence::Medium } else { c },
        ConfidenceCap::AlwaysLow => Confidence::Low,
    }
}

/// A path to look at for a package, with what a finding there would carry.
#[derive(Debug)]
pub struct Probe {
    pub path: String,
    /// The reasons include the package's executable being gone.
    pub with_exe_gone: bool,
    pub category: Category,
    pub cap: ConfidenceCap,
}

pub struct ProbeView {
    pub path: Seq<char>,
    pub with_exe_gone: bool,
    pub category: Category,
    pub cap: ConfidenceCap,
}

impl View for Probe {
    type V = ProbeView;

    open spec fn view(&self) -> ProbeView {
        ProbeView { path: self.path@, with_exe_gone: self.with_exe_gone, category: self.category, cap: self.cap }
    }
}

pub open spec fn probe_views(v: Seq<Probe>) -> Seq<ProbeView> {
    v.map_values(|p: Probe| p@)
}

pub open spec fn pv(path: Seq<char>, with_exe_gone: bool, category: Category, cap: ConfidenceCap) -> ProbeView {
    ProbeView { path, with_exe_gone, category, cap }
}

/// A directory with the category of what lives in it.
pub open spec fn dir_views(v: Seq<(String, Category)>) -> Seq<(Seq<char>, Category)> {
    v.map_values(|d: (String, Category)| (d.0@, d.1))
}

/// The user's XDG directories under `home`.
pub open spec fn xdg_bases(home: Seq<char>) -> Seq<(Seq<char>, Category)> {
    seq![
        (home + "/.config"@, Category::Config),
        (home + "/.cache"@, Category::Cache),
        (home + "/.local/share"@, Category::Data),
        (home + "/.local/state"@, Category::State),
    ]
}

/// `<dir>/<name>` for each directory, with the executable-gone reason.
pub open spec fn joined_probes(name: Seq<char>, dirs: Seq<(Seq<char>, Category)>) -> Seq<ProbeView>
    decreases dirs.len(),
{
    if dirs.len() == 0 {
        Seq::<ProbeView>::empty()
    } else {
        joined_probes(name, dirs.drop_last()).push(
            pv(path_join(dirs.last().0, name), true, dirs.last().1, ConfidenceCap::Unchanged),
        )
    }
}

/// `~/.<name>` and `~/.<name>rc`.
pub open spec fn dotfile_probes(name: Seq<char>, home: Seq<char>) -> Seq<ProbeView> {
    seq![
        pv(home + "/."@ + name, true, Category::Config, ConfidenceCap::Unchanged),
        pv(home + "/."@ + name + "rc"@, true, Category::Config, ConfidenceCap::Unchanged),
    ]
}

/// `/var/cache`, `/var/log` and `/etc` paths, at most Medium; `/var/lib`, always Low.
pub open spec fn system_probes(name: Seq<char>) -> Seq<ProbeView> {
    seq![
        pv("/var/cache/"@ + name, false, Category::Cache, ConfidenceCap::AtMostMedium),
        pv("/var/log/"@ + name, false, Category::Cache, ConfidenceCap::AtMostMedium),
        pv("/etc/"@ + name, false, Category::Config, ConfidenceCap::AtMostMedium),
        pv("/etc/"@ + name + ".conf"@, false, Category::Config, ConfidenceCap::AtMostMedium),
        pv("/etc/"@ + name + ".d"@, false, Category::Config, ConfidenceCap::AtMostMedium),
        pv("/var/lib/"@ + name, false, Category::State, ConfidenceCap::AlwaysLow),
    ]
}

/// Everything probed for one name: the XDG directories, one level below
/// them (`nested`: their subdirectories, as listed on disk), dot-files and
/// system paths.
pub open spec fn home_probes(name: Seq<char>, home: Seq<char>, nested: Seq<(Seq<char>, Category)>) -> Seq<ProbeView> {
    joined_probes(name, xdg_bases(home)) + joined_probes(name, nested) + dotfile_probes(name, home)
        + system_probes(name)
}

/// The probes for every name, name by name.
pub open spec fn names_probes(names: Seq<Seq<char>>, home: Seq<char>, nested: Seq<(Seq<char>, Category)>) -> Seq<ProbeView>
    decreases names.len(),
{
    if names.len() == 0 {
        Seq::<ProbeView>::empty()
    } else {
        names_probes(names.drop_last(), home, nested) + home_probes(names.last(), home, nested)
    }
}

/// `<root>/<name>` for every extra root and every name, root by root.
pub open spec fn extra_probes(roots: Seq<Seq<char>>, names: Seq<Seq<char>>) -> Seq<ProbeView>
    decreases roots.len(),
{
    if roots.len() == 0 {
        Seq::<ProbeView>::empty()
    } else {
        extra_probes(roots.drop_last(), names) + names.map_values(|n: Seq<char>| pv(path_join(roots.last(), n), true, Category::Data, ConfidenceCap::Unchanged))
    }
}

fn push_probe(v: &mut Vec<Probe>, path: Vec<char>, with_exe_gone: bool, category: Category, cap: ConfidenceCap)
    ensures
        probe_views(final(v)@) == probe_views(old(v)@).push(pv(path@, with_exe_gone, category, cap)),
{
    let ghost before = probe_views(v@);
    v.push(Probe { path: string_from_chars(&path), with_exe_gone, category, cap });
    assert(probe_views(v@) =~= before.push(pv(path@, with_exe_gone, category, cap)));
}

/// The user's XDG directories under `home`.
pub fn xdg_bases_of(home: &str) -> (r: Vec<(String, Category)>)
    ensures
        dir_views(r@) == xdg_bases(home@),
{
    let h = chars_of(home);
    let r = vec![
        (string_from_chars(&concat_chars(&h, &chars_of("/.config"))), Category::Config),
        (string_from_chars(&concat_chars(&h, &chars_of("/.cache"))), Category::Cache),
        (string_from_chars(&concat_chars(&h, &chars_of("/.local/share"))), Category::Data),
        (string_from_chars(&concat_chars(&h, &chars_of("/.local/state"))), Category::State),
    ];
    assert(dir_views(r@) =~= xdg_bases(home@));
    r
}

/// `<dir>/<name>` for each directory.
fn joined(name: &[char], dirs: &[(String, Category)], out: &mut Vec<Probe>)
    ensures
        probe_views(final(out)@) == probe_views(old(out)@) + joined_probes(name@, dir_views(dirs@)),
{
    let ghost dv = dir_views(dirs@);
    let ghost start = probe_views(out@);
    let mut i: usize = 0;
    while i < dirs.len()
        invariant
            i <= dirs@.len(),
            dv == dir_views(dirs@),
            probe_views(out@) == start + joined_probes(name@, dv.take(i as int)),
        decreases dirs.len() - i,
    {
        let p = join_path(&chars_of(dirs[i].0.as_str()), name);
        assert(dv.take(i + 1).drop_last() =~= dv.take(i as int));
        push_probe(out, p, true, dirs[i].1, ConfidenceCap::Unchanged);
        i += 1;
    }
    assert(dv.take(dirs@.len() as int) =~= dv);
}

/// Direct XDG check: `~/.config/<name>`, `~/.cache/<name>`, etc.
pub fn check_xdg_direct(name: &str, candidates: &[(String, Category)]) -> (r: Vec<Probe>)
    ensures
        probe_views(r@) == joined_probes(name@, dir_views(candidates@)),
{
    let mut r: Vec<Probe> = Vec::new();
    joined(&chars_of(name), candidates, &mut r);
    assert(Seq::<ProbeView>::empty() + joined_probes(name@, dir_views(candidates@)) =~= joined_probes(name@, dir_views(candidates@)));
    r
}

/// One level deeper than XDG: catches `~/.config/BraveSoftware/Brave-Origin-Nightly`
/// where the immediate XDG child is a vendor name and the app data lives
/// nested. `subdirs` are the subdirectories of the XDG directories, with their
/// directory's category.
pub fn check_xdg_vendor_nested(name: &str, subdirs: &[(String, Category)]) -> (r: Vec<Probe>)
    ensures
        probe_views(r@) == joined_probes(name@, dir_views(subdirs@)),
{
    check_xdg_direct(name, subdirs)
}

/// Legacy `~/.<name>` and `~/.<name>rc` dot-files.
pub fn check_dotfiles(name: &str, home: &str) -> (r: Vec<Probe>)
    ensures
        probe_views(r@) == dotfile_probes(name@, home@),
{
    let n = chars_of(name);
    let dot = concat_chars(&concat_chars(&chars_of(home), &chars_of("/.")), &n);
    let rc = concat_chars(&dot, &chars_of("rc"));
    let mut r: Vec<Probe> = Vec::new();
    push_probe(&mut r, dot, true, Category::Config, ConfidenceCap::Unchanged);
    push_probe(&mut r, rc, true, Category::Config, ConfidenceCap::Unchanged);
    assert(probe_views(r@) =~= dotfile_probes(name@, home@));
    r
}

/// System paths: `/var/cache`, `/var/log`, `/etc` (at most Medium) and
/// `/var/lib` (always Low: live state data, dangerous to auto-remove).
pub fn check_system_paths(name: &str) -> (r: Vec<Probe>)
    ensures
        probe_views(r@) == system_probes(name@),
{
    let n = chars_of(name);
    let etc = concat_chars(&chars_of("/etc/"), &n);
    let mut r: Vec<Probe> = Vec::new();
    push_probe(&mut r, concat_chars(&chars_of("/var/cache/"), &n), false, Category::Cache, ConfidenceCap::AtMostMedium);
    push_probe(&mut r, concat_chars(&chars_of("/var/log/"), &n), false, Category::Cache, ConfidenceCap::AtMostMedium);
    push_probe(&mut r, concat_chars(&etc, &Vec::new()), false, Category::Config, ConfidenceCap::AtMostMedium);
    push_probe(&mut r, concat_chars(&etc, &chars_of(".conf")), false, Category::Config, ConfidenceCap::AtMostMedium);
    push_probe(&mut r, concat_chars(&etc, &chars_of(".d")), false, Category::Config, ConfidenceCap::AtMostMedium);
    push_probe(&mut r, concat_chars(&chars_of("/var/lib/"), &n), false, Category::State, ConfidenceCap::AlwaysLow);
    assert(etc@ + Seq::<char>::empty() =~= etc@);
    assert(probe_views(r@) =~= system_probes(name@));
    r
}

fn append_probes(out: &mut Vec<Probe>, more: Vec<Probe>)
    ensures
        probe_views(final(out)@) == probe_views(old(out)@) + probe_views(more@),
{
    let mut more = more;
    let ghost a = out@;
    let ghost b = more@;
    out.append(&mut more);
    assert(probe_views(out@) =~= probe_views(a) + probe_views(b));
}

/// Everything probed for one name under the user's home and the system
/// directories.
pub fn check_home_paths(name: &str, home: &str, nested: &[(String, Category)]) -> (r: Vec<Probe>)
    ensures
        probe_views(r@) == home_probes(name@, home@, dir_views(nested@)),
{
    let bases = xdg_bases_of(home);
    let mut r = check_xdg_direct(name, &bases);
    append_probes(&mut r, check_xdg_vendor_nested(name, nested));
    append_probes(&mut r, check_dotfiles(name, home));
    append_probes(&mut r, check_system_paths(name));
    r
}

/// The probes for the given names and extra roots.
pub fn probes_for_names(names: &Vec<String>, home: &str, nested: &[(String, Category)], extra_roots: &Vec<String>) -> (r: Vec<Probe>)
    ensures
        probe_views(r@) == names_probes(string_views(names@), home@, dir_views(nested@)) + extra_probes(
            string_views(extra_roots@),
            string_views(names@),
        ),
{
    let ghost nv = string_views(names@);
    let ghost ev = string_views(extra_roots@);
    let mut r: Vec<Probe> = Vec::new();
    let mut i: usize = 0;
    while i < names.len()
        invariant
            i <= names@.len(),
            nv == string_views(names@),
            probe_views(r@) == names_probes(nv.take(i as int), home@, dir_views(nested@)),
        decreases names.len() - i,
    {
        assert(nv.take(i + 1).drop_last() =~= nv.take(i as int));
        append_probes(&mut r, check_home_paths(names[i].as_str(), home, nested));
        i += 1;
    }
    assert(nv.take(names@.len() as int) =~= nv);
    let ghost head = probe_views(r@);
    let mut j: usize = 0;
    assert(head + extra_probes(ev.take(0), nv) =~= head);
    while j < extra_roots.len()
        invariant
            j <= extra_roots@.len(),
            nv == string_views(names@),
            ev == string_views(extra_roots@),
            probe_views(r@) == head + extra_probes(ev.take(j as int), nv),
        decreases extra_roots.len() - j,
    {
        let root = chars_of(extra_roots[j].as_str());
        let ghost before = probe_views(r@);
        let mut k: usize = 0;
        while k < names.len()
            invariant
                k <= names@.len(),
                nv == string_views(names@),
                root@ == ev[j as int],
                probe_views(r@) == before + nv.take(k as int).map_values(
                    |n: Seq<char>| pv(path_join(ev[j as int], n), true, Category::Data, ConfidenceCap::Unchanged),
                ),
            decreases names.len() - k,
        {
            let p = join_path(&root, &chars_of(names[k].as_str()));
            push_probe(&mut r, p, true, Category::Data, ConfidenceCap::Unchanged);
            assert(nv.take(k + 1).map_values(
                |n: Seq<char>| pv(path_join(ev[j as int], n), true, Category::Data, ConfidenceCap::Unchanged),
            ) =~= nv.take(k as int).map_values(
                |n: Seq<char>| pv(path_join(ev[j as int], n), true, Category::Data, ConfidenceCap::Unchanged),
            ).push(pv(path_join(ev[j as int], nv[k as int]), true, Category::Data, ConfidenceCap::Unchanged)));
            k += 1;
        }
        assert(nv.take(names@.len() as int) =~= nv);
        assert(ev.take(j + 1).drop_last() =~= ev.take(j as int));
        assert(ev.take(j + 1).last() == ev[j as int]);
        j += 1;
    }
    assert(ev.take(extra_roots@.len() as int) =~= ev);
    r
}

proof fn lemma_plain_candidates(pkg: Seq<char>)
    requires
        !has_char(pkg, '/'),
        !has_char(pkg, '\0'),
    ensures
        forall|i: int|
            0 <= i < exe_candidate_names(pkg).len() ==> !has_char(#[trigger] exe_candidate_names(pkg)[i], '/')
                && !has_char(exe_candidate_names(pkg)[i], '\0'),
{
    let s = stripped_name(pkg);
    lemma_stripped_is_prefix(pkg, 0);
    let all = seq![s, remove_char(s, '-'), replace_char(s, '_', '-'), replace_char(s, '-', '_')];
    assert(!has_char(s, '/') && !has_char(s, '\0')) by {
        if has_char(s, '/') {
            let k = choose|k: int| 0 <= k < s.len() && s[k] == '/';
            assert(pkg[k] == '/');
        }
        if has_char(s, '\0') {
            let k = choose|k: int| 0 <= k < s.len() && s[k] == '\0';
            assert(pkg[k] == '\0');
        }
    }
    assert forall|j: int| 0 <= j < 4 implies !has_char(#[trigger] all[j], '/') && !has_char(all[j], '\0') by {
        if j == 1 {
            crate::text::lemma_remove_char_adds_none(s, '-', '/');
            crate::text::lemma_remove_char_adds_none(s, '-', '\0');
        }
        if j == 2 || j == 3 {
            let f = all[j];
            if has_char(f, '/') {
                let k = choose|k: int| 0 <= k < f.len() && f[k] == '/';
                assert(s[k] == '/');
            }
            if has_char(f, '\0') {
                let k = choose|k: int| 0 <= k < f.len() && f[k] == '\0';
                assert(s[k] == '\0');
            }
        }
    }
    lemma_first_occurrences(all);
    assert forall|i: int| 0 <= i < exe_candidate_names(pkg).len() implies !has_char(#[trigger] exe_candidate_names(pkg)[i], '/')
        && !has_char(exe_candidate_names(pkg)[i], '\0') by {
        assert(first_occurrences(all).contains(exe_candidate_names(pkg)[i]));
        let k = choose|k: int| 0 <= k < all.len() && all[k] == exe_candidate_names(pkg)[i];
    }
}

proof fn lemma_stripped_is_prefix(name: Seq<char>, k: int)
    requires
        0 <= k <= 5,
    ensures
        stripped_name_from(name, k).len() <= name.len(),
        forall|i: int| 0 <= i < stripped_name_from(name, k).len() ==> #[trigger] stripped_name_from(name, k)[i] == name[i],
    decreases 5 - k,
{
    if k < 5 && !crate::text::has_suffix(name, crate::exec_check::aur_suffixes()[k]) {
        lemma_stripped_is_prefix(name, k + 1);
    }
}

/// The probes for a removed package, given whether its executable is gone:
/// none when the package is ignored or its executable is still there;
/// otherwise, for the names its name (without AUR suffix) suggests, sorted,
/// everything under the home and system directories, then under the extra
/// roots.
pub fn probes_for_package(pkg: &str, ctx: &ScanContext, nested: &[(String, Category)], exe_gone: bool) -> (r: Vec<Probe>)
    ensures
        (string_views(ctx.config.ignore.packages@).contains(pkg@) || !exe_gone) ==> r@.len() == 0,
        !(string_views(ctx.config.ignore.packages@).contains(pkg@) || !exe_gone) ==> exists|names: Seq<Seq<char>>|
            sorted_strictly(names) && (forall|y: Seq<char>|
                names.contains(y) <==> variant_candidates(stripped_name(pkg@)).contains(y))
                && probe_views(r@) == names_probes(names, ctx.home_dir@, dir_views(nested@))
                + extra_probes(string_views(ctx.config.scan_paths_extra@), names),
{
    if package_is_ignored(pkg, &ctx.config.ignore.packages) || !exe_gone {
        return Vec::new();
    }
    let stripped = strip_aur_suffix(pkg);
    let names = name_variants(stripped.as_str());
    probes_for_names(&names, ctx.home_dir.as_str(), nested, &ctx.config.scan_paths_extra)
}

/// The probes for a removed package: asks whether one of its executable
/// names is still on `PATH` (skipped for an ignored package), then as
/// [`probes_for_package`]. An ignored package gets none.
pub fn package_probes(pkg: &str, ctx: &ScanContext, nested: &[(String, Category)]) -> (r: Vec<Probe>)
    requires
        !string_views(ctx.config.ignore.packages@).contains(pkg@) ==> plain_package_name(pkg@),
    ensures
        string_views(ctx.config.ignore.packages@).contains(pkg@) ==> r@.len() == 0,
        r@.len() == 0 || exists|names: Seq<Seq<char>>|
            sorted_strictly(names) && (forall|y: Seq<char>|
                names.contains(y) <==> variant_candidates(stripped_name(pkg@)).contains(y))
                && probe_views(r@) == names_probes(names, ctx.home_dir@, dir_views(nested@))
                + extra_probes(string_views(ctx.config.scan_paths_extra@), names),
{
    if package_is_ignored(pkg, &ctx.config.ignore.packages) {
        return Vec::new();
    }
    let exe_names = exe_candidates(pkg);
    proof {
        lemma_plain_candidates(pkg@);
        assert forall|i: int| 0 <= i < exe_names@.len() implies !has_char(#[trigger] exe_names@[i]@, '/')
            && !has_char(exe_names@[i]@, '\0') by {
            assert(exe_names@[i]@ == exe_candidate_names(pkg@)[i]);
        }
        assert(exe_names@.len() > 0) by {
            let st = stripped_name(pkg@);
            lemma_first_occurrences(seq![st, remove_char(st, '-'), replace_char(st, '_', '-'), replace_char(st, '-', '_')]);
        }
    }
    let gone = executable_gone(&exe_names);
    probes_for_package(pkg, ctx, nested, gone)
}

/// The reasons a probe's finding carries: an exact name match, and the
/// package's executable being gone when the probe says so.
pub open spec fn probe_reasons(with_exe_gone: bool, pkg: Seq<char>) -> Seq<ReasonView> {
    if with_exe_gone {
        seq![ReasonView::ExactNameMatch, ReasonView::ExecutableGone(pkg)]
    } else {
        seq![ReasonView::ExactNameMatch]
    }
}

/// The finding a probe gives: none if the path is ignored or does not exist
/// (`exists`: its metadata could be read without following links);
/// otherwise one scored from the probe's reasons, the size and the home,
/// with the probe's cap applied.
pub open spec fn probe_finding(
    p: ProbeView,
    pkg: Seq<char>,
    ignored: Seq<String>,
    home: Seq<char>,
    exists: bool,
    size_bytes: u64,
) -> Option<FindingView> {
    if is_ignored_path(p.path, ignored) || !exists {
        None
    } else {
        let rs = probe_reasons(p.with_exe_gone, pkg);
        Some(
            FindingView {
                path: p.path,
                size_bytes,
                package: pkg,
                confidence: capped(confidence_for(rs, p.path, size_bytes, home), p.cap),
                reasons: rs,
                category: p.category,
                file_count: 0,
            },
        )
    }
}

/// The finding at a probed path, from what the filesystem showed of it.
pub fn probe(p: &Probe, pkg: &str, config: &Config, home_dir: &str, exists: bool, size_bytes: u64) -> (r: Option<Finding>)
    ensures
        opt_finding_view(r) == probe_finding(p@, pkg@, config.ignore.paths@, home_dir@, exists, size_bytes),
{
    if path_is_ignored(p.path.as_str(), &config.ignore.paths) || !exists {
        return None;
    }
    let mut reasons: Vec<Reason> = Vec::new();
    reasons.push(Reason::ExactNameMatch);
    if p.with_exe_gone {
        reasons.push(Reason::ExecutableGone(string_from_chars(&chars_of(pkg))));
    }
    assert(reason_views(reasons@) =~= probe_reasons(p.with_exe_gone, pkg@));
    let scored = score(&reasons, p.path.as_str(), size_bytes, home_dir);
    let confidence = match p.cap {
        ConfidenceCap::Unchanged => scored,
        ConfidenceCap::AtMostMedium => if crate::scanners::confidence_rank(scored) > 1 {
            Confidence::Medium
        } else {
            scored
        },
        ConfidenceCap::AlwaysLow => Confidence::Low,
    };
    Some(Finding {
        path: string_from_chars(&chars_of(p.path.as_str())),
        size_bytes,
        package: string_from_chars(&chars_of(pkg)),
        confidence,
        reasons,
        category: p.category,
        file_count: 0,
    })
}

/// The probes planned for one removed package.
pub struct PackageProbes {
    pub package: String,
    pub probes: Vec<Probe>,
}

/// The scanner that probes the paths a package's name suggests.
pub struct NameHeuristicScanner;

/// A package name that can be looked up as an executable: non-empty, with
/// no `/` and no NUL.
pub open spec fn plain_package_name(pkg: Seq<char>) -> bool {
    pkg.len() > 0 && !has_char(pkg, '/') && !has_char(pkg, '\0')
}

/// The findings of one package's probes, in order, from what the filesystem
/// showed of each (`seen`: whether it exists, and its size).
pub open spec fn package_findings(
    pkg: Seq<char>,
    probes: Seq<ProbeView>,
    seen: Seq<(bool, u64)>,
    ignored: Seq<String>,
    home: Seq<char>,
) -> Seq<FindingView>
    decreases probes.len(),
{
    if probes.len() == 0 {
        Seq::<FindingView>::empty()
    } else {
        let k = probes.len() - 1;
        let before = package_findings(pkg, probes.drop_last(), seen, ignored, home);
        match probe_finding(probes[k], pkg, ignored, home, seen[k].0, seen[k].1) {
            Some(f) => before.push(f),
            None => before,
        }
    }
}

/// The findings of a scan, package by package.
pub open spec fn scan_findings(
    plan: Seq<PackageProbes>,
    seen: Seq<Vec<(bool, u64)>>,
    ignored: Seq<String>,
    home: Seq<char>,
) -> Seq<FindingView>
    decreases plan.len(),
{
    if plan.len() == 0 {
        Seq::<FindingView>::empty()
    } else {
        let k = plan.len() - 1;
        scan_findings(plan.drop_last(), seen, ignored, home) + package_findings(
            plan[k].package@,
            probe_views(plan[k].probes@),
            seen[k]@,
            ignored,
            home,
        )
    }
}

impl NameHeuristicScanner {
    pub fn name(&self) -> (r: &'static str)
        ensures
            r@ == "name_heuristic"@,
    {
        "name_heuristic"
    }

    /// The probes of a scan: for each removed package, in order, those of
    /// [`package_probes`].
    pub fn plan(&self, ctx: &ScanContext, nested: &[(String, Category)]) -> (r: Vec<PackageProbes>)
        requires
            ctx.removed_packages@.len() > 0,
            forall|i: int|
                0 <= i < ctx.removed_packages@.len() && !string_views(ctx.config.ignore.packages@).contains(
                    #[trigger] ctx.removed_packages@[i]@,
                ) ==> plain_package_name(ctx.removed_packages@[i]@),
        ensures
            r@.len() == ctx.removed_packages@.len(),
            forall|i: int| 0 <= i < r@.len() ==> {
                let pkg = #[trigger] ctx.removed_packages@[i]@;
                let ps = r@[i].probes@;
                &&& r@[i].package@ == pkg
                &&& string_views(ctx.config.ignore.packages@).contains(pkg) ==> ps.len() == 0
                &&& ps.len() == 0 || exists|names: Seq<Seq<char>>|
                    sorted_strictly(names) && (forall|y: Seq<char>|
                        names.contains(y) <==> variant_candidates(stripped_name(pkg)).contains(y))
                        && probe_views(ps) == names_probes(names, ctx.home_dir@, dir_views(nested@))
                        + extra_probes(string_views(ctx.config.scan_paths_extra@), names)
            },
    {
        let mut r: Vec<PackageProbes> = Vec::new();
        let mut i: usize = 0;
        while i < ctx.removed_packages.len()
            invariant
                i <= ctx.removed_packages@.len(),
                r@.len() == i,
                forall|k: int|
                    0 <= k < ctx.removed_packages@.len() && !string_views(ctx.config.ignore.packages@).contains(
                        #[trigger] ctx.removed_packages@[k]@,
                    ) ==> plain_package_name(ctx.removed_packages@[k]@),
                forall|k: int| 0 <= k < i ==> {
                    let pkg = #[trigger] ctx.removed_packages@[k]@;
                    let ps = r@[k].probes@;
                    &&& r@[k].package@ == pkg
                    &&& string_views(ctx.config.ignore.packages@).contains(pkg) ==> ps.len() == 0
                    &&& ps.len() == 0 || exists|names: Seq<Seq<char>>|
                        sorted_strictly(names) && (forall|y: Seq<char>|
                            names.contains(y) <==> variant_candidates(stripped_name(pkg)).contains(y))
                            && probe_views(ps) == names_probes(names, ctx.home_dir@, dir_views(nested@))
                            + extra_probes(string_views(ctx.config.scan_paths_extra@), names)
                },
            decreases ctx.removed_packages.len() - i,
        {
            let pkg = ctx.removed_packages[i].as_str();
            let probes = package_probes(pkg, ctx, nested);
            r.push(PackageProbes { package: string_from_chars(&chars_of(pkg)), probes });
            i += 1;
        }
        r
    }

    /// The findings of a scan, from what the filesystem showed of each
    /// planned probe (`seen[i][j]`: whether probe `j` of package `i` exists,
    /// and its size), package by package and probe by probe.
    pub fn findings(&self, ctx: &ScanContext, plan: &[PackageProbes], seen: &[Vec<(bool, u64)>]) -> (r: Vec<Finding>)
        requires
            seen@.len() == plan@.len(),
            forall|i: int| 0 <= i < plan@.len() ==> (#[trigger] seen@[i])@.len() == plan@[i].probes@.len(),
        ensures
            finding_views(r@) == scan_findings(plan@, seen@, ctx.config.ignore.paths@, ctx.home_dir@),
    {
        let ghost ign = ctx.config.ignore.paths@;
        let ghost home = ctx.home_dir@;
        let mut r: Vec<Finding> = Vec::new();
        let mut i: usize = 0;
        while i < plan.len()
            invariant
                i <= plan@.len(),
                seen@.len() == plan@.len(),
                ign == ctx.config.ignore.paths@,
                home == ctx.home_dir@,
                forall|k: int| 0 <= k < plan@.len() ==> (#[trigger] seen@[k])@.len() == plan@[k].probes@.len(),
                finding_views(r@) == scan_findings(plan@.take(i as int), seen@, ign, home),
            decreases plan.len() - i,
        {
            let pp = &plan[i];
            let sv = &seen[i];
            let ghost pv = probe_views(pp.probes@);
            let ghost base = finding_views(r@);
            let mut j: usize = 0;
            while j < pp.probes.len()
                invariant
                    j <= pp.probes@.len(),
                    sv@.len() == pp.probes@.len(),
                    pv == probe_views(pp.probes@),
                    ign == ctx.config.ignore.paths@,
                    home == ctx.home_dir@,
                    finding_views(r@) == base + package_findings(pp.package@, pv.take(j as int), sv@, ign, home),
                decreases pp.probes.len() - j,
            {
                let ghost before = finding_views(r@);
                let (exists, size) = sv[j];
                let f = probe(&pp.probes[j], pp.package.as_str(), &ctx.config, ctx.home_dir.as_str(), exists, size);
                assert(pv.take(j + 1).drop_last() =~= pv.take(j as int));
                assert(pv.take(j + 1)[j as int] == pp.probes@[j as int]@);
                match f {
                    Some(f) => {
                        r.push(f);
                        assert(finding_views(r@) =~= before.push(f@));
                    },
                    None => {},
                }
                j += 1;
            }
            assert(pv.take(pv.len() as int) =~= pv);
            assert(plan@.take(i + 1).drop_last() =~= plan@.take(i as int));
            assert(plan@.take(i + 1)[i as int] == plan@[i as int]);
            i += 1;
        }
        assert(plan@.take(plan@.len() as int) =~= plan@);
        r
    }
}

/// A probed path over 1 GB, or under `/var/lib/`, `/srv/` or `/opt/`, is
/// found at Low confidence, whatever its reasons and cap.
pub proof fn law_probed_large_or_state_paths_are_low(
    p: ProbeView,
    pkg: Seq<char>,
    ignored: Seq<String>,
    home: Seq<char>,
    size_bytes: u64,
)
    requires
        size_bytes > crate::confidence::LARGE_BYTES || crate::confidence::spec_is_state_path(p.path),
    ensures
        probe_finding(p, pkg, ignored, home, true, size_bytes) matches Some(f) ==> f.confidence == Confidence::Low,
{
}

proof fn lemma_joined_under(base: Seq<char>, home: Seq<char>, name: Seq<char>)
    requires
        has_prefix(base, home),
        base.len() > home.len(),
        base.last() != '/',
        !has_prefix(name, "/"@),
    ensures
        has_prefix(path_join(base, name), home),
{
    let j = path_join(base, name);
    assert(j == base + "/"@ + name);
    assert(j.take(home.len() as int) =~= base.take(home.len() as int));
}

/// The name heuristic looks in a user's home only through the home directory
/// it is given: every probe in the XDG directories and every dot-file probe
/// lies under `home`, for any package name that is not itself an absolute
/// path.
pub proof fn law_home_probes_lie_under_home(name: Seq<char>, home: Seq<char>)
    requires
        !has_prefix(name, "/"@),
    ensures
        forall|i: int|
            0 <= i < joined_probes(name, xdg_bases(home)).len() ==> has_prefix(
                #[trigger] joined_probes(name, xdg_bases(home))[i].path,
                home,
            ),
        forall|i: int|
            0 <= i < dotfile_probes(name, home).len() ==> has_prefix(#[trigger] dotfile_probes(name, home)[i].path, home),
{
    reveal_strlit("/.config");
    reveal_strlit("/.cache");
    reveal_strlit("/.local/share");
    reveal_strlit("/.local/state");
    reveal_strlit("/.");
    reveal_strlit("rc");
    let b = xdg_bases(home);
    reveal_with_fuel(joined_probes, 5);
    assert forall|k: int| 0 <= k < 4 implies has_prefix(#[trigger] b[k].0, home) && b[k].0.len() > home.len()
        && b[k].0.last() != '/' by {
        assert(b[k].0.take(home.len() as int) =~= home);
    }
    lemma_joined_under(b[0].0, home, name);
    lemma_joined_under(b[1].0, home, name);
    lemma_joined_under(b[2].0, home, name);
    lemma_joined_under(b[3].0, home, name);
    let j = joined_probes(name, b);
    assert(b.drop_last().drop_last().drop_last().drop_last().len() == 0);
    assert(j.len() == 4);
    assert(j[0].path == path_join(b[0].0, name));
    assert(j[1].path == path_join(b[1].0, name));
    assert(j[2].path == path_join(b[2].0, name));
    assert(j[3].path == path_join(b[3].0, name));
    let d = dotfile_probes(name, home);
    assert(d[0].path.take(home.len() as int) =~= home);
    assert(d[1].path.take(home.len() as int) =~= home);
}

/// A package is looked for under its name as given, with every `-` written
/// `_`, with every `_` written `-`, and with the `-` left out.
pub proof fn law_variants_include_separator_spellings(base: Seq<char>)
    ensures
        variant_candidates(base).contains(base),
        variant_candidates(base).contains(replace_char(base, '-', '_')),
        variant_candidates(base).contains(replace_char(base, '_', '-')),
        variant_candidates(base).contains(remove_char(base, '-')),
{
    let v = variant_candidates(base);
    assert(v[0] == base);
    assert(v[1] == replace_char(base, '-', '_'));
    assert(v[2] == replace_char(base, '_', '-'));
    assert(v[3] == remove_char(base, '-'));
}

} // verus!
