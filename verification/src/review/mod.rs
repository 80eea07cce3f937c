//! Review of findings: collapsing fully orphaned directories, ordering,
//! grouping by package, the labels shown and what is selected by default.
use vstd::prelude::*;
use crate::config::AutoConfirmLevel;
use crate::review::collapse::{collapse_to_dirs, collapse_groups_fit, collapsed_view, finding_comps, is_collapse_order, lemma_select_prefix_sum_le, lemma_select_sum_le, lemma_sum_sizes_nonneg, lemma_sum_sizes_concat, listed_comps, select, sum_sizes};
use crate::scanners::{copy_reasons, finding_views, rank, reason_views, Confidence, Finding, FindingView, Reason, ReasonView};
use crate::text::{chars_of, concat_chars, decimal, decimal_chars, join, join_chars, string_from_chars, string_views};
use crate::util::{binary_size_text, format_bytes};

pub mod collapse;

verus! {

/// Whether a finding of this confidence is selected before the user
/// chooses: never with `Never`; High only with `High`; High and Medium with
/// `Medium`; everything with `Low`.
pub open spec fn default_checked(c: Confidence, level: AutoConfirmLevel) -> bool {
    match level {
        AutoConfirmLevel::Never => false,
        AutoConfirmLevel::High => c == Confidence::High,
        AutoConfirmLevel::Medium => c == Confidence::High || c == Confidence::Medium,
        AutoConfirmLevel::Low => true,
    }
}

/// Whether a finding of this confidence is selected by default.
pub fn should_default_checked(confidence: Confidence, level: &AutoConfirmLevel) -> (b: bool)
    ensures
        b == default_checked(confidence, *level),
{
    match level {
        AutoConfirmLevel::Never => false,
        AutoConfirmLevel::High => match confidence {
            Confidence::High => true,
            _ => false,
        },
        AutoConfirmLevel::Medium => match confidence {
            Confidence::Low => false,
            _ => true,
        },
        AutoConfirmLevel::Low => true,
    }
}

/// The findings selected by default at `level`, in order.
pub open spec fn checked_at(fs: Seq<FindingView>, level: AutoConfirmLevel) -> Seq<FindingView> {
    select(fs, |f: FindingView| default_checked(f.confidence, level))
}

/// The paths of the findings selected by default at `level`, in order.
pub fn auto_select(findings: &[Finding], level: &AutoConfirmLevel) -> (r: Vec<String>)
    ensures
        string_views(r@) == checked_at(finding_views(findings@), *level).map_values(|f: FindingView| f.path),
{
    let ghost fv = finding_views(findings@);
    let ghost p = |f: FindingView| default_checked(f.confidence, *level);
    let mut r: Vec<String> = Vec::new();
    let mut i: usize = 0;
    while i < findings.len()
        invariant
            i <= findings@.len(),
            fv == finding_views(findings@),
            p == (|f: FindingView| default_checked(f.confidence, *level)),
            string_views(r@) == select(fv.take(i as int), p).map_values(|f: FindingView| f.path),
        decreases findings.len() - i,
    {
        let ghost before = string_views(r@);
        assert(fv.take(i + 1).drop_last() =~= fv.take(i as int));
        assert(fv.take(i + 1).last() == fv[i as int]);
        if should_default_checked(findings[i].confidence, level) {
            r.push(findings[i].path.clone());
            assert(select(fv.take(i + 1), p) == select(fv.take(i as int), p).push(fv[i as int]));
            assert(string_views(r@) =~= before.push(fv[i as int].path));
            assert(select(fv.take(i + 1), p).map_values(|f: FindingView| f.path) =~= select(
                fv.take(i as int),
                p,
            ).map_values(|f: FindingView| f.path).push(fv[i as int].path));
        }
        i += 1;
    }
    assert(fv.take(findings@.len() as int) =~= fv);
    r
}

/// `a` is reviewed before `b`: higher confidence first, then larger size.
pub open spec fn reviewed_before(a: FindingView, b: FindingView) -> bool {
    rank(a.confidence) > rank(b.confidence) || (rank(a.confidence) == rank(b.confidence) && a.size_bytes
        > b.size_bytes)
}

/// The position at which `x` enters `s`: before the first element that it
/// is reviewed before, else at the end.
pub open spec fn entry_point(s: Seq<FindingView>, x: FindingView) -> nat
    decreases s.len(),
{
    if s.len() == 0 || reviewed_before(x, s[0]) {
        0
    } else {
        1 + entry_point(s.skip(1), x)
    }
}

/// `x` put into `s` at its entry point.
pub open spec fn enter(s: Seq<FindingView>, x: FindingView) -> Seq<FindingView> {
    s.take(entry_point(s, x) as int) + seq![x] + s.skip(entry_point(s, x) as int)
}

/// The review order of a list: a stable sort by confidence, highest first,
/// then by size, largest first. Each finding, in input order, enters the
/// list built so far behind everything it is not reviewed before.
pub open spec fn review_order(s: Seq<FindingView>) -> Seq<FindingView>
    decreases s.len(),
{
    if s.len() == 0 {
        s
    } else {
        enter(review_order(s.drop_last()), s.last())
    }
}

/// In review order: no finding is reviewed before one ahead of it.
pub open spec fn in_review_order(s: Seq<FindingView>) -> bool {
    forall|i: int, j: int| 0 <= i < j < s.len() ==> !reviewed_before(#[trigger] s[j], #[trigger] s[i])
}

proof fn lemma_entry_point(s: Seq<FindingView>, x: FindingView)
    ensures
        entry_point(s, x) <= s.len(),
        forall|j: int| 0 <= j < entry_point(s, x) ==> !reviewed_before(x, #[trigger] s[j]),
        entry_point(s, x) < s.len() ==> reviewed_before(x, s[entry_point(s, x) as int]),
    decreases s.len(),
{
    if s.len() > 0 && !reviewed_before(x, s[0]) {
        lemma_entry_point(s.skip(1), x);
        assert forall|j: int| 0 <= j < entry_point(s, x) implies !reviewed_before(x, #[trigger] s[j]) by {
            if j > 0 {
                assert(s[j] == s.skip(1)[j - 1]);
            }
        }
    }
}

proof fn lemma_entry_point_unique(s: Seq<FindingView>, x: FindingView, p: int)
    requires
        0 <= p <= s.len(),
        forall|j: int| 0 <= j < p ==> !reviewed_before(x, #[trigger] s[j]),
        p < s.len() ==> reviewed_before(x, s[p]),
    ensures
        entry_point(s, x) == p,
{
    lemma_entry_point(s, x);
    let e = entry_point(s, x) as int;
    if e < p {
        assert(!reviewed_before(x, s[e]));
    } else if p < e {
        assert(!reviewed_before(x, s[p]));
    }
}

proof fn lemma_enter_keeps_order(s: Seq<FindingView>, x: FindingView)
    requires
        in_review_order(s),
    ensures
        in_review_order(enter(s, x)),
        enter(s, x).to_multiset() == s.to_multiset().insert(x),
{
    lemma_entry_point(s, x);
    let p = entry_point(s, x) as int;
    let r = enter(s, x);
    assert(r.len() == s.len() + 1);
    assert forall|i: int, j: int| 0 <= i < j < r.len() implies !reviewed_before(#[trigger] r[j], #[trigger] r[i]) by {
        if j < p {
            assert(r[i] == s[i] && r[j] == s[j]);
        } else if j == p {
            assert(r[j] == x && r[i] == s[i]);
        } else if i > p {
            assert(r[i] == s[i - 1] && r[j] == s[j - 1]);
        } else if i == p {
            assert(r[i] == x && r[j] == s[j - 1]);
            assert(reviewed_before(x, s[p]));
            assert(!reviewed_before(s[j - 1], s[p]));
        } else {
            assert(r[i] == s[i] && r[j] == s[j - 1]);
        }
    }
    assert(r =~= s.insert(p, x));
    vstd::seq_lib::to_multiset_insert(s, p, x);
}

/// The review order is sorted: confidence from High down, and within a
/// confidence, size from largest down.
pub proof fn law_review_order_is_sorted(s: Seq<FindingView>)
    ensures
        in_review_order(review_order(s)),
    decreases s.len(),
{
    if s.len() > 0 {
        law_review_order_is_sorted(s.drop_last());
        lemma_enter_keeps_order(review_order(s.drop_last()), s.last());
    }
}

/// The review order is a rearrangement: it holds each finding as often as
/// the input does.
pub proof fn law_review_order_is_permutation(s: Seq<FindingView>)
    ensures
        review_order(s).to_multiset() == s.to_multiset(),
    decreases s.len(),
{
    if s.len() > 0 {
        law_review_order_is_permutation(s.drop_last());
        law_review_order_is_sorted(s.drop_last());
        lemma_enter_keeps_order(review_order(s.drop_last()), s.last());
        assert(s.drop_last().push(s.last()) =~= s);
        vstd::seq_lib::to_multiset_build(s.drop_last(), s.last());
    }
}

/// Whether `a` is reviewed before `b`.
fn is_reviewed_before(a: &Finding, b: &Finding) -> (r: bool)
    ensures
        r == reviewed_before(a@, b@),
{
    let ra = crate::scanners::confidence_rank(a.confidence);
    let rb = crate::scanners::confidence_rank(b.confidence);
    ra > rb || (ra == rb && a.size_bytes > b.size_bytes)
}

/// The findings in review order: confidence High first, then by size,
/// largest first; findings that tie keep their order.
pub fn sort_for_review(findings: Vec<Finding>) -> (r: Vec<Finding>)
    ensures
        finding_views(r@) == review_order(finding_views(findings@)),
{
    let ghost fv = finding_views(findings@);
    let mut rest = findings;
    let mut out: Vec<Finding> = Vec::new();
    let mut taken: usize = 0;
    let n = rest.len();
    let mut queue: Vec<Finding> = Vec::new();
    // Take the findings in input order.
    while rest.len() > 0
        invariant
            finding_views(queue@) + finding_views(rest@).reverse() == fv.reverse(),
        decreases rest.len(),
    {
        let ghost before_q = finding_views(queue@);
        let ghost before_r = finding_views(rest@);
        let f = rest.pop().unwrap();
        queue.push(f);
        assert(before_r =~= finding_views(rest@).push(before_r.last()));
        assert(finding_views(queue@) =~= before_q.push(before_r.last()));
        assert(before_r.reverse() =~= seq![before_r.last()] + finding_views(rest@).reverse());
        assert(finding_views(queue@) + finding_views(rest@).reverse() =~= before_q + before_r.reverse());
    }
    assert(finding_views(queue@) =~= fv.reverse());
    while queue.len() > 0
        invariant
            taken + queue@.len() == n,
            n == fv.len(),
            finding_views(queue@) == fv.skip(taken as int).reverse(),
            finding_views(out@) == review_order(fv.take(taken as int)),
        decreases queue.len(),
    {
        let f = queue.pop().unwrap();
        let ghost x = f@;
        assert(x == fv[taken as int]) by {
            assert(fv.skip(taken as int).reverse().last() == fv.skip(taken as int)[0]);
        }
        let ghost ov = finding_views(out@);
        let mut p: usize = 0;
        while p < out.len() && !is_reviewed_before(&f, &out[p])
            invariant
                p <= out@.len(),
                ov == finding_views(out@),
                x == f@,
                forall|j: int| 0 <= j < p ==> !reviewed_before(x, #[trigger] ov[j]),
            decreases out.len() - p,
        {
            p += 1;
        }
        proof {
            lemma_entry_point_unique(ov, x, p as int);
        }
        out.insert(p, f);
        assert(finding_views(out@) =~= enter(ov, x));
        assert(fv.take(taken + 1).drop_last() =~= fv.take(taken as int));
        assert(fv.skip(taken as int).reverse().drop_last() =~= fv.skip(taken + 1).reverse());
        taken += 1;
    }
    assert(fv.take(n as int) =~= fv);
    out
}

/// The short label of a reason in the review list.
pub open spec fn reason_label(r: ReasonView) -> Seq<char> {
    match r {
        ReasonView::InXdgDatabase => "xdg_db"@,
        ReasonView::ExecutableGone(_) => "exe_gone"@,
        ReasonView::ExactNameMatch => "name_match"@,
        ReasonView::PkgnameSubstringMatch => "substr_match"@,
        ReasonView::PacmanOrphan => "orphan"@,
        ReasonView::NotAccessedFor(_) => "not_accessed"@,
        ReasonView::UserAllowlist => "allowlist"@,
    }
}

/// The labels of the reasons joined with ` + `.
pub open spec fn reasons_text(rs: Seq<ReasonView>) -> Seq<char> {
    join(rs.map_values(|r: ReasonView| reason_label(r)), " + "@)
}

fn reason_label_chars(r: &Reason) -> (c: Vec<char>)
    ensures
        c@ == reason_label(r@),
{
    match r {
        Reason::InXdgDatabase => chars_of("xdg_db"),
        Reason::ExecutableGone(_) => chars_of("exe_gone"),
        Reason::ExactNameMatch => chars_of("name_match"),
        Reason::PkgnameSubstringMatch => chars_of("substr_match"),
        Reason::PacmanOrphan => chars_of("orphan"),
        Reason::NotAccessedFor(_) => chars_of("not_accessed"),
        Reason::UserAllowlist => chars_of("allowlist"),
    }
}

/// The reasons of a finding as the review list shows them, e.g.
/// `xdg_db + exe_gone`.
pub fn format_reasons(reasons: &[Reason]) -> (r: String)
    ensures
        r@ == reasons_text(reason_views(reasons@)),
{
    let ghost rv = reason_views(reasons@);
    let mut parts: Vec<Vec<char>> = Vec::new();
    let mut i: usize = 0;
    while i < reasons.len()
        invariant
            i <= reasons@.len(),
            rv == reason_views(reasons@),
            parts@.map_values(|v: Vec<char>| v@) == rv.take(i as int).map_values(|r: ReasonView| reason_label(r)),
        decreases reasons.len() - i,
    {
        let ghost before = parts@.map_values(|v: Vec<char>| v@);
        parts.push(reason_label_chars(&reasons[i]));
        assert(parts@.map_values(|v: Vec<char>| v@) =~= before.push(reason_label(rv[i as int])));
        assert(rv.take(i + 1).map_values(|r: ReasonView| reason_label(r)) =~= rv.take(i as int).map_values(
            |r: ReasonView| reason_label(r),
        ).push(reason_label(rv[i as int])));
        i += 1;
    }
    assert(rv.take(reasons@.len() as int) =~= rv);
    string_from_chars(&join_chars(&parts, &chars_of(" + ")))
}

/// The colour a confidence is shown in, and its name padded to six columns.
pub open spec fn confidence_badge(c: Confidence) -> (Seq<char>, Seq<char>) {
    match c {
        Confidence::High => ("\x1b[32m"@, "High  "@),
        Confidence::Medium => ("\x1b[33m"@, "Medium"@),
        Confidence::Low => ("\x1b[31m"@, "Low   "@),
    }
}

/// The line a finding is listed with:
/// `<confidence>  <path> (<size>[, <n> files])  [<reasons>]`, the confidence
/// in its colour, the size in cyan and the reasons dimmed; a collapsed entry
/// shows its path with a trailing `/` and the number of files.
pub open spec fn finding_label(f: FindingView) -> Seq<char> {
    let (color, label) = confidence_badge(f.confidence);
    let size = binary_size_text(f.size_bytes);
    let path_part = if f.file_count > 0 {
        f.path + "/ ("@ + "\x1b[36m"@ + size + ", "@ + decimal(f.file_count as nat) + " files"@ + "\x1b[0m"@ + ")"@
    } else {
        f.path + " ("@ + "\x1b[36m"@ + size + "\x1b[0m"@ + ")"@
    };
    color + label + "\x1b[0m"@ + "  "@ + path_part + "  "@ + "\x1b[2m"@ + "["@ + reasons_text(f.reasons) + "]"@
        + "\x1b[0m"@
}

fn cat(a: Vec<char>, b: &[char]) -> (r: Vec<char>)
    ensures
        r@ == a@ + b@,
{
    concat_chars(&a, b)
}

/// The line a finding is listed with in the review.
pub fn format_finding(f: &Finding) -> (r: String)
    ensures
        r@ == finding_label(f@),
{
    let (color, label) = match f.confidence {
        Confidence::High => ("\x1b[32m", "High  "),
        Confidence::Medium => ("\x1b[33m", "Medium"),
        Confidence::Low => ("\x1b[31m", "Low   "),
    };
    let reset = chars_of("\x1b[0m");
    let cyan = chars_of("\x1b[36m");
    let size = chars_of(format_bytes(f.size_bytes).as_str());
    let path = chars_of(f.path.as_str());
    let path_part = if f.file_count > 0 {
        let a = cat(cat(cat(cat(path, &chars_of("/ (")), &cyan), &size), &chars_of(", "));
        let b = cat(cat(cat(a, &decimal_chars(f.file_count)), &chars_of(" files")), &reset);
        cat(b, &chars_of(")"))
    } else {
        cat(cat(cat(cat(cat(path, &chars_of(" (")), &cyan), &size), &reset), &chars_of(")"))
    };
    let reasons = chars_of(format_reasons(&f.reasons).as_str());
    let a = cat(cat(cat(cat(chars_of(color), &chars_of(label)), &reset), &chars_of("  ")), &path_part);
    let b = cat(cat(cat(cat(a, &chars_of("  ")), &chars_of("\x1b[2m")), &chars_of("[")), &reasons);
    let r = cat(cat(b, &chars_of("]")), &reset);
    let ghost fl = finding_label(f@);
    assert(r@ =~= fl);
    string_from_chars(&r)
}

/// The findings of one package.
pub struct PackageGroup {
    pub package: String,
    pub findings: Vec<Finding>,
}

/// The packages the groups are for, in order.
pub open spec fn group_keys(g: Seq<PackageGroup>) -> Seq<Seq<char>> {
    g.map_values(|x: PackageGroup| x.package@)
}

/// The finding is of package `p`.
pub open spec fn of_package(p: Seq<char>) -> spec_fn(FindingView) -> bool {
    |f: FindingView| f.package == p
}

/// Some finding of `fs` is of package `p` and comes before every finding of
/// package `q`.
pub open spec fn appears_before(fs: Seq<FindingView>, p: Seq<char>, q: Seq<char>) -> bool {
    exists|i: int|
        0 <= i < fs.len() && #[trigger] fs[i].package == p && forall|j: int|
            0 <= j <= i ==> (#[trigger] fs[j]).package != q
}

/// `g` groups the findings `fs` by package: one group per package, in the
/// order the packages first appear, each holding that package's findings in
/// order.
pub open spec fn groups_findings(g: Seq<PackageGroup>, fs: Seq<FindingView>) -> bool {
    let keys = group_keys(g);
    &&& keys.no_duplicates()
    &&& forall|k: int| 0 <= k < g.len() ==> finding_views((#[trigger] g[k]).findings@) == select(fs, of_package(g[k].package@))
    &&& forall|i: int| 0 <= i < fs.len() ==> keys.contains((#[trigger] fs[i]).package)
    &&& forall|k: int| 0 <= k < keys.len() ==> exists|i: int| 0 <= i < fs.len() && (#[trigger] fs[i]).package == #[trigger] keys[k]
    &&& forall|k1: int, k2: int| 0 <= k1 < k2 < keys.len() ==> appears_before(fs, #[trigger] keys[k1], #[trigger] keys[k2])
}

proof fn lemma_select_push(s: Seq<FindingView>, x: FindingView, p: spec_fn(FindingView) -> bool)
    ensures
        select(s.push(x), p) == if p(x) { select(s, p).push(x) } else { select(s, p) },
{
    assert(s.push(x).drop_last() =~= s);
}

/// The findings grouped by package, the packages in the order they first
/// appear.
pub fn group_by_package(findings: &[Finding]) -> (r: Vec<PackageGroup>)
    ensures
        groups_findings(r@, finding_views(findings@)),
{
    let ghost fv = finding_views(findings@);
    let mut r: Vec<PackageGroup> = Vec::new();
    let mut i: usize = 0;
    while i < findings.len()
        invariant
            i <= findings@.len(),
            fv == finding_views(findings@),
            groups_findings(r@, fv.take(i as int)),
        decreases findings.len() - i,
    {
        let ghost t = fv.take(i as int);
        let ghost t1 = fv.take(i + 1);
        let ghost x = fv[i as int];
        let ghost old_r = r@;
        let ghost keys = group_keys(r@);
        assert(t1 =~= t.push(x));
        let f = findings[i].clone();
        let pkg = chars_of(f.package.as_str());
        let mut k: usize = 0;
        while k < r.len() && !crate::text::chars_eq(&chars_of(r[k].package.as_str()), &pkg)
            invariant
                k <= r@.len(),
                r@ == old_r,
                keys == group_keys(r@),
                pkg@ == x.package,
                forall|j: int| 0 <= j < k ==> keys[j] != x.package,
            decreases r.len() - k,
        {
            k += 1;
        }
        if k < r.len() {
            let mut g = r.remove(k);
            g.findings.push(f);
            r.insert(k, g);
            proof {
                assert(keys[k as int] == x.package);
                assert(group_keys(r@) =~= keys);
                assert forall|m: int| 0 <= m < r@.len() implies finding_views((#[trigger] r@[m]).findings@) == select(t1, of_package(r@[m].package@)) by {
                    lemma_select_push(t, x, of_package(r@[m].package@));
                    if m == k {
                        assert(finding_views(r@[m].findings@) =~= finding_views(old_r[m].findings@).push(x));
                    } else {
                        assert(r@[m] == old_r[m]);
                        assert(keys[m] != keys[k as int]);
                    }
                }
                assert forall|j: int| 0 <= j < t1.len() implies group_keys(r@).contains((#[trigger] t1[j]).package) by {
                    if j < t.len() {
                        assert(t1[j] == t[j]);
                    } else {
                        assert(keys[k as int] == t1[j].package);
                    }
                }
                assert forall|m: int| 0 <= m < keys.len() implies exists|j: int| 0 <= j < t1.len() && (#[trigger] t1[j]).package == #[trigger] keys[m] by {
                    let j = choose|j: int| 0 <= j < t.len() && (#[trigger] t[j]).package == keys[m];
                    assert(t1[j] == t[j]);
                }
                assert forall|k1: int, k2: int| 0 <= k1 < k2 < keys.len() implies appears_before(t1, #[trigger] keys[k1], #[trigger] keys[k2]) by {
                    assert(appears_before(t, keys[k1], keys[k2]));
                    let j = choose|j: int| 0 <= j < t.len() && #[trigger] t[j].package == keys[k1] && forall|m: int| 0 <= m <= j ==> (#[trigger] t[m]).package != keys[k2];
                    assert(t1[j] == t[j]);
                    assert forall|m: int| 0 <= m <= j implies (#[trigger] t1[m]).package != keys[k2] by {
                        assert(t1[m] == t[m]);
                    }
                }
            }
        } else {
            let mut fs: Vec<Finding> = Vec::new();
            fs.push(f);
            r.push(PackageGroup { package: string_from_chars(&pkg), findings: fs });
            proof {
                let nk = group_keys(r@);
                assert(nk =~= keys.push(x.package));
                assert(!keys.contains(x.package)) by {
                    if keys.contains(x.package) {
                        let j = choose|j: int| 0 <= j < keys.len() && keys[j] == x.package;
                        assert(keys[j] != x.package);
                    }
                }
                assert(nk.no_duplicates()) by {
                    assert forall|a: int, b: int| 0 <= a < nk.len() && 0 <= b < nk.len() && a != b implies nk[a] != nk[b] by {
                        if a < keys.len() && b < keys.len() {
                        } else if a < keys.len() {
                            assert(nk[a] == keys[a]);
                        } else {
                            assert(nk[b] == keys[b]);
                        }
                    }
                }
                assert forall|m: int| 0 <= m < r@.len() implies finding_views((#[trigger] r@[m]).findings@) == select(t1, of_package(r@[m].package@)) by {
                    lemma_select_push(t, x, of_package(r@[m].package@));
                    if m == keys.len() {
                        lemma_select_none(t, x.package);
                        assert(finding_views(r@[m].findings@) =~= Seq::<FindingView>::empty().push(x));
                    } else {
                        assert(r@[m] == old_r[m]);
                        assert(keys[m] != x.package);
                    }
                }
                assert forall|j: int| 0 <= j < t1.len() implies nk.contains((#[trigger] t1[j]).package) by {
                    if j < t.len() {
                        assert(t1[j] == t[j]);
                        let q = choose|q: int| 0 <= q < keys.len() && keys[q] == t[j].package;
                        assert(nk[q] == keys[q]);
                    } else {
                        assert(nk[keys.len() as int] == x.package);
                    }
                }
                assert forall|m: int| 0 <= m < nk.len() implies exists|j: int| 0 <= j < t1.len() && (#[trigger] t1[j]).package == #[trigger] nk[m] by {
                    if m < keys.len() {
                        let j = choose|j: int| 0 <= j < t.len() && (#[trigger] t[j]).package == keys[m];
                        assert(t1[j] == t[j]);
                    } else {
                        assert(t1[i as int] == x);
                    }
                }
                assert forall|k1: int, k2: int| 0 <= k1 < k2 < nk.len() implies appears_before(t1, #[trigger] nk[k1], #[trigger] nk[k2]) by {
                    if k2 < keys.len() {
                        assert(appears_before(t, keys[k1], keys[k2]));
                        let j = choose|j: int| 0 <= j < t.len() && #[trigger] t[j].package == keys[k1] && forall|m: int| 0 <= m <= j ==> (#[trigger] t[m]).package != keys[k2];
                        assert(t1[j] == t[j]);
                        assert forall|m: int| 0 <= m <= j implies (#[trigger] t1[m]).package != nk[k2] by {
                            assert(t1[m] == t[m]);
                        }
                    } else {
                        let j = choose|j: int| 0 <= j < t.len() && (#[trigger] t[j]).package == keys[k1];
                        assert(t1[j] == t[j]);
                        assert forall|m: int| 0 <= m <= j implies (#[trigger] t1[m]).package != nk[k2] by {
                            assert(t1[m] == t[m]);
                            assert(keys.contains(t[m].package));
                        }
                    }
                }
            }
        }
        i += 1;
    }
    assert(fv.take(findings@.len() as int) =~= fv);
    r
}

proof fn lemma_select_none(s: Seq<FindingView>, p: Seq<char>)
    requires
        forall|j: int| 0 <= j < s.len() ==> (#[trigger] s[j]).package != p,
    ensures
        select(s, of_package(p)) == Seq::<FindingView>::empty(),
    decreases s.len(),
{
    if s.len() > 0 {
        lemma_select_none(s.drop_last(), p);
    }
}

/// The positions of the findings selected by default, in order.
pub open spec fn checked_positions(fs: Seq<FindingView>, level: AutoConfirmLevel) -> Seq<usize>
    decreases fs.len(),
{
    if fs.len() == 0 {
        Seq::<usize>::empty()
    } else {
        let r = checked_positions(fs.drop_last(), level);
        if default_checked(fs.last().confidence, level) {
            r.push((fs.len() - 1) as usize)
        } else {
            r
        }
    }
}

/// What the user is asked about one package: its findings with the line
/// each is listed with, which are selected by default, and how many bytes
/// those add up to.
pub struct PackageReview {
    pub group: PackageGroup,
    pub labels: Vec<String>,
    pub default_indices: Vec<usize>,
    pub preselected_bytes: u64,
}

/// `r` is the review of `group` at `level`.
pub open spec fn reviews_group(r: PackageReview, group: PackageGroup, level: AutoConfirmLevel) -> bool {
    let fs = finding_views(group.findings@);
    &&& r.group.package@ == group.package@
    &&& finding_views(r.group.findings@) == fs
    &&& string_views(r.labels@) == fs.map_values(|f: FindingView| finding_label(f))
    &&& r.default_indices@ == checked_positions(fs, level)
    &&& r.preselected_bytes == sum_sizes(checked_at(fs, level))
}

/// The review of one package's findings.
pub fn package_review(group: PackageGroup, level: &AutoConfirmLevel) -> (r: PackageReview)
    requires
        sum_sizes(checked_at(finding_views(group.findings@), *level)) <= u64::MAX,
    ensures
        reviews_group(r, group, *level),
{
    let ghost fv = finding_views(group.findings@);
    let ghost p = |f: FindingView| default_checked(f.confidence, *level);
    let mut labels: Vec<String> = Vec::new();
    let mut idx: Vec<usize> = Vec::new();
    let mut total: u64 = 0;
    let mut i: usize = 0;
    while i < group.findings.len()
        invariant
            i <= fv.len(),
            fv == finding_views(group.findings@),
            p == (|f: FindingView| default_checked(f.confidence, *level)),
            sum_sizes(select(fv, p)) <= u64::MAX,
            string_views(labels@) == fv.take(i as int).map_values(|f: FindingView| finding_label(f)),
            idx@ == checked_positions(fv.take(i as int), *level),
            total == sum_sizes(select(fv.take(i as int), p)),
        decreases group.findings.len() - i,
    {
        let f = &group.findings[i];
        let ghost t = fv.take(i as int);
        let ghost t1 = fv.take(i + 1);
        assert(t1.drop_last() =~= t);
        assert(t1.last() == fv[i as int]);
        let ghost before = string_views(labels@);
        labels.push(format_finding(f));
        assert(string_views(labels@) =~= before.push(finding_label(fv[i as int])));
        assert(t1.map_values(|f: FindingView| finding_label(f)) =~= t.map_values(|f: FindingView| finding_label(f)).push(
            finding_label(fv[i as int]),
        ));
        proof {
            lemma_select_push(t, fv[i as int], p);
            assert(t.push(fv[i as int]) =~= t1);
        }
        if should_default_checked(f.confidence, level) {
            proof {
                lemma_select_prefix_sum_le(fv, p, i + 1);
                let st = select(t, p);
                assert(st.push(fv[i as int]).drop_last() =~= st);
            }
            idx.push(i);
            total = total + f.size_bytes;
        }
        i += 1;
    }
    assert(fv.take(fv.len() as int) =~= fv);
    PackageReview { group, labels, default_indices: idx, preselected_bytes: total }
}

/// Putting findings in review order neither adds nor loses bytes.
pub proof fn law_review_order_keeps_total_bytes(s: Seq<FindingView>)
    ensures
        sum_sizes(review_order(s)) == sum_sizes(s),
    decreases s.len(),
{
    if s.len() > 0 {
        law_review_order_keeps_total_bytes(s.drop_last());
        let o = review_order(s.drop_last());
        let x = s.last();
        lemma_entry_point(o, x);
        let p = entry_point(o, x) as int;
        lemma_sum_sizes_concat(o.take(p) + seq![x], o.skip(p));
        lemma_sum_sizes_concat(o.take(p), seq![x]);
        lemma_sum_sizes_concat(o.take(p), o.skip(p));
        assert(o.take(p) + o.skip(p) =~= o);
        assert(seq![x].drop_last() =~= Seq::<FindingView>::empty());
        assert(seq![x].len() == 1 && seq![x].last() == x);
        assert(sum_sizes(Seq::<FindingView>::empty()) == 0);
        assert(sum_sizes(seq![x]) == x.size_bytes);
        assert(review_order(s) == enter(o, x));
        assert(sum_sizes(enter(o, x)) == sum_sizes(o) + x.size_bytes);
    }
}

/// The findings after collapsing: unchanged when fewer than two, otherwise
/// collapsed along some order of the collapse points, shallowest first.
pub open spec fn collapse_of(fs: Seq<FindingView>, orphan_dirs: Seq<String>, c: Seq<FindingView>) -> bool {
    if fs.len() < 2 {
        c == fs
    } else {
        exists|order: Seq<Seq<Seq<char>>>|
            is_collapse_order(finding_comps(fs), listed_comps(orphan_dirs), order) && c == collapsed_view(fs, order)
    }
}

/// What the review comes to: the paths selected without asking, or the
/// packages to ask the user about, one by one.
pub enum ReviewStep {
    Selected(Vec<String>),
    Ask(Vec<PackageReview>),
}

/// The reviews ask about the findings `fs` at `level`: package by package,
/// in the order the packages first appear.
pub open spec fn asks_about(rs: Seq<PackageReview>, fs: Seq<FindingView>, level: AutoConfirmLevel) -> bool {
    let groups = rs.map_values(|r: PackageReview| r.group);
    &&& groups_findings(groups, fs)
    &&& forall|k: int| 0 <= k < rs.len() ==> reviews_group(#[trigger] rs[k], rs[k].group, level)
}

/// Collapses the findings under fully orphaned directories (`orphan_dirs`,
/// as the filesystem showed them), puts them in review order (confidence,
/// then size, highest first), then: when the run is non-interactive or the
/// output is not a terminal, selects the findings at or above the
/// auto-confirm level; otherwise hands back one review per package for the
/// user to choose from.
pub fn interactive_review(
    findings: Vec<Finding>,
    orphan_dirs: &[String],
    auto_confirm_level: &AutoConfirmLevel,
    non_interactive: bool,
    is_terminal: bool,
) -> (r: ReviewStep)
    requires
        findings@.len() > 0,
        collapse_groups_fit(finding_views(findings@), listed_comps(orphan_dirs@)),
        !(non_interactive || !is_terminal) ==> forall|c: Seq<FindingView>, pkg: Seq<char>|
            collapse_of(finding_views(findings@), orphan_dirs@, c) ==> #[trigger] sum_sizes(
                checked_at(select(review_order(c), of_package(pkg)), *auto_confirm_level),
            ) <= u64::MAX,
    ensures
        exists|c: Seq<FindingView>|
            collapse_of(finding_views(findings@), orphan_dirs@, c) && match r {
                ReviewStep::Selected(paths) => (non_interactive || !is_terminal) && string_views(paths@)
                    == checked_at(review_order(c), *auto_confirm_level).map_values(|f: FindingView| f.path),
                ReviewStep::Ask(rs) => !(non_interactive || !is_terminal) && asks_about(
                    rs@,
                    review_order(c),
                    *auto_confirm_level,
                ),
            },
{
    let ghost fv = finding_views(findings@);
    let collapsed = collapse_to_dirs(findings, orphan_dirs);
    let ghost c = finding_views(collapsed@);
    assert(collapse_of(fv, orphan_dirs@, c));
    let sorted = sort_for_review(collapsed);
    let ghost so = finding_views(sorted@);
    proof {
        lemma_sum_sizes_nonneg(so);
    }
    if non_interactive || !is_terminal {
        return ReviewStep::Selected(auto_select(&sorted, auto_confirm_level));
    }
    let groups = group_by_package(&sorted);
    let ghost gv = groups@;
    let mut rest = groups;
    let mut backwards: Vec<PackageReview> = Vec::new();
    while rest.len() > 0
        invariant
            rest@.len() <= gv.len(),
            rest@ == gv.take(rest@.len() as int),
            groups_findings(gv, so),
            forall|pkg: Seq<char>|
                #[trigger] sum_sizes(checked_at(select(so, of_package(pkg)), *auto_confirm_level)) <= u64::MAX,
            sum_sizes(so) >= 0,
            backwards@.len() + rest@.len() == gv.len(),
            forall|k: int| 0 <= k < backwards@.len() ==> (#[trigger] backwards@[k]).group.package@ == gv[gv.len() - 1 - k].package@
                && finding_views(backwards@[k].group.findings@) == finding_views(gv[gv.len() - 1 - k].findings@)
                && reviews_group(backwards@[k], backwards@[k].group, *auto_confirm_level),
        decreases rest.len(),
    {
        let g = rest.pop().unwrap();
        let ghost k = rest@.len() as int;
        assert(g == gv[k]);
        proof {
            lemma_select_sum_le(so, of_package(g.package@));
        }
        assert(finding_views(g.findings@) == select(so, of_package(g.package@)));
        assert(sum_sizes(checked_at(select(so, of_package(g.package@)), *auto_confirm_level)) <= u64::MAX);
        let pr = package_review(g, auto_confirm_level);
        backwards.push(pr);
        assert(gv.take(k) =~= gv.take(k + 1).drop_last());
    }
    let mut reviews: Vec<PackageReview> = Vec::new();
    while backwards.len() > 0
        invariant
            backwards@.len() + reviews@.len() == gv.len(),
            groups_findings(gv, so),
            forall|k: int| 0 <= k < backwards@.len() ==> (#[trigger] backwards@[k]).group.package@ == gv[gv.len() - 1 - k].package@
                && finding_views(backwards@[k].group.findings@) == finding_views(gv[gv.len() - 1 - k].findings@)
                && reviews_group(backwards@[k], backwards@[k].group, *auto_confirm_level),
            forall|k: int| 0 <= k < reviews@.len() ==> (#[trigger] reviews@[k]).group.package@ == gv[k].package@
                && finding_views(reviews@[k].group.findings@) == finding_views(gv[k].findings@)
                && reviews_group(reviews@[k], reviews@[k].group, *auto_confirm_level),
        decreases backwards.len(),
    {
        let ghost k = reviews@.len() as int;
        let pr = backwards.pop().unwrap();
        assert(backwards@.len() == gv.len() - 1 - k);
        reviews.push(pr);
    }
    proof {
        let groups2 = reviews@.map_values(|r: PackageReview| r.group);
        assert(group_keys(groups2) =~= group_keys(gv));
        assert forall|k: int| 0 <= k < groups2.len() implies finding_views((#[trigger] groups2[k]).findings@) == select(so, of_package(groups2[k].package@)) by {
            assert(groups2[k] == reviews@[k].group);
        }
        let keys = group_keys(groups2);
        assert forall|i: int| 0 <= i < so.len() implies keys.contains((#[trigger] so[i]).package) by {}
        assert(keys.no_duplicates());
        assert forall|k: int| 0 <= k < keys.len() implies exists|i: int| 0 <= i < so.len() && (#[trigger] so[i]).package == #[trigger] keys[k] by {
            assert(keys[k] == group_keys(gv)[k]);
        }
        assert forall|k1: int, k2: int| 0 <= k1 < k2 < keys.len() implies appears_before(so, #[trigger] keys[k1], #[trigger] keys[k2]) by {
            assert(keys[k1] == group_keys(gv)[k1]);
            assert(keys[k2] == group_keys(gv)[k2]);
        }
        assert(groups_findings(groups2, so));
        assert(asks_about(reviews@, so, *auto_confirm_level));
        assert(collapse_of(fv, orphan_dirs@, c));
    }
    ReviewStep::Ask(reviews)
}

/// The picked entry at position `i` of the list, if there is one.
pub open spec fn picked_paths(fs: Seq<FindingView>, picks: Seq<usize>) -> Seq<Seq<char>>
    decreases picks.len(),
{
    if picks.len() == 0 {
        Seq::<Seq<char>>::empty()
    } else {
        let r = picked_paths(fs, picks.drop_last());
        if picks.last() < fs.len() { r.push(fs[picks.last() as int].path) } else { r }
    }
}

/// The paths of the findings at the positions the user picked, in the order
/// picked; a position past the end is skipped.
pub fn selected_paths(findings: &[Finding], picks: &[usize]) -> (r: Vec<String>)
    ensures
        string_views(r@) == picked_paths(finding_views(findings@), picks@),
{
    let ghost fv = finding_views(findings@);
    let mut r: Vec<String> = Vec::new();
    let mut i: usize = 0;
    while i < picks.len()
        invariant
            i <= picks@.len(),
            fv == finding_views(findings@),
            string_views(r@) == picked_paths(fv, picks@.take(i as int)),
        decreases picks.len() - i,
    {
        assert(picks@.take(i + 1).drop_last() =~= picks@.take(i as int));
        let ghost before = string_views(r@);
        if picks[i] < findings.len() {
            r.push(findings[picks[i]].path.clone());
            assert(string_views(r@) =~= before.push(fv[picks@[i as int] as int].path));
        }
        i += 1;
    }
    assert(picks@.take(picks@.len() as int) =~= picks@);
    r
}

/// Pre-selection never skips a surer finding: whatever the level, a finding
/// selected at some confidence is selected at every higher one.
pub proof fn law_preselection_is_monotone(c: Confidence, c2: Confidence, level: AutoConfirmLevel)
    requires
        default_checked(c, level),
        rank(c2) >= rank(c),
    ensures
        default_checked(c2, level),
{
}

/// At level Low every finding is pre-selected, and a High finding is
/// pre-selected at every level but Never, where nothing is.
pub proof fn law_preselection_by_level(c: Confidence, level: AutoConfirmLevel)
    ensures
        default_checked(c, AutoConfirmLevel::Low),
        level != AutoConfirmLevel::Never ==> default_checked(Confidence::High, level),
        !default_checked(c, AutoConfirmLevel::Never),
        default_checked(c, AutoConfirmLevel::High) <==> rank(c) == 2,
        default_checked(c, AutoConfirmLevel::Medium) <==> rank(c) >= 1,
{
}

} // verus!
