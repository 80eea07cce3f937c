//! Collapsing the findings under a fully orphaned directory into one entry
//! for that directory.
use vstd::prelude::*;
use crate::path::{
    components, cview, is_proper_ancestor, lemma_components_render, lemma_components_valid, path_components,
    plain_component, prefix_components, proper_ancestor, render, render_components, same_components,
    valid_components,
};
use crate::scanners::{copy_reasons, finding_views, rank, Confidence, Finding, FindingView};
use crate::text::{chars_of, string_from_chars, string_views};

verus! {

/// A directory must have at least this many components before findings are
/// collapsed into it; this keeps shallow roots such as `/usr/lib` out.
pub const COLLAPSE_MIN_COMPONENTS: usize = 5;

/// The component lists held in a vector.
pub open spec fn cviews(v: Vec<Vec<Vec<char>>>) -> Seq<Seq<Seq<char>>> {
    v@.map_values(|d: Vec<Vec<char>>| cview(d))
}

/// `d` is a proper ancestor, deep enough, of one of the paths `cs`.
pub open spec fn is_collapse_candidate(cs: Seq<Seq<Seq<char>>>, d: Seq<Seq<char>>) -> bool {
    d.len() >= COLLAPSE_MIN_COMPONENTS && exists|i: int|
        0 <= i < cs.len() && is_proper_ancestor(d, #[trigger] cs[i])
}

/// A candidate that is listed as fully orphaned.
pub open spec fn is_collapse_point(
    cs: Seq<Seq<Seq<char>>>,
    os: Seq<Seq<Seq<char>>>,
    d: Seq<Seq<char>>,
) -> bool {
    is_collapse_candidate(cs, d) && os.contains(d)
}

/// `order` lists every collapse point once, shallowest first.
pub open spec fn is_collapse_order(
    cs: Seq<Seq<Seq<char>>>,
    os: Seq<Seq<Seq<char>>>,
    order: Seq<Seq<Seq<char>>>,
) -> bool {
    &&& order.no_duplicates()
    &&& forall|d: Seq<Seq<char>>| #[trigger] order.contains(d) <==> is_collapse_point(cs, os, d)
    &&& forall|i: int, j: int| 0 <= i < j < order.len() ==> order[i].len() <= order[j].len()
}

/// The collapse points, shallowest first.
fn collapse_order(cs: &Vec<Vec<Vec<char>>>, os: &Vec<Vec<Vec<char>>>) -> (order: Vec<
    Vec<Vec<char>>,
>)
    ensures
        is_collapse_order(cviews(*cs), cviews(*os), cviews(order)),
{
    let ghost csv = cviews(*cs);
    let ghost osv = cviews(*os);
    let mut maxlen: usize = 0;
    let mut i: usize = 0;
    while i < cs.len()
        invariant
            i <= cs@.len(),
            csv == cviews(*cs),
            forall|j: int| 0 <= j < i ==> csv[j].len() <= maxlen,
        decreases cs.len() - i,
    {
        if cs[i].len() > maxlen {
            maxlen = cs[i].len();
        }
        i += 1;
    }
    let mut order: Vec<Vec<Vec<char>>> = Vec::new();
    let mut k: usize = COLLAPSE_MIN_COMPONENTS;
    while k < maxlen
        invariant
            COLLAPSE_MIN_COMPONENTS <= k,
            csv == cviews(*cs),
            osv == cviews(*os),
            forall|j: int| 0 <= j < csv.len() ==> csv[j].len() <= maxlen,
            cviews(order).no_duplicates(),
            forall|d: Seq<Seq<char>>|
                #[trigger] cviews(order).contains(d) <==> (is_collapse_point(csv, osv, d) && d.len()
                    < k),
            forall|a: int, b: int|
                0 <= a < b < cviews(order).len() ==> cviews(order)[a].len() <= cviews(order)[b].len(),
            forall|a: int| 0 <= a < cviews(order).len() ==> cviews(order)[a].len() < k,
        decreases maxlen - k,
    {
        let mut i: usize = 0;
        while i < cs.len()
            invariant
                COLLAPSE_MIN_COMPONENTS <= k < maxlen,
                i <= cs@.len(),
                csv == cviews(*cs),
                osv == cviews(*os),
                forall|j: int| 0 <= j < csv.len() ==> csv[j].len() <= maxlen,
                cviews(order).no_duplicates(),
                forall|d: Seq<Seq<char>>|
                    #[trigger] cviews(order).contains(d) <==> (is_collapse_point(csv, osv, d) && (
                    d.len() < k || (d.len() == k && exists|j: int|
                        0 <= j < i && is_proper_ancestor(d, #[trigger] csv[j])))),
                forall|a: int, b: int|
                    0 <= a < b < cviews(order).len() ==> cviews(order)[a].len() <= cviews(
                        order,
                    )[b].len(),
                forall|a: int| 0 <= a < cviews(order).len() ==> cviews(order)[a].len() <= k,
            decreases cs.len() - i,
        {
            let ghost old_ord = cviews(order);
            if cs[i].len() > k {
                let d = prefix_components(&cs[i], k);
                let ghost dv = cview(d);
                assert(is_proper_ancestor(dv, csv[i as int])) by {
                    assert(csv[i as int].take(k as int) == dv);
                }
                let mut listed = false;
                let mut j: usize = 0;
                while j < os.len()
                    invariant
                        j <= os@.len(),
                        osv == cviews(*os),
                        dv == cview(d),
                        listed == (exists|t: int| 0 <= t < j && osv[t] == dv),
                    decreases os.len() - j,
                {
                    let same = same_components(&os[j], &d);
                    assert(osv[j as int] == cview(os@[j as int]));
                    if same {
                        listed = true;
                    }
                    proof {
                        if !same {
                            assert forall|t: int| 0 <= t < j + 1 && osv[t] == dv implies t < j by {}
                        }
                    }
                    j += 1;
                }
                let mut present = false;
                let mut t: usize = 0;
                while t < order.len()
                    invariant
                        t <= order@.len(),
                        dv == cview(d),
                        present == (exists|u: int| 0 <= u < t && cviews(order)[u] == dv),
                    decreases order.len() - t,
                {
                    let same = same_components(&order[t], &d);
                    assert(cviews(order)[t as int] == cview(order@[t as int]));
                    if same {
                        present = true;
                    }
                    proof {
                        if !same {
                            assert forall|u: int| 0 <= u < t + 1 && cviews(order)[u] == dv implies u < t by {}
                        }
                    }
                    t += 1;
                }
                proof {
                    assert(listed == osv.contains(dv));
                    assert(present == cviews(order).contains(dv));
                }
                if listed && !present {
                    order.push(d);
                    assert(cviews(order) =~= old_ord.push(dv));
                }
                proof {
                    assert forall|e: Seq<Seq<char>>|
                        #[trigger] cviews(order).contains(e) <==> (is_collapse_point(csv, osv, e) && (
                        e.len() < k || (e.len() == k && exists|j: int|
                            0 <= j < i + 1 && is_proper_ancestor(e, #[trigger] csv[j])))) by {
                        let now = exists|j: int| 0 <= j < i + 1 && is_proper_ancestor(e, #[trigger] csv[j]);
                        let before = exists|j: int| 0 <= j < i && is_proper_ancestor(e, #[trigger] csv[j]);
                        if before {
                            let j0 = choose|j: int| 0 <= j < i && is_proper_ancestor(e, #[trigger] csv[j]);
                            assert(0 <= j0 < i + 1 && is_proper_ancestor(e, csv[j0]));
                        }
                        if now && !before {
                            let j0 = choose|j: int| 0 <= j < i + 1 && is_proper_ancestor(e, #[trigger] csv[j]);
                            assert(j0 == i);
                        }
                        if e.len() == k && is_proper_ancestor(e, csv[i as int]) {
                            assert(csv[i as int].take(k as int) == e);
                            assert(e == dv);
                        }
                        if cviews(order).contains(e) && !old_ord.contains(e) {
                            assert(listed && !present);
                            let u = choose|u: int| 0 <= u < cviews(order).len() && cviews(order)[u] == e;
                            assert(u == old_ord.len());
                            assert(e == dv);
                        }
                        if old_ord.contains(e) {
                            let u = choose|u: int| 0 <= u < old_ord.len() && old_ord[u] == e;
                            assert(cviews(order)[u] == e);
                        }
                        if e == dv && listed && is_collapse_point(csv, osv, e) {
                            if !present {
                                assert(cviews(order)[old_ord.len() as int] == e);
                            }
                        }
                    }
                }
            } else {
                proof {
                    assert forall|e: Seq<Seq<char>>|
                        #[trigger] cviews(order).contains(e) <==> (is_collapse_point(csv, osv, e) && (
                        e.len() < k || (e.len() == k && exists|j: int|
                            0 <= j < i + 1 && is_proper_ancestor(e, #[trigger] csv[j])))) by {
                        if (exists|j: int| 0 <= j < i + 1 && is_proper_ancestor(e, #[trigger] csv[j]))
                            && !(exists|j: int| 0 <= j < i && is_proper_ancestor(e, #[trigger] csv[j])) {
                            assert(is_proper_ancestor(e, csv[i as int]));
                        }
                    }
                }
            }
            i += 1;
        }
        proof {
            assert forall|d: Seq<Seq<char>>|
                #[trigger] cviews(order).contains(d) <==> (is_collapse_point(csv, osv, d) && d.len()
                    < k + 1) by {
                if is_collapse_point(csv, osv, d) && d.len() == k {
                    let j = choose|j: int| 0 <= j < csv.len() && is_proper_ancestor(d, csv[j]);
                    assert(exists|j: int| 0 <= j < cs@.len() && is_proper_ancestor(d, csv[j]));
                }
            }
        }
        k += 1;
    }
    proof {
        assert forall|d: Seq<Seq<char>>|
            #[trigger] cviews(order).contains(d) <==> is_collapse_point(csv, osv, d) by {
            if is_collapse_point(csv, osv, d) {
                let j = choose|j: int| 0 <= j < csv.len() && is_proper_ancestor(d, csv[j]);
                assert(d.len() < csv[j].len());
            }
        }
    }
    order
}

/// The components of a finding's path.
pub open spec fn fcomps(f: FindingView) -> Seq<Seq<char>> {
    components(f.path)
}

/// The component lists of the findings' paths.
pub open spec fn finding_comps(fs: Seq<FindingView>) -> Seq<Seq<Seq<char>>> {
    fs.map_values(|f: FindingView| fcomps(f))
}

/// The component lists of the listed directories.
pub open spec fn listed_comps(os: Seq<String>) -> Seq<Seq<Seq<char>>> {
    os.map_values(|s: String| components(s@))
}

/// The findings that satisfy `p`, in order.
pub open spec fn select(s: Seq<FindingView>, p: spec_fn(FindingView) -> bool) -> Seq<FindingView>
    decreases s.len(),
{
    if s.len() == 0 {
        s
    } else {
        let r = select(s.drop_last(), p);
        if p(s.last()) {
            r.push(s.last())
        } else {
            r
        }
    }
}

/// Sum of the sizes.
pub open spec fn sum_sizes(s: Seq<FindingView>) -> int
    decreases s.len(),
{
    if s.len() == 0 {
        0
    } else {
        sum_sizes(s.drop_last()) + s.last().size_bytes
    }
}

/// Number of files represented.
pub open spec fn sum_counts(s: Seq<FindingView>) -> int
    decreases s.len(),
{
    if s.len() == 0 {
        0
    } else {
        sum_counts(s.drop_last()) + if s.last().file_count > 0 { s.last().file_count as int } else { 1 }
    }
}

/// The lowest confidence of a non-empty list.
pub open spec fn min_confidence(s: Seq<FindingView>) -> Confidence
    decreases s.len(),
{
    if s.len() <= 1 {
        s[0].confidence
    } else {
        let m = min_confidence(s.drop_last());
        if rank(s.last().confidence) < rank(m) {
            s.last().confidence
        } else {
            m
        }
    }
}

/// A directory of `order` before position `k` lies above the path.
pub open spec fn consumed_before(order: Seq<Seq<Seq<char>>>, k: int, c: Seq<Seq<char>>) -> bool {
    exists|j: int| 0 <= j < k && is_proper_ancestor(#[trigger] order[j], c)
}

/// The finding lies under directory `k` of `order` and under none before it.
pub open spec fn group_member(order: Seq<Seq<Seq<char>>>, k: int) -> spec_fn(FindingView) -> bool {
    |f: FindingView| is_proper_ancestor(order[k], fcomps(f)) && !consumed_before(order, k, fcomps(f))
}

/// The finding lies under none of the first `k` directories of `order`.
pub open spec fn untouched_by(order: Seq<Seq<Seq<char>>>, k: int) -> spec_fn(FindingView) -> bool {
    |f: FindingView| !consumed_before(order, k, fcomps(f))
}

/// The single entry that stands for the findings `u` under directory `d`.
pub open spec fn group_entry(d: Seq<Seq<char>>, u: Seq<FindingView>) -> FindingView {
    FindingView {
        path: render(d),
        size_bytes: sum_sizes(u) as u64,
        package: u[0].package,
        confidence: min_confidence(u),
        reasons: u[0].reasons,
        category: u[0].category,
        file_count: u.len() as u64,
    }
}

/// The entries of the first `k` directories of `order` that still had findings.
pub open spec fn collapse_entries(fs: Seq<FindingView>, order: Seq<Seq<Seq<char>>>, k: nat) -> Seq<
    FindingView,
>
    decreases k,
{
    if k == 0 {
        Seq::<FindingView>::empty()
    } else {
        let prev = collapse_entries(fs, order, (k - 1) as nat);
        let u = select(fs, group_member(order, k - 1));
        if u.len() > 0 {
            prev.push(group_entry(order[k - 1], u))
        } else {
            prev
        }
    }
}

/// The findings collapsed along `order`: one entry per directory that took
/// findings, then every finding under none of the directories.
pub open spec fn collapsed_view(fs: Seq<FindingView>, order: Seq<Seq<Seq<char>>>) -> Seq<FindingView> {
    collapse_entries(fs, order, order.len()) + select(fs, untouched_by(order, order.len() as int))
}

pub proof fn lemma_select_sum_le(s: Seq<FindingView>, p: spec_fn(FindingView) -> bool)
    ensures
        0 <= sum_sizes(select(s, p)) <= sum_sizes(s),
        select(s, p).len() <= s.len(),
    decreases s.len(),
{
    if s.len() > 0 {
        lemma_select_sum_le(s.drop_last(), p);
        let r = select(s.drop_last(), p);
        assert(r.push(s.last()).drop_last() =~= r);
    }
}

/// Sizes add up to no less than zero.
pub proof fn lemma_sum_sizes_nonneg(s: Seq<FindingView>)
    ensures
        sum_sizes(s) >= 0,
    decreases s.len(),
{
    if s.len() > 0 {
        lemma_sum_sizes_nonneg(s.drop_last());
    }
}

/// The selected findings of a prefix weigh no more than those of the whole.
pub proof fn lemma_select_prefix_sum_le(s: Seq<FindingView>, p: spec_fn(FindingView) -> bool, i: int)
    requires
        0 <= i <= s.len(),
    ensures
        sum_sizes(select(s.take(i), p)) <= sum_sizes(select(s, p)),
    decreases s.len(),
{
    if i < s.len() {
        assert(s.drop_last().take(i) =~= s.take(i));
        lemma_select_prefix_sum_le(s.drop_last(), p, i);
        let r = select(s.drop_last(), p);
        assert(r.push(s.last()).drop_last() =~= r);
    } else {
        assert(s.take(i) =~= s);
    }
}

/// The sizes of the findings gathered under each directory of every collapse
/// order fit in a `u64`, so each collapsed entry's size can be held.
pub open spec fn collapse_groups_fit(fs: Seq<FindingView>, dirs: Seq<Seq<Seq<char>>>) -> bool {
    forall|order: Seq<Seq<Seq<char>>>, k: int|
        is_collapse_order(finding_comps(fs), dirs, order) && 0 <= k < order.len() ==> #[trigger] sum_sizes(
            select(fs, group_member(order, k)),
        ) <= u64::MAX
}

/// Replaces groups of findings that all live under a fully orphaned directory
/// (one of `orphan_dirs`, as the filesystem showed it) with a single entry for
/// that directory. Directories are taken shallowest first, so the highest
/// collapse point in a chain wins; among directories of the same depth any
/// order may be taken.
pub fn collapse_to_dirs(findings: Vec<Finding>, orphan_dirs: &[String]) -> (r: Vec<Finding>)
    requires
        collapse_groups_fit(finding_views(findings@), listed_comps(orphan_dirs@)),
    ensures
        findings@.len() < 2 ==> finding_views(r@) == finding_views(findings@),
        findings@.len() >= 2 ==> exists|order: Seq<Seq<Seq<char>>>|
            is_collapse_order(
                finding_comps(finding_views(findings@)),
                listed_comps(orphan_dirs@),
                order,
            ) && finding_views(r@) == collapsed_view(finding_views(findings@), order),
{
    let n = findings.len();
    if n < 2 {
        return findings;
    }
    let ghost fv = finding_views(findings@);
    let ghost fcs = finding_comps(fv);
    let mut cs: Vec<Vec<Vec<char>>> = Vec::new();
    let mut i: usize = 0;
    while i < n
        invariant
            n == findings@.len(),
            fv == finding_views(findings@),
            fcs == finding_comps(fv),
            i <= n,
            cviews(cs) == fcs.take(i as int),
        decreases n - i,
    {
        let ghost before = cviews(cs);
        let c = path_components(&chars_of(findings[i].path.as_str()));
        cs.push(c);
        assert(cviews(cs) =~= before.push(fcs[i as int]));
        assert(fcs.take(i + 1) =~= fcs.take(i as int).push(fcs[i as int]));
        i += 1;
    }
    assert(fcs.take(n as int) =~= fcs);
    let ghost ocs = listed_comps(orphan_dirs@);
    let mut os: Vec<Vec<Vec<char>>> = Vec::new();
    let mut j: usize = 0;
    while j < orphan_dirs.len()
        invariant
            ocs == listed_comps(orphan_dirs@),
            j <= orphan_dirs@.len(),
            cviews(os) == ocs.take(j as int),
        decreases orphan_dirs.len() - j,
    {
        let ghost before = cviews(os);
        let c = path_components(&chars_of(orphan_dirs[j].as_str()));
        os.push(c);
        assert(cviews(os) =~= before.push(ocs[j as int]));
        assert(ocs.take(j + 1) =~= ocs.take(j as int).push(ocs[j as int]));
        j += 1;
    }
    assert(ocs.take(orphan_dirs@.len() as int) =~= ocs);
    let order = collapse_order(&cs, &os);
    let ghost ov = cviews(order);
    let mut consumed: Vec<bool> = Vec::new();
    let mut i: usize = 0;
    while i < n
        invariant
            i <= n,
            consumed@.len() == i,
            forall|t: int| 0 <= t < i ==> !consumed@[t],
        decreases n - i,
    {
        consumed.push(false);
        i += 1;
    }
    let mut out: Vec<Finding> = Vec::new();
    let mut kk: usize = 0;
    while kk < order.len()
        invariant
            n == findings@.len(),
            fv == finding_views(findings@),
            fcs == finding_comps(fv),
            cviews(cs) == fcs,
            cs@.len() == n,
            ov == cviews(order),
            ocs == listed_comps(orphan_dirs@),
            is_collapse_order(fcs, ocs, ov),
            collapse_groups_fit(fv, ocs),
            kk <= ov.len(),
            consumed@.len() == n,
            forall|t: int| 0 <= t < n ==> consumed@[t] == consumed_before(ov, kk as int, fcs[t]),
            finding_views(out@) == collapse_entries(fv, ov, kk as nat),
        decreases order.len() - kk,
    {
        let ghost p = group_member(ov, kk as int);
        assert(sum_sizes(select(fv, group_member(ov, kk as int))) <= u64::MAX);
        let mut count: usize = 0;
        let mut sum: u64 = 0;
        let mut minc = Confidence::High;
        let mut rep: usize = 0;
        let mut i: usize = 0;
        while i < n
            invariant
                n == findings@.len(),
                fv == finding_views(findings@),
                fcs == finding_comps(fv),
                cviews(cs) == fcs,
                cs@.len() == n,
                ov == cviews(order),
                kk < ov.len(),
                p == group_member(ov, kk as int),
                sum_sizes(select(fv, p)) <= u64::MAX,
                i <= n,
                consumed@.len() == n,
                forall|t: int|
                    0 <= t < i ==> consumed@[t] == consumed_before(ov, kk + 1, fcs[t]),
                forall|t: int| i <= t < n ==> consumed@[t] == consumed_before(ov, kk as int, fcs[t]),
                count == select(fv.take(i as int), p).len(),
                sum == sum_sizes(select(fv.take(i as int), p)),
                count > 0 ==> (minc == min_confidence(select(fv.take(i as int), p)) && rep < n
                    && fv[rep as int] == select(fv.take(i as int), p)[0]),
            decreases n - i,
        {
            let ghost g = select(fv.take(i as int), p);
            let ghost f = fv[i as int];
            assert(fv.take(i + 1).drop_last() =~= fv.take(i as int));
            assert(fv.take(i + 1).last() == f);
            assert(fcs[i as int] == fcomps(f));
            let anc = proper_ancestor(&order[kk], &cs[i]);
            assert(ov[kk as int] == cview(order@[kk as int]));
            assert(cviews(cs)[i as int] == cview(cs@[i as int]));
            let member = anc && !consumed[i];
            assert(member == p(f));
            if member {
                proof {
                    lemma_select_prefix_sum_le(fv, p, i + 1);
                    lemma_select_sum_le(fv.take(i + 1), p);
                    assert(select(fv.take(i + 1), p) == g.push(f));
                    assert(g.push(f).drop_last() =~= g);
                    assert(findings@[i as int]@ == f);
                }
                let c = findings[i].confidence;
                sum = sum + findings[i].size_bytes;
                count = count + 1;
                if count == 1 {
                    minc = c;
                    rep = i;
                } else if crate::scanners::confidence_rank(c) < crate::scanners::confidence_rank(minc) {
                    minc = c;
                }
                proof {
                    let g2 = select(fv.take(i + 1), p);
                    assert(g2 == g.push(f));
                    if count > 1 {
                        assert(g2.drop_last() == g);
                    } else {
                        assert(g.len() == 0);
                        assert(g2[0] == f);
                    }
                }
            }
            if anc {
                consumed.set(i, true);
            }
            proof {
                assert forall|t: int| 0 <= t < i + 1 implies consumed@[t] == consumed_before(ov, kk + 1, fcs[t]) by {
                    if t == i {
                        if anc {
                            assert(is_proper_ancestor(ov[kk as int], fcs[t]));
                        } else {
                            if consumed_before(ov, kk + 1, fcs[t]) {
                                let j0 = choose|j: int| 0 <= j < kk + 1 && is_proper_ancestor(ov[j], fcs[t]);
                                assert(j0 < kk);
                            }
                        }
                    }
                }
            }
            i += 1;
        }
        assert(fv.take(n as int) =~= fv);
        if count > 0 {
            let ghost before = finding_views(out@);
            let path = string_from_chars(&render_components(&order[kk]));
            let package = findings[rep].package.clone();
            let reasons = copy_reasons(&findings[rep].reasons);
            let entry = Finding {
                path,
                size_bytes: sum,
                package,
                confidence: minc,
                reasons,
                category: findings[rep].category,
                file_count: count as u64,
            };
            proof {
                lemma_select_sum_le(fv, p);
            }
            out.push(entry);
            assert(finding_views(out@) =~= before.push(entry@));
            assert(entry@ == group_entry(ov[kk as int], select(fv, p)));
        }
        proof {
            assert(collapse_entries(fv, ov, (kk + 1) as nat) == if select(fv, p).len() > 0 {
                collapse_entries(fv, ov, kk as nat).push(group_entry(ov[kk as int], select(fv, p)))
            } else {
                collapse_entries(fv, ov, kk as nat)
            });
        }
        kk += 1;
    }
    let ghost q = untouched_by(ov, ov.len() as int);
    let ghost head = finding_views(out@);
    assert(head == collapse_entries(fv, ov, ov.len()));
    assert(select(fv.take(0), q) =~= Seq::<FindingView>::empty());
    assert(head + Seq::<FindingView>::empty() =~= head);
    let mut i: usize = 0;
    while i < n
        invariant
            n == findings@.len(),
            fv == finding_views(findings@),
            fcs == finding_comps(fv),
            ov == cviews(order),
            q == untouched_by(ov, ov.len() as int),
            i <= n,
            consumed@.len() == n,
            forall|t: int| 0 <= t < n ==> consumed@[t] == consumed_before(ov, ov.len() as int, fcs[t]),
            finding_views(out@) == head + select(fv.take(i as int), q),
        decreases n - i,
    {
        let ghost before = finding_views(out@);
        assert(fv.take(i + 1).drop_last() =~= fv.take(i as int));
        assert(fv.take(i + 1).last() == fv[i as int]);
        assert(fcs[i as int] == fcomps(fv[i as int]));
        if !consumed[i] {
            let f = findings[i].clone();
            out.push(f);
            assert(finding_views(out@) =~= before.push(fv[i as int]));
        }
        i += 1;
    }
    assert(fv.take(n as int) =~= fv);
    assert(is_collapse_order(finding_comps(fv), listed_comps(orphan_dirs@), ov));
    assert(finding_views(out@) == collapsed_view(fv, ov));
    out
}

pub proof fn lemma_sum_sizes_concat(a: Seq<FindingView>, b: Seq<FindingView>)
    ensures
        sum_sizes(a + b) == sum_sizes(a) + sum_sizes(b),
        sum_counts(a + b) == sum_counts(a) + sum_counts(b),
    decreases b.len(),
{
    if b.len() == 0 {
        assert(a + b =~= a);
    } else {
        lemma_sum_sizes_concat(a, b.drop_last());
        assert((a + b).drop_last() =~= a + b.drop_last());
    }
}

pub proof fn lemma_select_ext(s: Seq<FindingView>, p1: spec_fn(FindingView) -> bool, p2: spec_fn(FindingView) -> bool)
    requires
        forall|f: FindingView| #[trigger] p1(f) == p2(f),
    ensures
        select(s, p1) == select(s, p2),
    decreases s.len(),
{
    if s.len() > 0 {
        lemma_select_ext(s.drop_last(), p1, p2);
    }
}

pub proof fn lemma_select_split(s: Seq<FindingView>, p: spec_fn(FindingView) -> bool, q: spec_fn(FindingView) -> bool)
    ensures
        sum_sizes(select(s, p)) == sum_sizes(select(s, |f: FindingView| p(f) && q(f))) + sum_sizes(
            select(s, |f: FindingView| p(f) && !q(f)),
        ),
        sum_counts(select(s, p)) == sum_counts(select(s, |f: FindingView| p(f) && q(f))) + sum_counts(
            select(s, |f: FindingView| p(f) && !q(f)),
        ),
    decreases s.len(),
{
    if s.len() > 0 {
        lemma_select_split(s.drop_last(), p, q);
        let a = select(s.drop_last(), p);
        let b = select(s.drop_last(), |f: FindingView| p(f) && q(f));
        let c = select(s.drop_last(), |f: FindingView| p(f) && !q(f));
        assert(a.push(s.last()).drop_last() =~= a);
        assert(b.push(s.last()).drop_last() =~= b);
        assert(c.push(s.last()).drop_last() =~= c);
    }
}

pub proof fn lemma_select_all(s: Seq<FindingView>, p: spec_fn(FindingView) -> bool)
    requires
        forall|f: FindingView| #[trigger] p(f),
    ensures
        select(s, p) == s,
    decreases s.len(),
{
    if s.len() > 0 {
        lemma_select_all(s.drop_last(), p);
        assert(s.drop_last().push(s.last()) =~= s);
    }
}

pub proof fn lemma_unit_counts(s: Seq<FindingView>)
    requires
        forall|i: int| 0 <= i < s.len() ==> #[trigger] s[i].file_count == 0,
    ensures
        sum_counts(s) == s.len(),
    decreases s.len(),
{
    if s.len() > 0 {
        lemma_unit_counts(s.drop_last());
    }
}

pub proof fn lemma_select_keeps(s: Seq<FindingView>, p: spec_fn(FindingView) -> bool)
    ensures
        forall|i: int|
            0 <= i < select(s, p).len() ==> p(#[trigger] select(s, p)[i]) && s.contains(select(s, p)[i]),
    decreases s.len(),
{
    if s.len() > 0 {
        lemma_select_keeps(s.drop_last(), p);
        let r = select(s.drop_last(), p);
        assert forall|i: int| 0 <= i < select(s, p).len() implies p(#[trigger] select(s, p)[i]) && s.contains(select(s, p)[i]) by {
            if i < r.len() {
                assert(select(s, p)[i] == r[i]);
                let j = choose|j: int| 0 <= j < s.drop_last().len() && s.drop_last()[j] == r[i];
                assert(s[j] == r[i]);
            } else {
                assert(select(s, p)[i] == s.last());
                assert(s[s.len() - 1] == s.last());
            }
        }
    }
}

proof fn lemma_collapse_step(fs: Seq<FindingView>, order: Seq<Seq<Seq<char>>>, k: nat)
    requires
        k <= order.len(),
        fs.len() <= u64::MAX,
        sum_sizes(fs) <= u64::MAX,
    ensures
        sum_sizes(collapse_entries(fs, order, k)) + sum_sizes(select(fs, untouched_by(order, k as int)))
            == sum_sizes(fs),
        (forall|i: int| 0 <= i < fs.len() ==> #[trigger] fs[i].file_count == 0) ==> sum_counts(
            collapse_entries(fs, order, k),
        ) + sum_counts(select(fs, untouched_by(order, k as int))) == fs.len(),
    decreases k,
{
    if k == 0 {
        assert forall|f: FindingView| #[trigger] untouched_by(order, 0)(f) by {}
        lemma_select_all(fs, untouched_by(order, 0));
        if forall|i: int| 0 <= i < fs.len() ==> #[trigger] fs[i].file_count == 0 {
            lemma_unit_counts(fs);
        }
    } else {
        let j = (k - 1) as nat;
        lemma_collapse_step(fs, order, j);
        let pk = untouched_by(order, j as int);
        let q = |f: FindingView| is_proper_ancestor(order[j as int], fcomps(f));
        lemma_select_split(fs, pk, q);
        let pq = |f: FindingView| pk(f) && q(f);
        let pn = |f: FindingView| pk(f) && !q(f);
        assert forall|f: FindingView| #[trigger] pq(f) == group_member(order, j as int)(f) by {}
        lemma_select_ext(fs, pq, group_member(order, j as int));
        assert forall|f: FindingView| #[trigger] pn(f) == untouched_by(order, k as int)(f) by {
            let c = fcomps(f);
            if consumed_before(order, k as int, c) && !consumed_before(order, j as int, c) {
                let t = choose|t: int| 0 <= t < k && is_proper_ancestor(#[trigger] order[t], c);
                assert(t == j);
            }
            if consumed_before(order, j as int, c) {
                let t = choose|t: int| 0 <= t < j && is_proper_ancestor(#[trigger] order[t], c);
                assert(0 <= t < k);
            }
            if q(f) {
                assert(is_proper_ancestor(order[j as int], c));
            }
        }
        lemma_select_ext(fs, pn, untouched_by(order, k as int));
        let u = select(fs, group_member(order, j as int));
        lemma_select_sum_le(fs, group_member(order, j as int));
        lemma_select_keeps(fs, group_member(order, j as int));
        if forall|i: int| 0 <= i < fs.len() ==> #[trigger] fs[i].file_count == 0 {
            assert forall|i: int| 0 <= i < u.len() implies #[trigger] u[i].file_count == 0 by {
                let t = choose|t: int| 0 <= t < fs.len() && fs[t] == u[i];
            }
            lemma_unit_counts(u);
        }
        let prev = collapse_entries(fs, order, j);
        assert(sum_sizes(select(fs, pk)) == sum_sizes(u) + sum_sizes(select(fs, untouched_by(order, k as int))));
        assert(sum_counts(select(fs, pk)) == sum_counts(u) + sum_counts(select(fs, untouched_by(order, k as int))));
        if u.len() > 0 {
            assert(collapse_entries(fs, order, k) == prev.push(group_entry(order[j as int], u)));
            assert(prev.push(group_entry(order[j as int], u)).drop_last() =~= prev);
        }
    }
}

/// Collapsing conserves bytes: the sizes of the collapsed list add up to the
/// sizes of the findings, whatever directories are collapsed and in what order.
pub proof fn law_collapse_preserves_total_bytes(fs: Seq<FindingView>, order: Seq<Seq<Seq<char>>>)
    requires
        fs.len() <= u64::MAX,
        sum_sizes(fs) <= u64::MAX,
    ensures
        sum_sizes(collapsed_view(fs, order)) == sum_sizes(fs),
{
    lemma_collapse_step(fs, order, order.len());
    lemma_sum_sizes_concat(
        collapse_entries(fs, order, order.len()),
        select(fs, untouched_by(order, order.len() as int)),
    );
}

/// Every finding is represented exactly once: the file counts of the
/// collapsed entries plus the findings passed through equal the number of findings.
pub proof fn law_collapse_accounts_for_every_finding(fs: Seq<FindingView>, order: Seq<Seq<Seq<char>>>)
    requires
        fs.len() <= u64::MAX,
        sum_sizes(fs) <= u64::MAX,
        forall|i: int| 0 <= i < fs.len() ==> #[trigger] fs[i].file_count == 0,
    ensures
        sum_counts(collapsed_view(fs, order)) == fs.len(),
{
    lemma_collapse_step(fs, order, order.len());
    lemma_sum_sizes_concat(
        collapse_entries(fs, order, order.len()),
        select(fs, untouched_by(order, order.len() as int)),
    );
}

proof fn lemma_entries_shape(fs: Seq<FindingView>, order: Seq<Seq<Seq<char>>>, k: nat)
    requires
        k <= order.len(),
        fs.len() <= u64::MAX,
    ensures
        forall|i: int|
            0 <= i < collapse_entries(fs, order, k).len() ==> exists|j: int|
                0 <= j < k && (#[trigger] collapse_entries(fs, order, k)[i]).path == render(
                    order[j],
                ) && collapse_entries(fs, order, k)[i].file_count >= 1,
    decreases k,
{
    if k > 0 {
        let j = (k - 1) as nat;
        lemma_entries_shape(fs, order, j);
        let prev = collapse_entries(fs, order, j);
        let u = select(fs, group_member(order, j as int));
        lemma_select_sum_le(fs, group_member(order, j as int));
        assert forall|i: int| 0 <= i < collapse_entries(fs, order, k).len() implies exists|t: int|
            0 <= t < k && (#[trigger] collapse_entries(fs, order, k)[i]).path == render(order[t])
                && collapse_entries(fs, order, k)[i].file_count >= 1 by {
            if i < prev.len() {
                let t = choose|t: int| 0 <= t < j && (#[trigger] prev[i]).path == render(order[t])
                    && prev[i].file_count >= 1;
                assert(collapse_entries(fs, order, k)[i] == prev[i]);
            } else {
                assert(u.len() > 0);
                assert(collapse_entries(fs, order, k)[i] == group_entry(order[j as int], u));
                assert(u.len() <= fs.len());
            }
        }
    }
}

/// A collapsed list holds only findings of the input and entries for
/// collapse points: directories with at least `COLLAPSE_MIN_COMPONENTS`
/// components, listed as fully orphaned, above at least one finding.
pub proof fn law_collapsed_entries_are_deep_orphan_dirs(
    fs: Seq<FindingView>,
    os: Seq<Seq<Seq<char>>>,
    order: Seq<Seq<Seq<char>>>,
)
    requires
        fs.len() <= u64::MAX,
        is_collapse_order(finding_comps(fs), os, order),
    ensures
        forall|i: int|
            0 <= i < collapsed_view(fs, order).len() ==> fs.contains(
                #[trigger] collapsed_view(fs, order)[i],
            ) || exists|d: Seq<Seq<char>>|
                is_collapse_point(finding_comps(fs), os, d) && d.len() >= COLLAPSE_MIN_COMPONENTS
                    && collapsed_view(fs, order)[i].path == render(d)
                    && collapsed_view(fs, order)[i].file_count >= 1,
{
    let e = collapse_entries(fs, order, order.len());
    let t = select(fs, untouched_by(order, order.len() as int));
    lemma_entries_shape(fs, order, order.len());
    lemma_select_keeps(fs, untouched_by(order, order.len() as int));
    assert forall|i: int| 0 <= i < collapsed_view(fs, order).len() implies fs.contains(
        #[trigger] collapsed_view(fs, order)[i],
    ) || exists|d: Seq<Seq<char>>|
        is_collapse_point(finding_comps(fs), os, d) && d.len() >= COLLAPSE_MIN_COMPONENTS
            && collapsed_view(fs, order)[i].path == render(d)
            && collapsed_view(fs, order)[i].file_count >= 1 by {
        if i < e.len() {
            assert(collapsed_view(fs, order)[i] == e[i]);
            let j = choose|j: int| 0 <= j < order.len() && (#[trigger] e[i]).path == render(order[j])
                && e[i].file_count >= 1;
            assert(order.contains(order[j]));
        } else {
            assert(collapsed_view(fs, order)[i] == t[i - e.len()]);
        }
    }
}

/// The component lists of the texts.
pub open spec fn comps_of(ps: Seq<Seq<char>>) -> Seq<Seq<Seq<char>>> {
    ps.map_values(|p: Seq<char>| components(p))
}

/// `r` lists every collapse candidate of the paths `cs` once (compared as
/// paths), deepest first.
pub open spec fn is_candidate_list(cs: Seq<Seq<Seq<char>>>, r: Seq<Seq<char>>) -> bool {
    let rc = comps_of(r);
    &&& rc.no_duplicates()
    &&& forall|d: Seq<Seq<char>>| #[trigger] rc.contains(d) <==> is_collapse_candidate(cs, d)
    &&& forall|a: int, b: int| 0 <= a < b < rc.len() ==> rc[a].len() >= rc[b].len()
}

/// The candidates, shallowest first.
fn candidate_order(cs: &Vec<Vec<Vec<char>>>) -> (order: Vec<Vec<Vec<char>>>)
    ensures
        cviews(order).no_duplicates(),
        forall|d: Seq<Seq<char>>| #[trigger] cviews(order).contains(d) <==> is_collapse_candidate(cviews(*cs), d),
        forall|a: int, b: int| 0 <= a < b < cviews(order).len() ==> cviews(order)[a].len() <= cviews(order)[b].len(),
{
    let ghost csv = cviews(*cs);
    let mut maxlen: usize = 0;
    let mut i: usize = 0;
    while i < cs.len()
        invariant
            i <= cs@.len(),
            csv == cviews(*cs),
            forall|j: int| 0 <= j < i ==> csv[j].len() <= maxlen,
        decreases cs.len() - i,
    {
        if cs[i].len() > maxlen {
            maxlen = cs[i].len();
        }
        i += 1;
    }
    let mut order: Vec<Vec<Vec<char>>> = Vec::new();
    let mut k: usize = COLLAPSE_MIN_COMPONENTS;
    while k < maxlen
        invariant
            COLLAPSE_MIN_COMPONENTS <= k,
            csv == cviews(*cs),
            forall|j: int| 0 <= j < csv.len() ==> csv[j].len() <= maxlen,
            cviews(order).no_duplicates(),
            forall|d: Seq<Seq<char>>|
                #[trigger] cviews(order).contains(d) <==> (is_collapse_candidate(csv, d) && d.len() < k),
            forall|a: int, b: int|
                0 <= a < b < cviews(order).len() ==> cviews(order)[a].len() <= cviews(order)[b].len(),
            forall|a: int| 0 <= a < cviews(order).len() ==> cviews(order)[a].len() < k,
        decreases maxlen - k,
    {
        let mut i: usize = 0;
        while i < cs.len()
            invariant
                COLLAPSE_MIN_COMPONENTS <= k < maxlen,
                i <= cs@.len(),
                csv == cviews(*cs),
                forall|j: int| 0 <= j < csv.len() ==> csv[j].len() <= maxlen,
                cviews(order).no_duplicates(),
                forall|d: Seq<Seq<char>>|
                    #[trigger] cviews(order).contains(d) <==> (is_collapse_candidate(csv, d) && (d.len() < k
                        || (d.len() == k && exists|j: int| 0 <= j < i && is_proper_ancestor(d, #[trigger] csv[j])))),
                forall|a: int, b: int|
                    0 <= a < b < cviews(order).len() ==> cviews(order)[a].len() <= cviews(order)[b].len(),
                forall|a: int| 0 <= a < cviews(order).len() ==> cviews(order)[a].len() <= k,
            decreases cs.len() - i,
        {
            let ghost old_ord = cviews(order);
            if cs[i].len() > k {
                let d = prefix_components(&cs[i], k);
                let ghost dv = cview(d);
                assert(is_proper_ancestor(dv, csv[i as int])) by {
                    assert(csv[i as int].take(k as int) == dv);
                }
                let mut present = false;
                let mut t: usize = 0;
                while t < order.len()
                    invariant
                        t <= order@.len(),
                        dv == cview(d),
                        present == (exists|u: int| 0 <= u < t && cviews(order)[u] == dv),
                    decreases order.len() - t,
                {
                    let same = same_components(&order[t], &d);
                    assert(cviews(order)[t as int] == cview(order@[t as int]));
                    if same {
                        present = true;
                    }
                    proof {
                        if !same {
                            assert forall|u: int| 0 <= u < t + 1 && cviews(order)[u] == dv implies u < t by {}
                        }
                    }
                    t += 1;
                }
                proof {
                    assert(present == cviews(order).contains(dv));
                }
                if !present {
                    order.push(d);
                    assert(cviews(order) =~= old_ord.push(dv));
                }
                proof {
                    assert forall|e: Seq<Seq<char>>|
                        #[trigger] cviews(order).contains(e) <==> (is_collapse_candidate(csv, e) && (e.len() < k
                            || (e.len() == k && exists|j: int| 0 <= j < i + 1 && is_proper_ancestor(e, #[trigger] csv[j])))) by {
                        let now = exists|j: int| 0 <= j < i + 1 && is_proper_ancestor(e, #[trigger] csv[j]);
                        let before = exists|j: int| 0 <= j < i && is_proper_ancestor(e, #[trigger] csv[j]);
                        if before {
                            let j0 = choose|j: int| 0 <= j < i && is_proper_ancestor(e, #[trigger] csv[j]);
                            assert(0 <= j0 < i + 1 && is_proper_ancestor(e, csv[j0]));
                        }
                        if now && !before {
                            let j0 = choose|j: int| 0 <= j < i + 1 && is_proper_ancestor(e, #[trigger] csv[j]);
                            assert(j0 == i);
                        }
                        if e.len() == k && is_proper_ancestor(e, csv[i as int]) {
                            assert(csv[i as int].take(k as int) == e);
                            assert(e == dv);
                        }
                        if cviews(order).contains(e) && !old_ord.contains(e) {
                            assert(!present);
                            let u = choose|u: int| 0 <= u < cviews(order).len() && cviews(order)[u] == e;
                            assert(u == old_ord.len());
                            assert(e == dv);
                        }
                        if old_ord.contains(e) {
                            let u = choose|u: int| 0 <= u < old_ord.len() && old_ord[u] == e;
                            assert(cviews(order)[u] == e);
                        }
                        if e == dv && is_collapse_candidate(csv, e) {
                            if !present {
                                assert(cviews(order)[old_ord.len() as int] == e);
                            }
                        }
                    }
                }
            } else {
                proof {
                    assert forall|e: Seq<Seq<char>>|
                        #[trigger] cviews(order).contains(e) <==> (is_collapse_candidate(csv, e) && (e.len() < k
                            || (e.len() == k && exists|j: int| 0 <= j < i + 1 && is_proper_ancestor(e, #[trigger] csv[j])))) by {
                        if (exists|j: int| 0 <= j < i + 1 && is_proper_ancestor(e, #[trigger] csv[j]))
                            && !(exists|j: int| 0 <= j < i && is_proper_ancestor(e, #[trigger] csv[j])) {
                            assert(is_proper_ancestor(e, csv[i as int]));
                        }
                    }
                }
            }
            i += 1;
        }
        proof {
            assert forall|d: Seq<Seq<char>>|
                #[trigger] cviews(order).contains(d) <==> (is_collapse_candidate(csv, d) && d.len() < k + 1) by {
                if is_collapse_candidate(csv, d) && d.len() == k {
                    let j = choose|j: int| 0 <= j < csv.len() && is_proper_ancestor(d, csv[j]);
                    assert(exists|j: int| 0 <= j < cs@.len() && is_proper_ancestor(d, csv[j]));
                }
            }
        }
        k += 1;
    }
    proof {
        assert forall|d: Seq<Seq<char>>| #[trigger] cviews(order).contains(d) <==> is_collapse_candidate(csv, d) by {
            if is_collapse_candidate(csv, d) {
                let j = choose|j: int| 0 <= j < csv.len() && is_proper_ancestor(d, csv[j]);
                assert(d.len() < csv[j].len());
            }
        }
    }
    order
}

proof fn lemma_candidate_valid(cs: Seq<Seq<Seq<char>>>, d: Seq<Seq<char>>)
    requires
        forall|j: int| 0 <= j < cs.len() ==> valid_components(#[trigger] cs[j]),
        is_collapse_candidate(cs, d),
    ensures
        valid_components(d),
{
    let j = choose|j: int| 0 <= j < cs.len() && is_proper_ancestor(d, #[trigger] cs[j]);
    assert(valid_components(cs[j]));
    assert(d == cs[j].take(d.len() as int));
    assert forall|i: int| 1 <= i < d.len() implies plain_component(#[trigger] d[i]) by {
        assert(d[i] == cs[j][i]);
    }
    if d.len() > 0 {
        assert(d[0] == cs[j][0]);
    }
}

/// The directories findings may be collapsed into: every proper ancestor
/// with at least `COLLAPSE_MIN_COMPONENTS` components of a finding's path,
/// once each, deepest first (their order within a depth is not fixed).
pub fn collapse_candidates(findings: &[Finding]) -> (r: Vec<String>)
    ensures
        is_candidate_list(finding_comps(finding_views(findings@)), string_views(r@)),
{
    let ghost fv = finding_views(findings@);
    let ghost fcs = finding_comps(fv);
    let mut cs: Vec<Vec<Vec<char>>> = Vec::new();
    let mut i: usize = 0;
    while i < findings.len()
        invariant
            i <= findings@.len(),
            fv == finding_views(findings@),
            fcs == finding_comps(fv),
            cviews(cs) == fcs.take(i as int),
        decreases findings.len() - i,
    {
        let ghost before = cviews(cs);
        cs.push(path_components(&chars_of(findings[i].path.as_str())));
        assert(cviews(cs) =~= before.push(fcs[i as int]));
        assert(fcs.take(i + 1) =~= fcs.take(i as int).push(fcs[i as int]));
        i += 1;
    }
    assert(fcs.take(findings@.len() as int) =~= fcs);
    assert forall|j: int| 0 <= j < fcs.len() implies valid_components(#[trigger] fcs[j]) by {
        lemma_components_valid(fv[j].path);
    }
    let order = candidate_order(&cs);
    let ghost ov = cviews(order);
    let mut r: Vec<String> = Vec::new();
    let mut t: usize = order.len();
    while t > 0
        invariant
            t <= order@.len(),
            ov == cviews(order),
            fcs == cviews(cs),
            forall|d: Seq<Seq<char>>| #[trigger] ov.contains(d) ==> is_collapse_candidate(fcs, d),
            forall|j: int| 0 <= j < fcs.len() ==> valid_components(#[trigger] fcs[j]),
            comps_of(string_views(r@)) == ov.skip(t as int).reverse(),
        decreases t,
    {
        t -= 1;
        let ghost before = comps_of(string_views(r@));
        let p = string_from_chars(&render_components(&order[t]));
        proof {
            assert(ov.contains(ov[t as int]));
            lemma_candidate_valid(fcs, ov[t as int]);
            lemma_components_render(ov[t as int]);
        }
        r.push(p);
        assert(comps_of(string_views(r@)) =~= before.push(ov[t as int]));
        assert(ov.skip(t as int).reverse() =~= ov.skip(t + 1).reverse().push(ov[t as int]));
    }
    proof {
        let rc = comps_of(string_views(r@));
        assert(ov.skip(0) =~= ov);
        assert(rc =~= ov.reverse());
        assert(rc.no_duplicates()) by {
            assert forall|a: int, b: int| 0 <= a < rc.len() && 0 <= b < rc.len() && a != b implies rc[a] != rc[b] by {
                assert(rc[a] == ov[ov.len() - 1 - a]);
                assert(rc[b] == ov[ov.len() - 1 - b]);
            }
        }
        assert forall|d: Seq<Seq<char>>| #[trigger] rc.contains(d) <==> is_collapse_candidate(fcs, d) by {
            if rc.contains(d) {
                let a = choose|a: int| 0 <= a < rc.len() && rc[a] == d;
                assert(ov[ov.len() - 1 - a] == d);
                assert(ov.contains(d));
            }
            if is_collapse_candidate(fcs, d) {
                assert(ov.contains(d));
                let a = choose|a: int| 0 <= a < ov.len() && ov[a] == d;
                assert(rc[ov.len() - 1 - a] == d);
            }
        }
        assert forall|a: int, b: int| 0 <= a < b < rc.len() implies rc[a].len() >= rc[b].len() by {
            assert(rc[a] == ov[ov.len() - 1 - a]);
            assert(rc[b] == ov[ov.len() - 1 - b]);
        }
    }
    r
}

/// What a directory listing shows: each child's path and whether it is a
/// directory (by its own metadata, links not followed).
pub open spec fn listing_view(l: Option<Vec<(String, bool)>>) -> Option<Seq<(Seq<char>, bool)>> {
    match l {
        Some(v) => Some(v@.map_values(|c: (String, bool)| (c.0@, c.1))),
        None => None,
    }
}

/// A child is accounted for: a directory already found fully orphaned, or
/// any other entry that is one of the findings (compared as paths).
pub open spec fn child_accounted(
    child: (Seq<char>, bool),
    files: Seq<Seq<Seq<char>>>,
    dirs: Seq<Seq<Seq<char>>>,
) -> bool {
    if child.1 {
        dirs.contains(components(child.0))
    } else {
        files.contains(components(child.0))
    }
}

/// Every child of a listing is accounted for.
pub open spec fn all_accounted(
    children: Seq<(Seq<char>, bool)>,
    files: Seq<Seq<Seq<char>>>,
    dirs: Seq<Seq<Seq<char>>>,
) -> bool {
    forall|c: int| 0 <= c < children.len() ==> child_accounted(#[trigger] children[c], files, dirs)
}

/// The candidates, taken in order (deepest first), that are fully orphaned:
/// their listing could be read and every child in it is accounted for by the
/// findings and the directories found before.
pub open spec fn orphan_dirs_found(
    cands: Seq<Seq<char>>,
    listings: Seq<Option<Seq<(Seq<char>, bool)>>>,
    files: Seq<Seq<Seq<char>>>,
) -> Seq<Seq<char>>
    decreases cands.len(),
{
    if cands.len() == 0 {
        Seq::<Seq<char>>::empty()
    } else {
        let k = cands.len() - 1;
        let before = orphan_dirs_found(cands.drop_last(), listings, files);
        match listings[k] {
            Some(children) => if all_accounted(children, files, comps_of(before)) {
                before.push(cands[k])
            } else {
                before
            },
            None => before,
        }
    }
}

fn component_lists(paths: Seq<Seq<char>>, v: &Vec<String>) -> (r: Vec<Vec<Vec<char>>>)
    requires
        string_views(v@) == paths,
    ensures
        cviews(r) == comps_of(paths),
{
    let mut r: Vec<Vec<Vec<char>>> = Vec::new();
    let mut i: usize = 0;
    while i < v.len()
        invariant
            i <= v@.len(),
            string_views(v@) == paths,
            cviews(r) == comps_of(paths.take(i as int)),
        decreases v.len() - i,
    {
        let ghost before = cviews(r);
        r.push(path_components(&chars_of(v[i].as_str())));
        assert(cviews(r) =~= before.push(components(paths[i as int])));
        assert(comps_of(paths.take(i + 1)) =~= comps_of(paths.take(i as int)).push(components(paths[i as int])));
        i += 1;
    }
    assert(paths.take(v@.len() as int) =~= paths);
    r
}

fn contains_components(list: &Vec<Vec<Vec<char>>>, c: &Vec<Vec<char>>) -> (b: bool)
    ensures
        b == cviews(*list).contains(cview(*c)),
{
    let mut i: usize = 0;
    while i < list.len()
        invariant
            i <= list@.len(),
            forall|u: int| 0 <= u < i ==> cviews(*list)[u] != cview(*c),
        decreases list.len() - i,
    {
        assert(cviews(*list)[i as int] == cview(list@[i as int]));
        if same_components(&list[i], c) {
            return true;
        }
        i += 1;
    }
    false
}

/// The candidate directories (deepest first) that are fully orphaned, from
/// their listings (`None` where the directory could not be read): a
/// directory is fully orphaned when every child is either one of the
/// findings or a subdirectory already found fully orphaned.
pub fn fully_orphaned_dirs(
    candidates: &Vec<String>,
    listings: &Vec<Option<Vec<(String, bool)>>>,
    findings: &[Finding],
) -> (r: Vec<String>)
    requires
        listings@.len() == candidates@.len(),
    ensures
        string_views(r@) == orphan_dirs_found(
            string_views(candidates@),
            listings@.map_values(|l: Option<Vec<(String, bool)>>| listing_view(l)),
            finding_comps(finding_views(findings@)),
        ),
{
    let ghost cv = string_views(candidates@);
    let ghost lv = listings@.map_values(|l: Option<Vec<(String, bool)>>| listing_view(l));
    let ghost fcs = finding_comps(finding_views(findings@));
    let mut files: Vec<Vec<Vec<char>>> = Vec::new();
    let mut i: usize = 0;
    while i < findings.len()
        invariant
            i <= findings@.len(),
            fcs == finding_comps(finding_views(findings@)),
            cviews(files) == fcs.take(i as int),
        decreases findings.len() - i,
    {
        let ghost before = cviews(files);
        files.push(path_components(&chars_of(findings[i].path.as_str())));
        assert(cviews(files) =~= before.push(fcs[i as int]));
        assert(fcs.take(i + 1) =~= fcs.take(i as int).push(fcs[i as int]));
        i += 1;
    }
    assert(fcs.take(findings@.len() as int) =~= fcs);
    let mut r: Vec<String> = Vec::new();
    let mut rc: Vec<Vec<Vec<char>>> = Vec::new();
    let mut k: usize = 0;
    while k < candidates.len()
        invariant
            k <= candidates@.len(),
            listings@.len() == candidates@.len(),
            cv == string_views(candidates@),
            lv == listings@.map_values(|l: Option<Vec<(String, bool)>>| listing_view(l)),
            cviews(files) == fcs,
            string_views(r@) == orphan_dirs_found(cv.take(k as int), lv, fcs),
            cviews(rc) == comps_of(string_views(r@)),
        decreases candidates.len() - k,
    {
        let ghost before = string_views(r@);
        let ghost t1 = cv.take(k + 1);
        assert(t1.drop_last() =~= cv.take(k as int));
        assert(t1[k as int] == cv[k as int]);
        match &listings[k] {
            None => {
                assert(lv[k as int] == None::<Seq<(Seq<char>, bool)>>);
                assert(orphan_dirs_found(t1, lv, fcs) == before);
            },
            Some(children) => {
                let ghost ch = children@.map_values(|c: (String, bool)| (c.0@, c.1));
                assert(lv[k as int] == Some(ch));
                let mut ok = true;
                let mut j: usize = 0;
                while j < children.len()
                    invariant
                        j <= children@.len(),
                        ch == children@.map_values(|c: (String, bool)| (c.0@, c.1)),
                        cviews(files) == fcs,
                        cviews(rc) == comps_of(before),
                        ok == forall|c: int| 0 <= c < j ==> child_accounted(#[trigger] ch[c], fcs, comps_of(before)),
                    decreases children.len() - j,
                {
                    let c = path_components(&chars_of(children[j].0.as_str()));
                    let found = if children[j].1 {
                        contains_components(&rc, &c)
                    } else {
                        contains_components(&files, &c)
                    };
                    assert(found == child_accounted(ch[j as int], fcs, comps_of(before)));
                    if !found {
                        ok = false;
                    }
                    j += 1;
                }
                assert(ch.len() == children@.len());
                proof {
                    if ok {
                        assert(orphan_dirs_found(t1, lv, fcs) == before.push(cv[k as int]));
                    } else {
                        assert(!all_accounted(ch, fcs, comps_of(before)));
                        assert(orphan_dirs_found(t1, lv, fcs) == before);
                    }
                }
                if ok {
                    r.push(string_from_chars(&chars_of(candidates[k].as_str())));
                    rc.push(path_components(&chars_of(candidates[k].as_str())));
                    assert(string_views(r@) =~= before.push(cv[k as int]));
                    assert(comps_of(string_views(r@)) =~= comps_of(before).push(components(cv[k as int])));
                }
            },
        }
        k += 1;
    }
    assert(cv.take(candidates@.len() as int) =~= cv);
    r
}

proof fn lemma_min_confidence_is_lowest(u: Seq<FindingView>)
    requires
        u.len() > 0,
    ensures
        forall|i: int| 0 <= i < u.len() ==> rank(min_confidence(u)) <= rank(#[trigger] u[i].confidence),
        exists|i: int| 0 <= i < u.len() && #[trigger] u[i].confidence == min_confidence(u),
    decreases u.len(),
{
    if u.len() == 1 {
        assert(u[0].confidence == min_confidence(u));
    } else {
        let d = u.drop_last();
        lemma_min_confidence_is_lowest(d);
        assert forall|i: int| 0 <= i < u.len() implies rank(min_confidence(u)) <= rank(#[trigger] u[i].confidence) by {
            if i < d.len() {
                assert(u[i] == d[i]);
            }
        }
        if rank(u.last().confidence) < rank(min_confidence(d)) {
            assert(u[u.len() - 1].confidence == min_confidence(u));
        } else {
            let j = choose|j: int| 0 <= j < d.len() && #[trigger] d[j].confidence == min_confidence(d);
            assert(u[j].confidence == min_confidence(u));
        }
    }
}

proof fn lemma_select_has(s: Seq<FindingView>, p: spec_fn(FindingView) -> bool, t: int)
    requires
        0 <= t < s.len(),
        p(s[t]),
    ensures
        select(s, p).contains(s[t]),
    decreases s.len(),
{
    let d = s.drop_last();
    if t < d.len() {
        assert(d[t] == s[t]);
        lemma_select_has(d, p, t);
        let r = select(d, p);
        let j = choose|j: int| 0 <= j < r.len() && r[j] == s[t];
        if p(s.last()) {
            assert(select(s, p)[j] == s[t]);
        } else {
            assert(select(s, p)[j] == s[t]);
        }
    } else {
        let r = select(d, p);
        assert(select(s, p)[r.len() as int] == s[t]);
    }
}

proof fn lemma_entries_are_groups(fs: Seq<FindingView>, order: Seq<Seq<Seq<char>>>, k: nat)
    ensures
        forall|i: int|
            0 <= i < collapse_entries(fs, order, k).len() ==> exists|j: int|
                0 <= j < k && select(fs, group_member(order, j)).len() > 0 && #[trigger] collapse_entries(fs, order, k)[i]
                    == group_entry(order[j], select(fs, group_member(order, j))),
    decreases k,
{
    if k > 0 {
        lemma_entries_are_groups(fs, order, (k - 1) as nat);
        let prev = collapse_entries(fs, order, (k - 1) as nat);
        assert forall|i: int| 0 <= i < collapse_entries(fs, order, k).len() implies exists|j: int|
            0 <= j < k && select(fs, group_member(order, j)).len() > 0 && #[trigger] collapse_entries(fs, order, k)[i]
                == group_entry(order[j], select(fs, group_member(order, j))) by {
            if i < prev.len() {
                assert(collapse_entries(fs, order, k)[i] == prev[i]);
                let j = choose|j: int|
                    0 <= j < k - 1 && select(fs, group_member(order, j)).len() > 0 && #[trigger] prev[i]
                        == group_entry(order[j], select(fs, group_member(order, j)));
                assert(0 <= j < k);
            } else {
                assert(collapse_entries(fs, order, k)[i] == group_entry(
                    order[k - 1],
                    select(fs, group_member(order, k - 1)),
                ));
            }
        }
    }
}

/// A collapsed entry is as sure as the least sure of the findings it stands
/// for: every collapsed entry stands for a directory of the order, its
/// confidence is no higher than that of any finding gathered under that
/// directory, and it is the confidence of one of them.
pub proof fn law_collapsed_entry_takes_lowest_confidence(fs: Seq<FindingView>, order: Seq<Seq<Seq<char>>>, i: int)
    requires
        0 <= i < collapse_entries(fs, order, order.len()).len(),
    ensures
        exists|j: int|
            #![trigger order[j]]
            0 <= j < order.len() && {
                let e = collapse_entries(fs, order, order.len())[i];
                &&& e.path == render(order[j])
                &&& forall|t: int|
                    0 <= t < fs.len() && group_member(order, j)(#[trigger] fs[t]) ==> rank(e.confidence) <= rank(
                        fs[t].confidence,
                    )
                &&& exists|t: int| 0 <= t < fs.len() && group_member(order, j)(#[trigger] fs[t]) && fs[t].confidence == e.confidence
            },
{
    lemma_entries_are_groups(fs, order, order.len());
    let e = collapse_entries(fs, order, order.len())[i];
    let j = choose|j: int|
        0 <= j < order.len() && select(fs, group_member(order, j)).len() > 0 && #[trigger] collapse_entries(
            fs,
            order,
            order.len(),
        )[i] == group_entry(order[j], select(fs, group_member(order, j)));
    let p = group_member(order, j);
    let u = select(fs, p);
    lemma_min_confidence_is_lowest(u);
    lemma_select_keeps(fs, p);
    assert forall|t: int| 0 <= t < fs.len() && p(#[trigger] fs[t]) implies rank(e.confidence) <= rank(fs[t].confidence) by {
        lemma_select_has(fs, p, t);
        let m = choose|m: int| 0 <= m < u.len() && u[m] == fs[t];
        assert(rank(min_confidence(u)) <= rank(u[m].confidence));
    }
    let m = choose|m: int| 0 <= m < u.len() && #[trigger] u[m].confidence == min_confidence(u);
    assert(p(u[m]) && fs.contains(u[m]));
    let t = choose|t: int| 0 <= t < fs.len() && fs[t] == u[m];
    assert(p(fs[t]) && fs[t].confidence == e.confidence);
    assert(e.path == render(order[j]));
}

} // verus!
