//! What the scanners report: findings, their confidence, reasons and category.
use vstd::prelude::*;
use crate::config::Config;
use crate::pacman::db::PacmanDb;
use crate::path::{components, cview, path_components, same_components};
use crate::text::{chars_eq, chars_of, string_views};

pub mod name_heuristic;
pub mod orphan_deps;
pub mod xdg_db;

verus! {

/// How sure the library is that a path is a leftover.
#[derive(Debug, Clone, Copy, PartialEq, Eq, PartialOrd, Ord, Structural)]
pub enum Confidence {
    Low,
    Medium,
    High,
}

/// Position of a confidence level in the order Low < Medium < High.
pub open spec fn rank(c: Confidence) -> int {
    match c {
        Confidence::Low => 0,
        Confidence::Medium => 1,
        Confidence::High => 2,
    }
}

/// Position of a confidence level in the order Low < Medium < High.
pub fn confidence_rank(c: Confidence) -> (r: u8)
    ensures
        r == rank(c),
{
    match c {
        Confidence::Low => 0,
        Confidence::Medium => 1,
        Confidence::High => 2,
    }
}

/// Evidence that a path belongs to a removed package.
#[derive(Debug, PartialEq)]
pub enum Reason {
    InXdgDatabase,
    ExecutableGone(String),
    ExactNameMatch,
    PkgnameSubstringMatch,
    PacmanOrphan,
    NotAccessedFor(std::time::Duration),
    UserAllowlist,
}

/// The value a reason holds, with its text as a sequence.
pub enum ReasonView {
    InXdgDatabase,
    ExecutableGone(Seq<char>),
    ExactNameMatch,
    PkgnameSubstringMatch,
    PacmanOrphan,
    NotAccessedFor(std::time::Duration),
    UserAllowlist,
}

impl View for Reason {
    type V = ReasonView;

    open spec fn view(&self) -> ReasonView {
        match self {
            Reason::InXdgDatabase => ReasonView::InXdgDatabase,
            Reason::ExecutableGone(s) => ReasonView::ExecutableGone(s@),
            Reason::ExactNameMatch => ReasonView::ExactNameMatch,
            Reason::PkgnameSubstringMatch => ReasonView::PkgnameSubstringMatch,
            Reason::PacmanOrphan => ReasonView::PacmanOrphan,
            Reason::NotAccessedFor(d) => ReasonView::NotAccessedFor(*d),
            Reason::UserAllowlist => ReasonView::UserAllowlist,
        }
    }
}

/// The values of a list of reasons.
pub open spec fn reason_views(v: Seq<Reason>) -> Seq<ReasonView> {
    v.map_values(|r: Reason| r@)
}

impl Clone for Reason {
    fn clone(&self) -> (r: Self)
        ensures
            r == *self,
    {
        match self {
            Reason::InXdgDatabase => Reason::InXdgDatabase,
            Reason::ExecutableGone(s) => Reason::ExecutableGone(s.clone()),
            Reason::ExactNameMatch => Reason::ExactNameMatch,
            Reason::PkgnameSubstringMatch => Reason::PkgnameSubstringMatch,
            Reason::PacmanOrphan => Reason::PacmanOrphan,
            Reason::NotAccessedFor(d) => Reason::NotAccessedFor(*d),
            Reason::UserAllowlist => Reason::UserAllowlist,
        }
    }
}

/// What kind of data a finding holds.
#[derive(Debug, Clone, Copy, PartialEq, Eq, Structural)]
pub enum Category {
    Config,
    Cache,
    Data,
    State,
    SystemOrphan,
    OrphanDep,
}

/// A path that a scanner believes a removed package left behind.
#[derive(Debug)]
pub struct Finding {
    pub path: String,
    pub size_bytes: u64,
    pub package: String,
    pub confidence: Confidence,
    pub reasons: Vec<Reason>,
    pub category: Category,
    /// Number of individual files this finding represents.
    /// 0 = a single file/dir (not collapsed). >0 = a collapsed directory entry.
    pub file_count: u64,
}

/// The values a finding holds, with its strings and list as sequences.
pub struct FindingView {
    pub path: Seq<char>,
    pub size_bytes: u64,
    pub package: Seq<char>,
    pub confidence: Confidence,
    pub reasons: Seq<ReasonView>,
    pub category: Category,
    pub file_count: u64,
}

impl View for Finding {
    type V = FindingView;

    open spec fn view(&self) -> FindingView {
        FindingView {
            path: self.path@,
            size_bytes: self.size_bytes,
            package: self.package@,
            confidence: self.confidence,
            reasons: reason_views(self.reasons@),
            category: self.category,
            file_count: self.file_count,
        }
    }
}

/// The views of a list of findings.
pub open spec fn finding_views(v: Seq<Finding>) -> Seq<FindingView> {
    v.map_values(|f: Finding| f@)
}

/// The view of an optional finding.
pub open spec fn opt_finding_view(o: Option<Finding>) -> Option<FindingView> {
    match o {
        Some(f) => Some(f@),
        None => None,
    }
}

/// A copy of a list of reasons.
pub fn copy_reasons(v: &Vec<Reason>) -> (r: Vec<Reason>)
    ensures
        r@ == v@,
{
    let mut r: Vec<Reason> = Vec::new();
    let mut i: usize = 0;
    while i < v.len()
        invariant
            i <= v@.len(),
            r@ == v@.take(i as int),
        decreases v.len() - i,
    {
        r.push(v[i].clone());
        i += 1;
        assert(r@ =~= v@.take(i as int));
    }
    assert(v@.take(v@.len() as int) =~= v@);
    r
}

impl Clone for Finding {
    fn clone(&self) -> (r: Self)
        ensures
            r@ == self@,
    {
        Finding {
            path: self.path.clone(),
            size_bytes: self.size_bytes,
            package: self.package.clone(),
            confidence: self.confidence,
            reasons: copy_reasons(&self.reasons),
            category: self.category,
            file_count: self.file_count,
        }
    }
}

/// What a scan runs against.
pub struct ScanContext {
    pub removed_packages: Vec<String>,
    pub pacman_db: PacmanDb,
    pub config: Config,
    /// The real user's home directory. Scanners never read `$HOME`: the
    /// hook runs as root, where `$HOME` is `/root`, not the user's home.
    pub home_dir: String,
}

/// The path equals, component by component, one of the ignored paths.
pub open spec fn is_ignored_path(path: Seq<char>, ignored: Seq<String>) -> bool {
    exists|i: int| 0 <= i < ignored.len() && components(#[trigger] ignored[i]@) == components(path)
}

/// Whether `path` is one of the ignored paths (compared as paths).
pub fn path_is_ignored(path: &str, ignored: &Vec<String>) -> (b: bool)
    ensures
        b == is_ignored_path(path@, ignored@),
{
    let c = path_components(&chars_of(path));
    let mut i: usize = 0;
    while i < ignored.len()
        invariant
            i <= ignored@.len(),
            cview(c) == components(path@),
            forall|k: int| 0 <= k < i ==> components(#[trigger] ignored@[k]@) != components(path@),
        decreases ignored.len() - i,
    {
        let d = path_components(&chars_of(ignored[i].as_str()));
        if same_components(&d, &c) {
            return true;
        }
        i += 1;
    }
    false
}

/// Whether `pkg` is one of the ignored packages.
pub fn package_is_ignored(pkg: &str, ignored: &Vec<String>) -> (b: bool)
    ensures
        b == string_views(ignored@).contains(pkg@),
{
    let p = chars_of(pkg);
    let mut i: usize = 0;
    while i < ignored.len()
        invariant
            i <= ignored@.len(),
            p@ == pkg@,
            forall|k: int| 0 <= k < i ==> string_views(ignored@)[k] != pkg@,
        decreases ignored.len() - i,
    {
        if chars_eq(&chars_of(ignored[i].as_str()), &p) {
            assert(string_views(ignored@)[i as int] == pkg@);
            return true;
        }
        i += 1;
    }
    false
}

} // verus!
