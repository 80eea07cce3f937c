//! Safe deletion: which paths may be removed, what a run records, and where
//! quarantined paths go.
//!
//! Safety rules enforced here:
//! 1. Never delete pacman-owned paths.
//! 2. Never operate on bare top-level paths.
//! 3. Never delete a path with a `..` component.
//! 4. Record every move in the journal; dry runs record nothing.
use vstd::prelude::*;
use crate::journal::{sanitize_path_for_quarantine, without_leading_slashes, JournalAction, JournalEntry, QUARANTINE_DIR};
use crate::pacman::db::{normalized, PacmanDb};
use crate::path::{has_parent_component, join_path, path_components, path_join};
use crate::text::{chars_eq, chars_of, concat_chars, has_prefix, starts_with_chars, string_from_chars, string_views};

verus! {

/// Paths that are always refused.
pub const FORBIDDEN_PREFIXES: [&'static str; 12] = [
    "/", "/home", "/root", "/etc", "/usr", "/var", "/boot", "/proc", "/sys", "/run", "/dev", "/tmp",
];

/// The refused paths, as text.
pub open spec fn forbidden_paths() -> Seq<Seq<char>> {
    seq![
        "/"@, "/home"@, "/root"@, "/etc"@, "/usr"@, "/var"@, "/boot"@, "/proc"@, "/sys"@,
        "/run"@, "/dev"@, "/tmp"@,
    ]
}

/// How removed paths are disposed of.
#[derive(Debug, Clone, Copy, PartialEq, Eq, Structural)]
pub enum DeleteMode {
    Trash,
    Quarantine,
    Purge,
}

/// The delete mode a run uses: `--purge` wins, then the trash if configured,
/// else the quarantine.
pub fn pick_delete_mode(purge: bool, use_trash: bool) -> (m: DeleteMode)
    ensures
        purge ==> m == DeleteMode::Purge,
        !purge && use_trash ==> m == DeleteMode::Trash,
        !purge && !use_trash ==> m == DeleteMode::Quarantine,
{
    if purge {
        DeleteMode::Purge
    } else if use_trash {
        DeleteMode::Trash
    } else {
        DeleteMode::Quarantine
    }
}

/// Why a path was refused.
#[derive(Debug, Clone, Copy, PartialEq, Eq, Structural)]
pub enum RefusalKind {
    Forbidden,
    ParentComponent,
    OwnedByPacman,
}

/// A refused path and the reason.
#[derive(Debug)]
pub struct PathRefusal {
    pub kind: RefusalKind,
    pub path: String,
}

/// The message for a refusal.
pub open spec fn refusal_message(kind: RefusalKind, path: Seq<char>) -> Seq<char> {
    match kind {
        RefusalKind::Forbidden => "refusing to delete forbidden path: "@ + path,
        RefusalKind::ParentComponent => "path contains ..: "@ + path,
        RefusalKind::OwnedByPacman => "path is owned by pacman: "@ + path,
    }
}

impl PathRefusal {
    /// The message shown for the refusal.
    pub fn message(&self) -> (m: String)
        ensures
            m@ == refusal_message(self.kind, self.path@),
    {
        let head = match self.kind {
            RefusalKind::Forbidden => chars_of("refusing to delete forbidden path: "),
            RefusalKind::ParentComponent => chars_of("path contains ..: "),
            RefusalKind::OwnedByPacman => chars_of("path is owned by pacman: "),
        };
        string_from_chars(&concat_chars(&head, &chars_of(self.path.as_str())))
    }
}

/// The verdict on a path: refused for the first rule it breaks, in the order
/// forbidden path (compared as paths, so `/home/` and `//usr` count), `..`
/// component, owned by pacman; else accepted.
pub open spec fn path_verdict(p: Seq<char>, owned: Set<Seq<char>>) -> Option<RefusalKind> {
    if forbidden_paths().contains(normalized(p)) {
        Some(RefusalKind::Forbidden)
    } else if has_parent_component(p) {
        Some(RefusalKind::ParentComponent)
    } else if owned.contains(normalized(p)) {
        Some(RefusalKind::OwnedByPacman)
    } else {
        None
    }
}

/// Whether `path` may be deleted; if not, why.
pub fn validate_path(path: &str, db: &PacmanDb) -> (r: Result<(), PathRefusal>)
    requires
        path@.len() > 0,
    ensures
        match path_verdict(path@, db@) {
            None => r is Ok,
            Some(kind) => r matches Err(e) && e.kind == kind && e.path@ == path@,
        },
{
    let p = chars_of(path);
    let n = chars_of(crate::pacman::db::normalize_path(path).as_str());
    let mut i: usize = 0;
    while i < 12
        invariant
            i <= 12,
            p@ == path@,
            n@ == normalized(path@),
            forall|k: int| 0 <= k < i ==> forbidden_paths()[k] != n@,
        decreases 12 - i,
    {
        let f = chars_of(FORBIDDEN_PREFIXES[i]);
        proof {
            reveal_strlit("/");
        }
        assert(f@ == forbidden_paths()[i as int]);
        if chars_eq(&n, &f) {
            assert(forbidden_paths()[i as int] == n@);
            assert(forbidden_paths().contains(n@));
            assert(path_verdict(path@, db@) == Some(RefusalKind::Forbidden));
            return Err(PathRefusal { kind: RefusalKind::Forbidden, path: string_from_chars(&p) });
        }
        i += 1;
    }
    assert(!forbidden_paths().contains(n@)) by {
        if forbidden_paths().contains(n@) {
            let k = choose|k: int| 0 <= k < 12 && forbidden_paths()[k] == n@;
        }
    }
    let comps = path_components(&p);
    let dots: Vec<char> = vec!['.', '.'];
    assert(dots@ =~= seq!['.', '.']);
    if crate::path::has_component(&comps, &dots) {
        return Err(PathRefusal { kind: RefusalKind::ParentComponent, path: string_from_chars(&p) });
    }
    if crate::pacman::owns::is_owned(path, db) {
        return Err(PathRefusal { kind: RefusalKind::OwnedByPacman, path: string_from_chars(&p) });
    }
    Ok(())
}

/// What happens to one path of a run.
#[derive(Debug)]
pub enum PathPlan {
    /// Refused; recorded as failed.
    Refuse(PathRefusal),
    /// Dry run: reported as removed, nothing touched.
    Pretend,
    /// Measure, move or delete, and journal it.
    Delete,
}

/// The plan for a path: refused when it may not be deleted, otherwise only
/// pretended on a dry run, otherwise deleted.
pub fn plan_path(path: &str, db: &PacmanDb, dry_run: bool) -> (p: PathPlan)
    requires
        path@.len() > 0,
    ensures
        match path_verdict(path@, db@) {
            Some(kind) => p matches PathPlan::Refuse(e) && e.kind == kind && e.path@ == path@,
            None => if dry_run { p is Pretend } else { p is Delete },
        },
{
    match validate_path(path, db) {
        Err(e) => PathPlan::Refuse(e),
        Ok(()) => if dry_run {
            PathPlan::Pretend
        } else {
            PathPlan::Delete
        },
    }
}

/// How a path that is not deleted ended.
#[derive(Debug)]
pub enum PathOutcome {
    Refused(PathRefusal),
    Pretended,
}

/// Sum of the action sizes, saturating at `u64::MAX`.
pub open spec fn total_size(actions: Seq<JournalAction>) -> int
    decreases actions.len(),
{
    if actions.len() == 0 {
        0
    } else {
        total_size(actions.drop_last()) + actions.last().size
    }
}

/// The bytes a run reclaimed: what was moved, saturating at `u64::MAX`.
pub open spec fn freed(actions: Seq<JournalAction>) -> u64 {
    if total_size(actions) > u64::MAX { u64::MAX } else { total_size(actions) as u64 }
}

/// The bytes a run reclaimed, counted from the journal actions.
pub fn freed_bytes(actions: &[JournalAction]) -> (r: u64)
    ensures
        r == freed(actions@),
{
    let mut acc: u64 = 0;
    let mut i: usize = 0;
    while i < actions.len()
        invariant
            i <= actions@.len(),
            acc == freed(actions@.take(i as int)),
        decreases actions.len() - i,
    {
        proof {
            let t = actions@.take(i + 1);
            assert(t.drop_last() =~= actions@.take(i as int));
            lemma_total_size_nonneg(actions@.take(i as int));
        }
        acc = acc.saturating_add(actions[i].size);
        i += 1;
    }
    assert(actions@.take(actions@.len() as int) =~= actions@);
    acc
}

proof fn lemma_total_size_nonneg(actions: Seq<JournalAction>)
    ensures
        total_size(actions) >= 0,
    decreases actions.len(),
{
    if actions.len() > 0 {
        lemma_total_size_nonneg(actions.drop_last());
    }
}

/// What a deletion run reports.
#[derive(Debug)]
pub struct ExecutionResult {
    pub succeeded: Vec<String>,
    pub failed: Vec<(String, String)>,
    pub journal_path: Option<String>,
    /// Total bytes reclaimed, taken from the journal actions so it counts what
    /// was actually moved rather than what was proposed. Zero on a dry run,
    /// where nothing is journalled.
    pub freed_bytes: u64,
}

/// Where one path of a run stands.
#[derive(Debug)]
pub enum PathStatus {
    /// Refused before anything was done, with the message.
    Refused(String),
    /// Reported as deleted on a dry run.
    Pretended,
    /// Listed in the journal and not moved yet.
    Listed,
    /// Moved where the journal says.
    Moved,
    /// Not moved, with the message.
    Failed(String),
}

/// One path of a run.
#[derive(Debug)]
pub struct PathEntry {
    pub path: String,
    pub status: PathStatus,
}

/// A path that ended well: moved, or reported as deleted on a dry run.
pub open spec fn succeeded_status(s: PathStatus) -> bool {
    s is Pretended || s is Moved
}

/// The message of a path that ended badly.
pub open spec fn failure_message(s: PathStatus) -> Option<Seq<char>> {
    match s {
        PathStatus::Refused(m) => Some(m@),
        PathStatus::Failed(m) => Some(m@),
        _ => None,
    }
}

/// The paths that ended well, in the order they were given.
pub open spec fn succeeded_of(es: Seq<PathEntry>) -> Seq<Seq<char>>
    decreases es.len(),
{
    if es.len() == 0 {
        Seq::<Seq<char>>::empty()
    } else if succeeded_status(es.last().status) {
        succeeded_of(es.drop_last()).push(es.last().path@)
    } else {
        succeeded_of(es.drop_last())
    }
}

/// The paths that ended badly, with their messages, in the order they were
/// given.
pub open spec fn failed_of(es: Seq<PathEntry>) -> Seq<(Seq<char>, Seq<char>)>
    decreases es.len(),
{
    if es.len() == 0 {
        Seq::<(Seq<char>, Seq<char>)>::empty()
    } else {
        match failure_message(es.last().status) {
            Some(m) => failed_of(es.drop_last()).push((es.last().path@, m)),
            None => failed_of(es.drop_last()),
        }
    }
}

/// Failures as text.
pub open spec fn failure_views(v: Seq<(String, String)>) -> Seq<(Seq<char>, Seq<char>)> {
    v.map_values(|f: (String, String)| (f.0@, f.1@))
}

/// What a run holds: its journal; its paths in the order they were given,
/// with where each stands; for each journal action, the path it stands for;
/// how many actions were carried out; whether the journal as it stands was
/// written; whether a journal file of the run is on disk; and whether the
/// run was stopped.
pub struct RunView {
    pub journal: JournalEntry,
    pub entries: Seq<PathEntry>,
    pub listed: Seq<usize>,
    pub dry_run: bool,
    pub moved: usize,
    pub journal_saved: bool,
    pub journal_on_disk: bool,
    pub stopped: bool,
}

/// A run is consistent: journal action `k` stands for path `listed[k]` and
/// names it; the actions keep the order of their paths; the first `moved`
/// of them were moved and the others are still listed; every listed or moved
/// path has its action; and a stopped run has nothing left to move.
pub open spec fn run_wf(v: RunView) -> bool {
    let n = v.journal.actions@.len();
    &&& v.listed.len() == n
    &&& v.moved <= n
    &&& v.stopped ==> v.moved == n
    &&& forall|k: int|
        0 <= k < n ==> {
            &&& (#[trigger] v.listed[k]) < v.entries.len()
            &&& v.entries[v.listed[k] as int].path@ == v.journal.actions@[k].original@
            &&& if k < v.moved {
                v.entries[v.listed[k] as int].status is Moved
            } else {
                v.entries[v.listed[k] as int].status is Listed
            }
        }
    &&& forall|k: int, l: int| 0 <= k < l < n ==> #[trigger] v.listed[k] < #[trigger] v.listed[l]
    &&& forall|i: int|
        0 <= i < v.entries.len() && ((#[trigger] v.entries[i]).status is Listed || v.entries[i].status is Moved)
            ==> exists|k: int| 0 <= k < n && #[trigger] v.listed[k] == i
}

/// A deletion run in progress. Every path to be moved is first listed in
/// the journal with its intended destination; the journal is written before
/// any listed path is moved, and written again whenever an outcome changes
/// what it lists. Each path keeps its place in the order the paths were
/// given, whatever happens to it.
#[derive(Debug)]
pub struct Execution {
    journal: JournalEntry,
    entries: Vec<PathEntry>,
    listed: Vec<usize>,
    dry_run: bool,
    moved: usize,
    journal_saved: bool,
    journal_on_disk: bool,
    stopped: bool,
}

impl View for Execution {
    type V = RunView;

    closed spec fn view(&self) -> RunView {
        RunView {
            journal: self.journal,
            entries: self.entries@,
            listed: self.listed@,
            dry_run: self.dry_run,
            moved: self.moved,
            journal_saved: self.journal_saved,
            journal_on_disk: self.journal_on_disk,
            stopped: self.stopped,
        }
    }
}

/// What a run does next.
#[derive(Debug, Clone, Copy, PartialEq, Eq, Structural)]
pub enum RunAction {
    /// Write the journal as it stands.
    WriteJournal,
    /// Move the path of journal action `index`.
    Move { index: usize },
    /// Remove the journal file: the journal lists nothing any more.
    DiscardJournal,
    /// Nothing is left to do.
    Finish,
}

/// The next step of a run: nothing on a dry run; a journal file that no
/// longer lists anything is removed; nothing more once stopped; otherwise the
/// journal is written whenever it changed since it was last written and still
/// lists something, and only then is the next listed path moved.
pub open spec fn next_step(v: RunView) -> RunAction {
    let n = v.journal.actions@.len();
    if v.dry_run {
        RunAction::Finish
    } else if n == 0 && v.journal_on_disk {
        RunAction::DiscardJournal
    } else if v.stopped {
        RunAction::Finish
    } else if !v.journal_saved && n > 0 {
        RunAction::WriteJournal
    } else if v.moved < n {
        RunAction::Move { index: v.moved }
    } else {
        RunAction::Finish
    }
}

/// A path after the run was stopped: one still listed failed with `msg`.
pub open spec fn after_stop(e: PathEntry, msg: String) -> PathEntry {
    if e.status is Listed {
        PathEntry { path: e.path, status: PathStatus::Failed(msg) }
    } else {
        e
    }
}

/// The journal's destination for a path before it is moved: the trash, its
/// place in the quarantine, or nowhere for a purge.
pub open spec fn intended_destination(path: Seq<char>, mode: DeleteMode, timestamp: Seq<char>) -> Seq<char> {
    match mode {
        DeleteMode::Trash => "trash://"@,
        DeleteMode::Quarantine => path_join(path_join(QUARANTINE_DIR@, timestamp), without_leading_slashes(path)),
        DeleteMode::Purge => "purged://"@,
    }
}

/// Where the journal says a path goes before it is moved.
pub fn destination_for(path: &str, mode: DeleteMode, timestamp: &str) -> (r: String)
    ensures
        r@ == intended_destination(path@, mode, timestamp@),
{
    match mode {
        DeleteMode::Trash => string_from_chars(&chars_of("trash://")),
        DeleteMode::Quarantine => quarantine_destination(path, timestamp),
        DeleteMode::Purge => string_from_chars(&chars_of("purged://")),
    }
}

impl Execution {
    /// Starts a run for the given packages, with a fresh journal entry.
    pub fn start(trigger: &str, packages: Vec<String>, dry_run: bool) -> (e: Self)
        requires
            packages@.len() > 0,
        ensures
            e@.journal.trigger@ == trigger@,
            e@.journal.packages@ == packages@,
            e@.journal.actions@.len() == 0,
            e@.entries.len() == 0,
            e@.listed.len() == 0,
            e@.dry_run == dry_run,
            e@.moved == 0,
            !e@.journal_saved,
            !e@.journal_on_disk,
            !e@.stopped,
            run_wf(e@),
    {
        Execution {
            journal: JournalEntry::new(trigger, packages),
            entries: Vec::new(),
            listed: Vec::new(),
            dry_run,
            moved: 0,
            journal_saved: false,
            journal_on_disk: false,
            stopped: false,
        }
    }

    /// The journal as it stands.
    pub fn journal(&self) -> (j: &JournalEntry)
        ensures
            *j == self@.journal,
    {
        &self.journal
    }

    /// Records a path that is not deleted: refused, with the refusal's
    /// message, or pretended on a dry run.
    pub fn record(&mut self, path: String, outcome: PathOutcome)
        requires
            path@.len() > 0,
            run_wf(old(self)@),
        ensures
            run_wf(final(self)@),
            final(self)@.journal == old(self)@.journal,
            final(self)@.listed == old(self)@.listed,
            final(self)@.dry_run == old(self)@.dry_run,
            final(self)@.moved == old(self)@.moved,
            final(self)@.journal_saved == old(self)@.journal_saved,
            final(self)@.journal_on_disk == old(self)@.journal_on_disk,
            final(self)@.stopped == old(self)@.stopped,
            final(self)@.entries.len() == old(self)@.entries.len() + 1,
            final(self)@.entries.drop_last() == old(self)@.entries,
            final(self)@.entries.last().path == path,
            match outcome {
                PathOutcome::Refused(e) => {
                    &&& final(self)@.entries.last().status is Refused
                    &&& failure_message(final(self)@.entries.last().status) == Some(refusal_message(e.kind, e.path@))
                },
                PathOutcome::Pretended => final(self)@.entries.last().status is Pretended,
            },
    {
        let status = match outcome {
            PathOutcome::Refused(e) => PathStatus::Refused(e.message()),
            PathOutcome::Pretended => PathStatus::Pretended,
        };
        let ghost v0 = self@;
        let ghost before = self.entries@;
        assert(status is Refused || status is Pretended);
        self.entries.push(PathEntry { path, status });
        assert(self.entries@.drop_last() =~= before);
        proof {
            let v = self@;
            assert forall|k: int| 0 <= k < v.listed.len() implies v.entries[(#[trigger] v.listed[k]) as int] == before[v.listed[k] as int] by {}
            assert forall|i: int|
                0 <= i < v.entries.len() && ((#[trigger] v.entries[i]).status is Listed || v.entries[i].status is Moved)
                implies exists|k: int| 0 <= k < v.journal.actions@.len() && #[trigger] v.listed[k] == i by {
                assert(i < before.len());
                assert(v.entries[i] == v0.entries[i]);
                let k0 = choose|k: int| 0 <= k < v0.journal.actions@.len() && #[trigger] v0.listed[k] == i;
                assert(v.listed[k0] == i);
            }
        }
    }

    /// Lists a path to be moved, with its intended destination and size, in
    /// the journal; the journal must then be written again before the move.
    pub fn intend(&mut self, path: String, moved_to: String, size: u64)
        requires
            path@.len() > 0,
            run_wf(old(self)@),
            !old(self)@.stopped,
        ensures
            run_wf(final(self)@),
            final(self)@.journal.id == old(self)@.journal.id,
            final(self)@.journal.timestamp == old(self)@.journal.timestamp,
            final(self)@.journal.trigger == old(self)@.journal.trigger,
            final(self)@.journal.packages@ == old(self)@.journal.packages@,
            final(self)@.journal.actions@ == old(self)@.journal.actions@.push(
                JournalAction { original: path, moved_to, size },
            ),
            final(self)@.entries == old(self)@.entries.push(PathEntry { path, status: PathStatus::Listed }),
            final(self)@.listed == old(self)@.listed.push(old(self)@.entries.len() as usize),
            final(self)@.dry_run == old(self)@.dry_run,
            final(self)@.moved == old(self)@.moved,
            final(self)@.stopped == old(self)@.stopped,
            final(self)@.journal_on_disk == old(self)@.journal_on_disk,
            !final(self)@.journal_saved,
    {
        let ghost before = self.entries@;
        let ghost listed0 = self.listed@;
        let at = self.entries.len();
        let original = path.clone();
        self.entries.push(PathEntry { path, status: PathStatus::Listed });
        self.listed.push(at);
        self.journal.add_action(original, moved_to, size);
        self.journal_saved = false;
        proof {
            let v = self@;
            let n = v.journal.actions@.len();
            assert forall|k: int| 0 <= k < n - 1 implies v.entries[(#[trigger] v.listed[k]) as int] == before[listed0[k] as int] by {
                assert(v.listed[k] == listed0[k]);
            }
            assert forall|k: int, l: int| 0 <= k < l < n implies #[trigger] v.listed[k] < #[trigger] v.listed[l] by {
                if l == n - 1 {
                    assert(v.listed[k] == listed0[k]);
                }
            }
            assert forall|i: int|
                0 <= i < v.entries.len() && ((#[trigger] v.entries[i]).status is Listed || v.entries[i].status is Moved)
                implies exists|k: int| 0 <= k < n && #[trigger] v.listed[k] == i by {
                if i == at {
                    assert(v.listed[n - 1] == i);
                } else {
                    assert(v.entries[i] == before[i]);
                    let k0 = choose|k: int| 0 <= k < n - 1 && #[trigger] listed0[k] == i;
                    assert(v.listed[k0] == i);
                }
            }
        }
    }

    /// Notes that the journal, as it stands, was written.
    pub fn journal_written(&mut self)
        requires
            run_wf(old(self)@),
        ensures
            run_wf(final(self)@),
            final(self)@.journal == old(self)@.journal,
            final(self)@.entries == old(self)@.entries,
            final(self)@.listed == old(self)@.listed,
            final(self)@.dry_run == old(self)@.dry_run,
            final(self)@.moved == old(self)@.moved,
            final(self)@.stopped == old(self)@.stopped,
            final(self)@.journal_saved,
            final(self)@.journal_on_disk,
    {
        self.journal_saved = true;
        self.journal_on_disk = true;
    }

    /// Notes that the journal file, which listed nothing any more, was
    /// removed.
    pub fn journal_discarded(&mut self)
        requires
            run_wf(old(self)@),
        ensures
            run_wf(final(self)@),
            final(self)@.journal == old(self)@.journal,
            final(self)@.entries == old(self)@.entries,
            final(self)@.listed == old(self)@.listed,
            final(self)@.dry_run == old(self)@.dry_run,
            final(self)@.moved == old(self)@.moved,
            final(self)@.stopped == old(self)@.stopped,
            final(self)@.journal_saved == old(self)@.journal_saved,
            !final(self)@.journal_on_disk,
    {
        self.journal_on_disk = false;
    }

    /// What the run does next. A listed path is moved only when the journal
    /// listing it has been written: moves follow the journal.
    pub fn next_action(&self) -> (a: RunAction)
        ensures
            a == next_step(self@),
            a matches RunAction::Move { index } ==> index == self@.moved && index < self@.journal.actions@.len()
                && self@.journal_saved && !self@.dry_run && !self@.stopped,
            a is WriteJournal ==> !self@.journal_saved && self@.journal.actions@.len() > 0,
    {
        if self.dry_run {
            RunAction::Finish
        } else if self.journal.actions.len() == 0 && self.journal_on_disk {
            RunAction::DiscardJournal
        } else if self.stopped {
            RunAction::Finish
        } else if !self.journal_saved && self.journal.actions.len() > 0 {
            RunAction::WriteJournal
        } else if self.moved < self.journal.actions.len() {
            RunAction::Move { index: self.moved }
        } else {
            RunAction::Finish
        }
    }

    /// Records how the move of journal action `index` (the next one) ended:
    /// moved to `Ok(destination)`, which the journal then holds (to be
    /// written again if it differs from the intended one), or failed with
    /// `Err(message)`, when the path fails with that message and leaves the
    /// journal (to be written again). The path keeps its place among the
    /// others.
    pub fn settle(&mut self, index: usize, result: Result<String, String>)
        requires
            run_wf(old(self)@),
            index == old(self)@.moved,
            index < old(self)@.journal.actions@.len(),
        ensures
            run_wf(final(self)@),
            final(self)@.journal.id == old(self)@.journal.id,
            final(self)@.journal.timestamp == old(self)@.journal.timestamp,
            final(self)@.journal.trigger == old(self)@.journal.trigger,
            final(self)@.journal.packages@ == old(self)@.journal.packages@,
            final(self)@.dry_run == old(self)@.dry_run,
            final(self)@.stopped == old(self)@.stopped,
            final(self)@.journal_on_disk == old(self)@.journal_on_disk,
            ({
                let a = old(self)@.journal.actions@[index as int];
                let i = old(self)@.listed[index as int] as int;
                let p = old(self)@.entries[i].path;
                match result {
                    Ok(dest) => {
                        &&& final(self)@.journal.actions@ == old(self)@.journal.actions@.update(
                            index as int,
                            JournalAction { original: a.original, moved_to: dest, size: a.size },
                        )
                        &&& final(self)@.listed == old(self)@.listed
                        &&& final(self)@.entries == old(self)@.entries.update(i, PathEntry { path: p, status: PathStatus::Moved })
                        &&& final(self)@.moved == old(self)@.moved + 1
                        &&& final(self)@.journal_saved == (old(self)@.journal_saved && dest@ == a.moved_to@)
                    },
                    Err(msg) => {
                        &&& final(self)@.journal.actions@ == old(self)@.journal.actions@.remove(index as int)
                        &&& final(self)@.listed == old(self)@.listed.remove(index as int)
                        &&& final(self)@.entries == old(self)@.entries.update(
                            i,
                            PathEntry { path: p, status: PathStatus::Failed(msg) },
                        )
                        &&& final(self)@.moved == old(self)@.moved
                        &&& !final(self)@.journal_saved
                    },
                }
            }),
    {
        let ghost v0 = self@;
        let n = self.journal.actions.len();
        assert(self.moved < n);
        assert(self.listed@[index as int] < self.entries@.len());
        let i = self.listed[index];
        let path = self.entries[i].path.clone();
        let a = self.journal.actions.remove(index);
        match result {
            Ok(dest) => {
                let same = chars_eq(&chars_of(dest.as_str()), &chars_of(a.moved_to.as_str()));
                self.journal.actions.insert(index, JournalAction { original: a.original, moved_to: dest, size: a.size });
                self.entries.set(i, PathEntry { path, status: PathStatus::Moved });
                self.moved = self.moved + 1;
                self.journal_saved = self.journal_saved && same;
                proof {
                    let v = self@;
                    assert(v.journal.actions@ =~= v0.journal.actions@.update(
                        index as int,
                        JournalAction { original: a.original, moved_to: v.journal.actions@[index as int].moved_to, size: a.size },
                    ));
                    assert forall|k: int| 0 <= k < n && k != index implies v.entries[(#[trigger] v.listed[k]) as int] == v0.entries[v0.listed[k] as int] by {
                        if k < index {
                            assert(v0.listed[k] < v0.listed[index as int]);
                        } else {
                            assert(v0.listed[index as int] < v0.listed[k]);
                        }
                    }
                    assert forall|i2: int|
                        0 <= i2 < v.entries.len() && ((#[trigger] v.entries[i2]).status is Listed || v.entries[i2].status is Moved)
                        implies exists|k: int| 0 <= k < n && #[trigger] v.listed[k] == i2 by {
                        if i2 == i as int {
                            assert(v.listed[index as int] == i2);
                        } else {
                            assert(v.entries[i2] == v0.entries[i2]);
                            let k0 = choose|k: int| 0 <= k < n && #[trigger] v0.listed[k] == i2;
                            assert(v.listed[k0] == i2);
                        }
                    }
                }
            },
            Err(msg) => {
                self.listed.remove(index);
                self.entries.set(i, PathEntry { path, status: PathStatus::Failed(msg) });
                self.journal_saved = false;
                proof {
                    let v = self@;
                    assert forall|k: int| 0 <= k < n - 1 implies {
                        &&& (#[trigger] v.listed[k]) == (if k < index { v0.listed[k] } else { v0.listed[k + 1] })
                        &&& v.entries[v.listed[k] as int] == v0.entries[v.listed[k] as int]
                        &&& v.journal.actions@[k] == (if k < index { v0.journal.actions@[k] } else { v0.journal.actions@[k + 1] })
                    } by {
                        if k < index {
                            assert(v0.listed[k] < v0.listed[index as int]);
                        } else {
                            assert(v0.listed[index as int] < v0.listed[k + 1]);
                        }
                    }
                    assert forall|k: int, l: int| 0 <= k < l < n - 1 implies #[trigger] v.listed[k] < #[trigger] v.listed[l] by {
                        let k1 = if k < index { k } else { k + 1 };
                        let l1 = if l < index { l } else { l + 1 };
                        assert(v.listed[k] == v0.listed[k1]);
                        assert(v.listed[l] == v0.listed[l1]);
                        assert(v0.listed[k1] < v0.listed[l1]);
                    }
                    assert forall|i2: int|
                        0 <= i2 < v.entries.len() && ((#[trigger] v.entries[i2]).status is Listed || v.entries[i2].status is Moved)
                        implies exists|k: int| 0 <= k < n - 1 && #[trigger] v.listed[k] == i2 by {
                        assert(i2 != i as int);
                        assert(v.entries[i2] == v0.entries[i2]);
                        let k0 = choose|k: int| 0 <= k < n && #[trigger] v0.listed[k] == i2;
                        assert(k0 != index);
                        if k0 < index {
                            assert(v.listed[k0] == i2);
                        } else {
                            assert(v.listed[k0 - 1] == i2);
                        }
                    }
                }
            },
        }
    }

    /// Stops the run when the journal cannot be written: every path still
    /// listed fails with `msg` and leaves the journal, and nothing more is
    /// moved. Each path keeps its place among the others.
    pub fn stop(&mut self, msg: String)
        requires
            run_wf(old(self)@),
        ensures
            run_wf(final(self)@),
            final(self)@.stopped,
            final(self)@.entries.len() == old(self)@.entries.len(),
            forall|i: int|
                0 <= i < old(self)@.entries.len() ==> #[trigger] final(self)@.entries[i] == after_stop(
                    old(self)@.entries[i],
                    msg,
                ),
            final(self)@.journal.actions@ == old(self)@.journal.actions@.take(old(self)@.moved as int),
            final(self)@.listed == old(self)@.listed.take(old(self)@.moved as int),
            final(self)@.moved == old(self)@.moved,
            final(self)@.dry_run == old(self)@.dry_run,
            final(self)@.journal_on_disk == old(self)@.journal_on_disk,
            final(self)@.journal.id == old(self)@.journal.id,
            final(self)@.journal.timestamp == old(self)@.journal.timestamp,
            final(self)@.journal.trigger == old(self)@.journal.trigger,
            final(self)@.journal.packages@ == old(self)@.journal.packages@,
    {
        let ghost v0 = self@;
        let len = self.entries.len();
        let mut i: usize = 0;
        while i < len
            invariant
                i <= len,
                len == v0.entries.len(),
                self.entries@.len() == len,
                self.journal == v0.journal,
                self.listed@ == v0.listed,
                self.moved == v0.moved,
                self.dry_run == v0.dry_run,
                self.journal_on_disk == v0.journal_on_disk,
                forall|j: int| 0 <= j < i ==> #[trigger] self.entries@[j] == after_stop(v0.entries[j], msg),
                forall|j: int| i <= j < len ==> #[trigger] self.entries@[j] == v0.entries[j],
            decreases len - i,
        {
            let listed_here = match &self.entries[i].status {
                PathStatus::Listed => true,
                _ => false,
            };
            if listed_here {
                let path = self.entries[i].path.clone();
                self.entries.set(i, PathEntry { path, status: PathStatus::Failed(msg.clone()) });
            }
            i += 1;
        }
        let m = self.moved;
        self.journal.actions.truncate(m);
        self.listed.truncate(m);
        self.stopped = true;
        proof {
            let v = self@;
            assert forall|k: int| 0 <= k < m implies v.entries[(#[trigger] v.listed[k]) as int] == v0.entries[v0.listed[k] as int] by {
                assert(v.listed[k] == v0.listed[k]);
            }
            assert forall|i2: int|
                0 <= i2 < v.entries.len() && ((#[trigger] v.entries[i2]).status is Listed || v.entries[i2].status is Moved)
                implies exists|k: int| 0 <= k < m && #[trigger] v.listed[k] == i2 by {
                assert(v.entries[i2] == after_stop(v0.entries[i2], msg));
                assert(v0.entries[i2].status is Moved);
                let k0 = choose|k: int| 0 <= k < v0.listed.len() && #[trigger] v0.listed[k] == i2;
                assert(k0 < m);
                assert(v.listed[k0] == i2);
            }
        }
    }

    /// The report of the run: the paths that ended well and those that ended
    /// badly, each in the order the paths were given, the journal's location
    /// if one was written, and the bytes the journal's actions account for.
    pub fn finish(self, journal_path: Option<String>) -> (r: ExecutionResult)
        ensures
            string_views(r.succeeded@) == succeeded_of(self@.entries),
            failure_views(r.failed@) == failed_of(self@.entries),
            r.journal_path == journal_path,
            r.freed_bytes == freed(self@.journal.actions@),
    {
        let ghost es = self.entries@;
        let mut succeeded: Vec<String> = Vec::new();
        let mut failed: Vec<(String, String)> = Vec::new();
        let mut i: usize = 0;
        while i < self.entries.len()
            invariant
                es == self.entries@,
                i <= es.len(),
                string_views(succeeded@) == succeeded_of(es.take(i as int)),
                failure_views(failed@) == failed_of(es.take(i as int)),
            decreases es.len() - i,
        {
            let ghost t1 = es.take(i + 1);
            assert(t1.drop_last() =~= es.take(i as int));
            assert(t1.last() == es[i as int]);
            let e = &self.entries[i];
            let ghost s0 = string_views(succeeded@);
            let ghost f0 = failure_views(failed@);
            match &e.status {
                PathStatus::Pretended | PathStatus::Moved => {
                    succeeded.push(e.path.clone());
                    assert(string_views(succeeded@) =~= s0.push(e.path@));
                },
                PathStatus::Refused(m) | PathStatus::Failed(m) => {
                    failed.push((e.path.clone(), m.clone()));
                    assert(failure_views(failed@) =~= f0.push((e.path@, m@)));
                },
                PathStatus::Listed => {},
            }
            i += 1;
        }
        assert(es.take(es.len() as int) =~= es);
        let freed_bytes = freed_bytes(&self.journal.actions);
        ExecutionResult { succeeded, failed, journal_path, freed_bytes }
    }
}

/// Where a path is moved in quarantine: `<quarantine>/<timestamp>/<path
/// without its leading slashes>`.
pub fn quarantine_destination(path: &str, timestamp: &str) -> (r: String)
    ensures
        r@ == path_join(path_join(QUARANTINE_DIR@, timestamp@), without_leading_slashes(path@)),
{
    let dir = join_path(&chars_of(QUARANTINE_DIR), &chars_of(timestamp));
    let rel = sanitize_path_for_quarantine(path);
    string_from_chars(&join_path(&dir, &chars_of(rel.as_str())))
}

/// One step of undoing a journal entry.
#[derive(Debug, Clone, Copy, PartialEq, Eq, Structural)]
pub enum UndoStep {
    /// Dry run: report what would be restored.
    Preview,
    /// Moved to the desktop trash: restore by hand from the file manager.
    FromTrash,
    /// Rename back from the quarantine.
    Restore,
}

/// How an action is undone.
pub fn undo_step(action: &JournalAction, dry_run: bool) -> (s: UndoStep)
    ensures
        dry_run ==> s == UndoStep::Preview,
        !dry_run && has_prefix(action.moved_to@, "trash://"@) ==> s == UndoStep::FromTrash,
        !dry_run && !has_prefix(action.moved_to@, "trash://"@) ==> s == UndoStep::Restore,
{
    if dry_run {
        UndoStep::Preview
    } else if starts_with_chars(&chars_of(action.moved_to.as_str()), &chars_of("trash://")) {
        UndoStep::FromTrash
    } else {
        UndoStep::Restore
    }
}

/// Every path that is, compared as a path, one of the forbidden ones (with or
/// without a trailing slash), or has a `..` component, or is owned by
/// pacman, is refused; every other path is accepted.
pub proof fn law_refused_exactly_when_unsafe(p: Seq<char>, owned: Set<Seq<char>>)
    ensures
        path_verdict(p, owned) is None <==> (!forbidden_paths().contains(normalized(p)) && !has_parent_component(p)
            && !owned.contains(normalized(p))),
{
}

/// A path is moved only once the journal listing it has been written: the
/// next step of a run is a move only when the journal as it stands was
/// written, the run is neither a dry run nor stopped, and the move is of the
/// next listed action.
pub proof fn law_moves_follow_journal(v: RunView)
    ensures
        next_step(v) matches RunAction::Move { index } ==> {
            &&& v.journal_saved
            &&& !v.dry_run
            &&& !v.stopped
            &&& index == v.moved
            &&& index < v.journal.actions@.len()
        },
{
}

/// Whenever the journal lists something that was not written yet, the run
/// writes it before anything else (unless it is a dry run or was stopped).
pub proof fn law_unwritten_listing_is_written_first(v: RunView)
    requires
        !v.journal_saved,
        v.journal.actions@.len() > 0,
        !v.dry_run,
        !v.stopped,
    ensures
        next_step(v) == RunAction::WriteJournal,
{
}

/// A dry run never writes a journal and never moves anything.
pub proof fn law_dry_run_touches_nothing(v: RunView)
    requires
        v.dry_run,
    ensures
        next_step(v) == RunAction::Finish,
{
}

proof fn lemma_every_entry_reported(es: Seq<PathEntry>)
    requires
        forall|i: int| 0 <= i < es.len() ==> !((#[trigger] es[i]).status is Listed),
    ensures
        succeeded_of(es).len() + failed_of(es).len() == es.len(),
    decreases es.len(),
{
    if es.len() > 0 {
        let d = es.drop_last();
        assert forall|i: int| 0 <= i < d.len() implies !((#[trigger] d[i]).status is Listed) by {
            assert(d[i] == es[i]);
        }
        lemma_every_entry_reported(d);
        assert(es.last() == es[es.len() - 1]);
    }
}

/// When a run that is not a dry run has nothing left to do, every path it was
/// given is reported exactly once: either among the paths that ended well or
/// among those that ended badly.
pub proof fn law_finished_run_reports_every_path(v: RunView)
    requires
        run_wf(v),
        !v.dry_run,
        next_step(v) == RunAction::Finish,
    ensures
        succeeded_of(v.entries).len() + failed_of(v.entries).len() == v.entries.len(),
{
    assert(v.moved == v.journal.actions@.len());
    assert forall|i: int| 0 <= i < v.entries.len() implies !((#[trigger] v.entries[i]).status is Listed) by {
        if v.entries[i].status is Listed {
            let k = choose|k: int| 0 <= k < v.journal.actions@.len() && #[trigger] v.listed[k] == i;
            assert(v.entries[v.listed[k] as int].status is Moved);
        }
    }
    lemma_every_entry_reported(v.entries);
}

} // verus!
