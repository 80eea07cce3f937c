//! The undo journal: what was moved where. A deletion run
//! (`crate::executor::Execution`) lists each path here with its intended
//! destination, and has the journal written before the path is moved.
use vstd::prelude::*;
use crate::text::{chars_of, slice_chars, string_from_chars};

verus! {

/// Where a privileged run keeps the quarantine.
pub const QUARANTINE_DIR: &'static str = "/var/lib/pacrid/quarantine";

/// One moved path.
#[derive(Debug)]
pub struct JournalAction {
    pub original: String,
    pub moved_to: String,
    pub size: u64,
}

/// A point in time: seconds since the Unix epoch and the nanoseconds after them.
#[derive(Debug, Clone, Copy, PartialEq, Eq, Structural)]
pub struct JournalTime {
    pub secs: i64,
    pub nanos: u32,
}

/// `a` is strictly later than `b`.
pub open spec fn later(a: JournalTime, b: JournalTime) -> bool {
    a.secs > b.secs || (a.secs == b.secs && a.nanos > b.nanos)
}

/// One run of the tool: its id, when it ran, what triggered it, the packages
/// it cleaned for and the paths it moved.
#[derive(Debug)]
pub struct JournalEntry {
    pub id: String,
    pub timestamp: JournalTime,
    pub trigger: String,
    pub packages: Vec<String>,
    pub actions: Vec<JournalAction>,
}

/// Whether chrono's `DateTime::from_timestamp` accepts these seconds and
/// nanoseconds (returns `Some`).
pub uninterp spec fn chrono_accepts(secs: i64, nanos: u32) -> bool;

/// The id chrono formats for the time: `%Y-%m-%dT%H-%M-%SZ` in UTC.
pub uninterp spec fn journal_id_text(secs: i64, nanos: u32) -> Seq<char>;

/// The current time, from chrono's `Utc::now`. `Utc::now` reads the system
/// clock after the epoch and builds the value with `DateTime::from_timestamp`
/// from whole seconds and sub-second nanoseconds, so those parts are
/// non-negative, below a second, and accepted back. Nothing more is known of
/// the value: it is whatever the clock says.
#[verifier::external_body]
fn utc_now() -> (t: JournalTime)
    ensures
        t.secs >= 0,
        t.nanos < 1_000_000_000,
        chrono_accepts(t.secs, t.nanos),
{
    let now = chrono::Utc::now();
    JournalTime { secs: now.timestamp(), nanos: now.timestamp_subsec_nanos() }
}

/// The journal id of a time, through chrono's `DateTime::format` with
/// `%Y-%m-%dT%H-%M-%SZ`; the text is named, not spelled out.
#[verifier::external_body]
fn format_journal_id(secs: i64, nanos: u32) -> (id: String)
    requires
        chrono_accepts(secs, nanos),
    ensures
        id@ == journal_id_text(secs, nanos),
{
    match chrono::DateTime::from_timestamp(secs, nanos) {
        Some(d) => d.format("%Y-%m-%dT%H-%M-%SZ").to_string(),
        None => String::new(),
    }
}

impl JournalEntry {
    /// A new entry stamped with the current time, with no actions yet.
    pub fn new(trigger: &str, packages: Vec<String>) -> (e: Self)
        ensures
            e.timestamp.nanos < 1_000_000_000,
            e.id@ == journal_id_text(e.timestamp.secs, e.timestamp.nanos),
            e.trigger@ == trigger@,
            e.packages@ == packages@,
            e.actions@.len() == 0,
    {
        let timestamp = utc_now();
        let id = format_journal_id(timestamp.secs, timestamp.nanos);
        JournalEntry {
            id,
            timestamp,
            trigger: string_from_chars(&chars_of(trigger)),
            packages,
            actions: Vec::new(),
        }
    }

    /// Records that `original` was moved to `moved_to`.
    pub fn add_action(&mut self, original: String, moved_to: String, size: u64)
        requires
            original@.len() > 0,
        ensures
            final(self).id == old(self).id,
            final(self).timestamp == old(self).timestamp,
            final(self).trigger == old(self).trigger,
            final(self).packages@ == old(self).packages@,
            final(self).actions@ == old(self).actions@.push(
                JournalAction { original, moved_to, size },
            ),
    {
        self.actions.push(JournalAction { original, moved_to, size });
    }
}

/// Index of the entry that a newest-first listing puts first: the earliest
/// entry among those with the latest timestamp.
pub open spec fn newest_index(es: Seq<JournalEntry>) -> int
    decreases es.len(),
{
    if es.len() <= 1 {
        0
    } else {
        let i = newest_index(es.drop_last());
        if later(es.last().timestamp, es[i].timestamp) {
            es.len() - 1
        } else {
            i
        }
    }
}

/// The id of the most recent entry, if there is one. Entries are listed newest
/// first by a stable sort, so among entries with the same timestamp the one
/// listed first wins.
pub fn latest_entry_id(entries: &[JournalEntry]) -> (r: Option<String>)
    ensures
        entries@.len() == 0 ==> r is None,
        entries@.len() > 0 ==> (r matches Some(id) && id@ == entries@[newest_index(entries@)].id@),
{
    if entries.len() == 0 {
        return None;
    }
    let mut best: usize = 0;
    let mut i: usize = 1;
    while i < entries.len()
        invariant
            1 <= i <= entries@.len(),
            best < i,
            best == newest_index(entries@.take(i as int)),
        decreases entries.len() - i,
    {
        let a = entries[i].timestamp;
        let b = entries[best].timestamp;
        let ghost t = entries@.take(i + 1);
        assert(t.drop_last() =~= entries@.take(i as int));
        assert(entries@.take(i as int)[best as int] == entries@[best as int]);
        if a.secs > b.secs || (a.secs == b.secs && a.nanos > b.nanos) {
            best = i;
        }
        i += 1;
    }
    assert(entries@.take(entries@.len() as int) =~= entries@);
    Some(entries[best].id.clone())
}

/// The quarantine directory.
pub fn quarantine_dir() -> (r: String)
    ensures
        r@ == QUARANTINE_DIR@,
{
    string_from_chars(&chars_of(QUARANTINE_DIR))
}

/// Leading `/` characters removed.
pub open spec fn without_leading_slashes(s: Seq<char>) -> Seq<char>
    decreases s.len(),
{
    if s.len() > 0 && s[0] == '/' {
        without_leading_slashes(s.skip(1))
    } else {
        s
    }
}

/// A path made relative, for use under `quarantine/<timestamp>/`: its
/// leading `/` characters are removed.
pub fn sanitize_path_for_quarantine(path: &str) -> (r: String)
    ensures
        r@ == without_leading_slashes(path@),
{
    let s = chars_of(path);
    let mut i: usize = 0;
    assert(s@.skip(0) =~= s@);
    while i < s.len() && s[i] == '/'
        invariant
            i <= s@.len(),
            without_leading_slashes(s@) == without_leading_slashes(s@.skip(i as int)),
        decreases s.len() - i,
    {
        assert(s@.skip(i as int).skip(1) =~= s@.skip(i + 1));
        i += 1;
    }
    let rest = slice_chars(&s, i, s.len());
    assert(rest@ =~= s@.skip(i as int));
    string_from_chars(&rest)
}

/// The position at which `x` enters a newest-first list `s`: before the
/// first entry it is strictly later than, else at the end.
pub open spec fn newest_first_point(s: Seq<JournalEntry>, x: JournalEntry) -> nat
    decreases s.len(),
{
    if s.len() == 0 || later(x.timestamp, s[0].timestamp) {
        0
    } else {
        1 + newest_first_point(s.skip(1), x)
    }
}

/// Entries newest first, as a stable sort by time, latest first: each entry,
/// in the given order, enters the list built so far behind every entry that
/// is not earlier than it.
pub open spec fn newest_first_order(s: Seq<JournalEntry>) -> Seq<JournalEntry>
    decreases s.len(),
{
    if s.len() == 0 {
        s
    } else {
        let o = newest_first_order(s.drop_last());
        let p = newest_first_point(o, s.last()) as int;
        o.take(p) + seq![s.last()] + o.skip(p)
    }
}

proof fn lemma_newest_first_point(s: Seq<JournalEntry>, x: JournalEntry)
    ensures
        newest_first_point(s, x) <= s.len(),
        forall|j: int| 0 <= j < newest_first_point(s, x) ==> !later(x.timestamp, (#[trigger] s[j]).timestamp),
        newest_first_point(s, x) < s.len() ==> later(x.timestamp, s[newest_first_point(s, x) as int].timestamp),
    decreases s.len(),
{
    if s.len() > 0 && !later(x.timestamp, s[0].timestamp) {
        lemma_newest_first_point(s.skip(1), x);
        assert forall|j: int| 0 <= j < newest_first_point(s, x) implies !later(x.timestamp, (#[trigger] s[j]).timestamp) by {
            if j > 0 {
                assert(s[j] == s.skip(1)[j - 1]);
            }
        }
    }
}

/// The entries newest first; entries of the same time keep their order.
pub fn newest_first(entries: Vec<JournalEntry>) -> (r: Vec<JournalEntry>)
    ensures
        r@ == newest_first_order(entries@),
{
    let ghost ev = entries@;
    let mut rest = entries;
    let mut queue: Vec<JournalEntry> = Vec::new();
    while rest.len() > 0
        invariant
            queue@ + rest@.reverse() == ev.reverse(),
        decreases rest.len(),
    {
        let ghost bq = queue@;
        let ghost br = rest@;
        let e = rest.pop().unwrap();
        queue.push(e);
        assert(br =~= rest@.push(br.last()));
        assert(br.reverse() =~= seq![br.last()] + rest@.reverse());
        assert(queue@ + rest@.reverse() =~= bq + br.reverse());
    }
    assert(queue@ =~= ev.reverse());
    let n = queue.len();
    let mut out: Vec<JournalEntry> = Vec::new();
    let mut taken: usize = 0;
    while queue.len() > 0
        invariant
            taken + queue@.len() == n,
            n == ev.len(),
            queue@ == ev.skip(taken as int).reverse(),
            out@ == newest_first_order(ev.take(taken as int)),
        decreases queue.len(),
    {
        let e = queue.pop().unwrap();
        assert(e == ev[taken as int]) by {
            assert(ev.skip(taken as int).reverse().last() == ev.skip(taken as int)[0]);
        }
        let ghost ov = out@;
        let mut p: usize = 0;
        while p < out.len() && !(e.timestamp.secs > out[p].timestamp.secs || (e.timestamp.secs == out[p].timestamp.secs
            && e.timestamp.nanos > out[p].timestamp.nanos))
            invariant
                p <= out@.len(),
                ov == out@,
                forall|j: int| 0 <= j < p ==> !later(e.timestamp, (#[trigger] ov[j]).timestamp),
            decreases out.len() - p,
        {
            p += 1;
        }
        proof {
            lemma_newest_first_point(ov, e);
            let q = newest_first_point(ov, e) as int;
            if q < p {
                assert(!later(e.timestamp, ov[q].timestamp));
            } else if p < q {
                assert(!later(e.timestamp, ov[p as int].timestamp));
            }
        }
        out.insert(p, e);
        assert(ev.take(taken + 1).drop_last() =~= ev.take(taken as int));
        assert(ev.take(taken + 1).last() == e);
        assert(out@ =~= ov.take(p as int) + seq![e] + ov.skip(p as int));
        assert(ev.skip(taken as int).reverse().drop_last() =~= ev.skip(taken + 1).reverse());
        taken += 1;
    }
    assert(ev.take(n as int) =~= ev);
    out
}

/// The entry `latest_entry_id` names is the one a newest-first listing
/// puts first.
pub proof fn law_latest_is_first_listed(es: Seq<JournalEntry>)
    requires
        es.len() > 0,
    ensures
        newest_first_order(es)[0] == es[newest_index(es)],
    decreases es.len(),
{
    let init = es.drop_last();
    let x = es.last();
    let o = newest_first_order(init);
    lemma_newest_first_point(o, x);
    lemma_newest_first_len(init);
    let p = newest_first_point(o, x) as int;
    if init.len() == 0 {
        assert(o.len() == 0);
        assert(p == 0);
    } else {
        law_latest_is_first_listed(init);
        lemma_newest_index_range(init);
        assert(init[newest_index(init)] == es[newest_index(init)]);
        if p == 0 {
            assert(later(x.timestamp, o[0].timestamp));
        } else {
            assert(!later(x.timestamp, o[0].timestamp));
            assert((o.take(p) + seq![x] + o.skip(p))[0] == o[0]);
        }
    }
}

proof fn lemma_newest_index_range(es: Seq<JournalEntry>)
    requires
        es.len() > 0,
    ensures
        0 <= newest_index(es) < es.len(),
    decreases es.len(),
{
    if es.len() > 1 {
        lemma_newest_index_range(es.drop_last());
    }
}

proof fn lemma_newest_first_len(es: Seq<JournalEntry>)
    ensures
        newest_first_order(es).len() == es.len(),
    decreases es.len(),
{
    if es.len() > 0 {
        lemma_newest_first_len(es.drop_last());
        lemma_newest_first_point(newest_first_order(es.drop_last()), es.last());
    }
}

} // verus!
