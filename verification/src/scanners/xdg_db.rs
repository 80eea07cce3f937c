//! The XDG database scanner: known leftover locations of applications,
//! keyed by name, checked for each removed package whose executable is gone.
use vstd::prelude::*;
use crate::config::Config;
use crate::confidence::{confidence_for, score};
use crate::exec_check::{executable_gone, strip_aur_suffix, stripped_name};
use crate::scanners::{finding_views, opt_finding_view, FindingView, is_ignored_path, package_is_ignored, path_is_ignored, reason_views, Category, Finding, Reason, ReasonView, ScanContext};
use crate::text::{chars_eq, chars_of, concat_chars, has_char, has_prefix, starts_with_chars, string_from_chars, string_views};
use crate::util::{expand_xdg_with_home, expanded_with_home};

verus! {

/// An application's entry in the database: its executables and the
/// locations (templates with XDG variables) it leaves data in.
pub struct XdgEntry {
    pub name: String,
    pub executables: Vec<String>,
    pub locations: Vec<String>,
}

/// The names the database is keyed by, in order.
pub open spec fn entry_keys(db: Seq<XdgEntry>) -> Seq<Seq<char>> {
    db.map_values(|e: XdgEntry| e.name@)
}

/// An entry the scanner can use: at least one executable, each a plain
/// name, and non-empty location templates.
pub open spec fn usable_entry(e: XdgEntry) -> bool {
    &&& e.executables@.len() > 0
    &&& forall|i: int|
        0 <= i < e.executables@.len() ==> !has_char(#[trigger] e.executables@[i]@, '/') && !has_char(
            e.executables@[i]@,
            '\0',
        )
    &&& forall|i: int| 0 <= i < e.locations@.len() ==> (#[trigger] e.locations@[i])@.len() > 0
}

/// A database whose entries the scanner can all use.
pub open spec fn usable_db(db: Seq<XdgEntry>) -> bool {
    forall|i: int| 0 <= i < db.len() ==> usable_entry(#[trigger] db[i])
}

/// `i` is the first position of `k` among `keys`.
pub open spec fn first_at(keys: Seq<Seq<char>>, k: Seq<char>, i: int) -> bool {
    0 <= i < keys.len() && keys[i] == k && forall|j: int| 0 <= j < i ==> keys[j] != k
}

/// What `str::to_lowercase` gives for `s`.
pub uninterp spec fn lowercase_text(s: Seq<char>) -> Seq<char>;

/// `str::to_lowercase`: the Unicode lower-case mapping, which takes tables
/// to state and is only named here.
#[verifier::external_body]
fn lowercase(s: &str) -> (r: String)
    ensures
        r@ == lowercase_text(s@),
{
    s.to_lowercase()
}

fn first_index(db: &[XdgEntry], key: &[char]) -> (r: Option<usize>)
    ensures
        match r {
            Some(i) => first_at(entry_keys(db@), key@, i as int),
            None => !entry_keys(db@).contains(key@),
        },
{
    let ghost keys = entry_keys(db@);
    let mut i: usize = 0;
    while i < db.len()
        invariant
            i <= db@.len(),
            keys == entry_keys(db@),
            forall|j: int| 0 <= j < i ==> keys[j] != key@,
        decreases db.len() - i,
    {
        if chars_eq(&chars_of(db[i].name.as_str()), key) {
            return Some(i);
        }
        i += 1;
    }
    proof {
        if keys.contains(key@) {
            let j = choose|j: int| 0 <= j < keys.len() && keys[j] == key@;
            assert(keys[j] != key@);
        }
    }
    None
}

/// The entry for a package: the one keyed by the package name in lower
/// case, else the one keyed by that name without its AUR suffix.
pub fn lookup_xdg_entry(pkg: &str, db: &[XdgEntry]) -> (r: Option<usize>)
    ensures
        ({
            let lower = lowercase_text(pkg@);
            let keys = entry_keys(db@);
            match r {
                Some(i) => first_at(keys, lower, i as int) || (!keys.contains(lower) && first_at(
                    keys,
                    stripped_name(lower),
                    i as int,
                )),
                None => !keys.contains(lower) && !keys.contains(stripped_name(lower)),
            }
        }),
{
    let lower = lowercase(pkg);
    match first_index(db, &chars_of(lower.as_str())) {
        Some(i) => Some(i),
        None => {
            let stripped = strip_aur_suffix(lower.as_str());
            first_index(db, &chars_of(stripped.as_str()))
        },
    }
}

/// The category of a path, by its text: under the home's `.config` or
/// `/etc/` is configuration, `.cache` or `/var/cache/` cache, `.local/share`
/// or `/usr/share/` data, `.local/state` or `/var/lib/` state; elsewhere
/// under `/var/` a system orphan; anything else data.
pub open spec fn category_of(path: Seq<char>, home: Seq<char>) -> Category {
    if has_prefix(path, home + "/.config"@) || has_prefix(path, "/etc/"@) {
        Category::Config
    } else if has_prefix(path, home + "/.cache"@) || has_prefix(path, "/var/cache/"@) {
        Category::Cache
    } else if has_prefix(path, home + "/.local/share"@) || has_prefix(path, "/usr/share/"@) {
        Category::Data
    } else if has_prefix(path, home + "/.local/state"@) || has_prefix(path, "/var/lib/"@) {
        Category::State
    } else if has_prefix(path, "/etc/"@) || has_prefix(path, "/var/"@) {
        Category::SystemOrphan
    } else {
        Category::Data
    }
}

fn starts_with_str(s: &[char], p: &str) -> (b: bool)
    ensures
        b == has_prefix(s@, p@),
{
    starts_with_chars(s, &chars_of(p))
}

fn starts_with_under(s: &[char], home: &[char], sub: &str) -> (b: bool)
    ensures
        b == has_prefix(s@, home@ + sub@),
{
    starts_with_chars(s, &concat_chars(home, &chars_of(sub)))
}

/// The category of a path found through the database.
pub fn categorize(path: &str, home_dir: &str) -> (c: Category)
    ensures
        c == category_of(path@, home_dir@),
{
    let s = chars_of(path);
    let h = chars_of(home_dir);
    if starts_with_under(&s, &h, "/.config") || starts_with_str(&s, "/etc/") {
        Category::Config
    } else if starts_with_under(&s, &h, "/.cache") || starts_with_str(&s, "/var/cache/") {
        Category::Cache
    } else if starts_with_under(&s, &h, "/.local/share") || starts_with_str(&s, "/usr/share/") {
        Category::Data
    } else if starts_with_under(&s, &h, "/.local/state") || starts_with_str(&s, "/var/lib/") {
        Category::State
    } else if starts_with_str(&s, "/etc/") || starts_with_str(&s, "/var/") {
        Category::SystemOrphan
    } else {
        Category::Data
    }
}

/// The reasons a database finding carries: in the database, and, when the
/// executable is gone, the entry's first executable.
pub open spec fn xdg_reasons(executables: Seq<String>, exe_gone: bool) -> Seq<ReasonView> {
    if exe_gone && executables.len() > 0 {
        seq![ReasonView::InXdgDatabase, ReasonView::ExecutableGone(executables[0]@)]
    } else {
        seq![ReasonView::InXdgDatabase]
    }
}

/// The finding at a location of an entry: none if the path is ignored or
/// does not exist (`exists`: its metadata could be read without following
/// links); otherwise one categorised by its text and scored.
pub open spec fn location_finding(
    path: Seq<char>,
    pkg: Seq<char>,
    executables: Seq<String>,
    exe_gone: bool,
    ignored: Seq<String>,
    home: Seq<char>,
    exists: bool,
    size_bytes: u64,
) -> Option<FindingView> {
    if is_ignored_path(path, ignored) || !exists {
        None
    } else {
        let rs = xdg_reasons(executables, exe_gone);
        Some(
            FindingView {
                path,
                size_bytes,
                package: pkg,
                confidence: confidence_for(rs, path, size_bytes, home),
                reasons: rs,
                category: category_of(path, home),
                file_count: 0,
            },
        )
    }
}

/// The finding at a location of an entry, from what the filesystem showed.
pub fn process_path(
    path: &str,
    pkg: &str,
    executables: &[String],
    exe_gone: bool,
    config: &Config,
    home_dir: &str,
    exists: bool,
    size_bytes: u64,
) -> (r: Option<Finding>)
    ensures
        opt_finding_view(r) == location_finding(
            path@,
            pkg@,
            executables@,
            exe_gone,
            config.ignore.paths@,
            home_dir@,
            exists,
            size_bytes,
        ),
{
    if path_is_ignored(path, &config.ignore.paths) || !exists {
        return None;
    }
    let category = categorize(path, home_dir);
    let mut reasons: Vec<Reason> = Vec::new();
    reasons.push(Reason::InXdgDatabase);
    if exe_gone && executables.len() > 0 {
        reasons.push(Reason::ExecutableGone(string_from_chars(&chars_of(executables[0].as_str()))));
    }
    assert(reason_views(reasons@) =~= xdg_reasons(executables@, exe_gone));
    let confidence = score(&reasons, path, size_bytes, home_dir);
    Some(Finding {
        path: string_from_chars(&chars_of(path)),
        size_bytes,
        package: string_from_chars(&chars_of(pkg)),
        confidence,
        reasons,
        category,
        file_count: 0,
    })
}

/// Every location of an entry, expanded against the home directory.
pub open spec fn expanded_locations(locations: Seq<String>, home: Seq<char>) -> Seq<Seq<char>> {
    locations.map_values(|l: String| expanded_with_home(l@, home))
}

/// The paths to look at for a package, given whether the executables of its
/// entry are gone: none when the package is ignored, has no entry, or its
/// executable is still there; otherwise the entry (its position) and its
/// locations expanded against the home directory.
pub fn locations_for_package(pkg: &str, ctx: &ScanContext, db: &[XdgEntry], exe_gone: bool) -> (r: Option<(usize, Vec<String>)>)
    requires
        usable_db(db@),
    ensures
        match r {
            Some((i, paths)) => !string_views(ctx.config.ignore.packages@).contains(pkg@) && exe_gone
                && lookup_xdg_entry_spec(pkg@, db@) == Some(i as int)
                && string_views(paths@) == expanded_locations(db@[i as int].locations@, ctx.home_dir@),
            None => string_views(ctx.config.ignore.packages@).contains(pkg@) || !exe_gone
                || lookup_xdg_entry_spec(pkg@, db@) is None,
        },
{
    if package_is_ignored(pkg, &ctx.config.ignore.packages) || !exe_gone {
        return None;
    }
    let i = match lookup_xdg_entry(pkg, db) {
        Some(i) => i,
        None => return None,
    };
    let entry = &db[i];
    let ghost ev = expanded_locations(entry.locations@, ctx.home_dir@);
    let mut paths: Vec<String> = Vec::new();
    let mut j: usize = 0;
    while j < entry.locations.len()
        invariant
            j <= entry.locations@.len(),
            i < db@.len(),
            entry == &db@[i as int],
            usable_entry(*entry),
            ev == expanded_locations(entry.locations@, ctx.home_dir@),
            string_views(paths@) == ev.take(j as int),
        decreases entry.locations.len() - j,
    {
        assert(entry.locations@[j as int]@.len() > 0);
        let p = expand_xdg_with_home(entry.locations[j].as_str(), ctx.home_dir.as_str());
        let ghost before = string_views(paths@);
        assert(ev[j as int] == p@);
        paths.push(p);
        assert(ev.take(j + 1) =~= ev.take(j as int).push(ev[j as int]));
        assert(string_views(paths@) =~= before.push(ev[j as int]));
        j += 1;
    }
    assert(ev.take(entry.locations@.len() as int) =~= ev);
    Some((i, paths))
}

/// The position of the entry for a package (see [`lookup_xdg_entry`]).
pub open spec fn lookup_xdg_entry_spec(pkg: Seq<char>, db: Seq<XdgEntry>) -> Option<int> {
    let lower = lowercase_text(pkg);
    let keys = entry_keys(db);
    if keys.contains(lower) {
        Some(choose|i: int| first_at(keys, lower, i))
    } else if keys.contains(stripped_name(lower)) {
        Some(choose|i: int| first_at(keys, stripped_name(lower), i))
    } else {
        None
    }
}

/// The paths to look at for a package: for a package that is not ignored
/// and has an entry, asks whether one of the entry's executables is still on
/// `PATH`, then as [`locations_for_package`]. An ignored package, or one
/// without an entry, gets none.
pub fn package_locations(pkg: &str, ctx: &ScanContext, db: &[XdgEntry]) -> (r: Option<(usize, Vec<String>)>)
    requires
        usable_db(db@),
    ensures
        (string_views(ctx.config.ignore.packages@).contains(pkg@) || lookup_xdg_entry_spec(pkg@, db@) is None)
            ==> r is None,
        r matches Some((i, paths)) ==> lookup_xdg_entry_spec(pkg@, db@) == Some(i as int) && string_views(paths@)
            == expanded_locations(db@[i as int].locations@, ctx.home_dir@),
{
    if package_is_ignored(pkg, &ctx.config.ignore.packages) {
        return None;
    }
    match lookup_xdg_entry(pkg, db) {
        Some(i) => {
            assert(usable_entry(db@[i as int]));
            let gone = executable_gone(&db[i].executables);
            locations_for_package(pkg, ctx, db, gone)
        },
        None => None,
    }
}

/// The locations planned for one removed package: its entry's position and
/// the expanded locations, when it is looked at.
pub struct PackageLocations {
    pub package: String,
    pub found: Option<(usize, Vec<String>)>,
}

/// The scanner that looks up removed packages in the XDG database.
pub struct XdgDbScanner;

/// The findings at one package's locations, in order, from what the
/// filesystem showed of each (`seen`: whether it exists, and its size).
pub open spec fn locations_findings(
    pkg: Seq<char>,
    paths: Seq<Seq<char>>,
    executables: Seq<String>,
    seen: Seq<(bool, u64)>,
    ignored: Seq<String>,
    home: Seq<char>,
) -> Seq<FindingView>
    decreases paths.len(),
{
    if paths.len() == 0 {
        Seq::<FindingView>::empty()
    } else {
        let k = paths.len() - 1;
        let before = locations_findings(pkg, paths.drop_last(), executables, seen, ignored, home);
        match location_finding(paths[k], pkg, executables, true, ignored, home, seen[k].0, seen[k].1) {
            Some(f) => before.push(f),
            None => before,
        }
    }
}

/// The findings of a database scan, package by package.
pub open spec fn xdg_scan_findings(
    plan: Seq<PackageLocations>,
    db: Seq<XdgEntry>,
    seen: Seq<Vec<(bool, u64)>>,
    ignored: Seq<String>,
    home: Seq<char>,
) -> Seq<FindingView>
    decreases plan.len(),
{
    if plan.len() == 0 {
        Seq::<FindingView>::empty()
    } else {
        let k = plan.len() - 1;
        let before = xdg_scan_findings(plan.drop_last(), db, seen, ignored, home);
        match plan[k].found {
            Some((e, paths)) => before + locations_findings(
                plan[k].package@,
                string_views(paths@),
                db[e as int].executables@,
                seen[k]@,
                ignored,
                home,
            ),
            None => before,
        }
    }
}

impl XdgDbScanner {
    pub fn name(&self) -> (r: &'static str)
        ensures
            r@ == "xdg_db"@,
    {
        "xdg_db"
    }

    /// The locations to look at: for each removed package, in order, those
    /// of [`package_locations`].
    pub fn plan(&self, ctx: &ScanContext, db: &[XdgEntry]) -> (r: Vec<PackageLocations>)
        requires
            ctx.removed_packages@.len() > 0,
            usable_db(db@),
        ensures
            r@.len() == ctx.removed_packages@.len(),
            forall|i: int| 0 <= i < r@.len() ==> {
                let pkg = #[trigger] ctx.removed_packages@[i]@;
                &&& r@[i].package@ == pkg
                &&& (string_views(ctx.config.ignore.packages@).contains(pkg) || lookup_xdg_entry_spec(pkg, db@) is None)
                    ==> r@[i].found is None
                &&& r@[i].found matches Some((e, paths)) ==> lookup_xdg_entry_spec(pkg, db@) == Some(e as int)
                    && string_views(paths@) == expanded_locations(db@[e as int].locations@, ctx.home_dir@)
            },
    {
        let mut r: Vec<PackageLocations> = Vec::new();
        let mut i: usize = 0;
        while i < ctx.removed_packages.len()
            invariant
                i <= ctx.removed_packages@.len(),
                r@.len() == i,
                usable_db(db@),
                forall|k: int| 0 <= k < i ==> {
                    let pkg = #[trigger] ctx.removed_packages@[k]@;
                    &&& r@[k].package@ == pkg
                    &&& (string_views(ctx.config.ignore.packages@).contains(pkg) || lookup_xdg_entry_spec(pkg, db@) is None)
                        ==> r@[k].found is None
                    &&& r@[k].found matches Some((e, paths)) ==> lookup_xdg_entry_spec(pkg, db@) == Some(e as int)
                        && string_views(paths@) == expanded_locations(db@[e as int].locations@, ctx.home_dir@)
                },
            decreases ctx.removed_packages.len() - i,
        {
            let pkg = ctx.removed_packages[i].as_str();
            let found = package_locations(pkg, ctx, db);
            r.push(PackageLocations { package: string_from_chars(&chars_of(pkg)), found });
            i += 1;
        }
        r
    }

    /// The findings of a scan, from what the filesystem showed of each
    /// planned location (`seen[i][j]`: whether location `j` of package `i`
    /// exists, and its size).
    pub fn findings(&self, ctx: &ScanContext, db: &[XdgEntry], plan: &[PackageLocations], seen: &[Vec<(bool, u64)>]) -> (r: Vec<Finding>)
        requires
            seen@.len() == plan@.len(),
            forall|i: int| 0 <= i < plan@.len() ==> match (#[trigger] plan@[i]).found {
                Some((e, paths)) => e < db@.len() && seen@[i]@.len() == paths@.len(),
                None => true,
            },
        ensures
            finding_views(r@) == xdg_scan_findings(plan@, db@, seen@, ctx.config.ignore.paths@, ctx.home_dir@),
    {
        let ghost ign = ctx.config.ignore.paths@;
        let ghost home = ctx.home_dir@;
        let mut r: Vec<Finding> = Vec::new();
        let mut i: usize = 0;
        while i < plan.len()
            invariant
                i <= plan@.len(),
                seen@.len() == plan@.len(),
                ign == ctx.config.ignore.paths@,
                home == ctx.home_dir@,
                forall|k: int| 0 <= k < plan@.len() ==> match (#[trigger] plan@[k]).found {
                    Some((e, paths)) => e < db@.len() && seen@[k]@.len() == paths@.len(),
                    None => true,
                },
                finding_views(r@) == xdg_scan_findings(plan@.take(i as int), db@, seen@, ign, home),
            decreases plan.len() - i,
        {
            let pl = &plan[i];
            assert(plan@.take(i + 1).drop_last() =~= plan@.take(i as int));
            assert(plan@.take(i + 1)[i as int] == plan@[i as int]);
            match &pl.found {
                Some((e, paths)) => {
                    let e = *e;
                    let sv = &seen[i];
                    let exes = &db[e].executables;
                    let ghost pv = string_views(paths@);
                    let ghost base = finding_views(r@);
                    let mut j: usize = 0;
                    while j < paths.len()
                        invariant
                            j <= paths@.len(),
                            sv@.len() == paths@.len(),
                            pv == string_views(paths@),
                            ign == ctx.config.ignore.paths@,
                            home == ctx.home_dir@,
                            finding_views(r@) == base + locations_findings(pl.package@, pv.take(j as int), exes@, sv@, ign, home),
                        decreases paths.len() - j,
                    {
                        let ghost before = finding_views(r@);
                        let (exists, size) = sv[j];
                        let f = process_path(paths[j].as_str(), pl.package.as_str(), exes, true, &ctx.config, ctx.home_dir.as_str(), exists, size);
                        assert(pv.take(j + 1).drop_last() =~= pv.take(j as int));
                        assert(pv.take(j + 1)[j as int] == paths@[j as int]@);
                        match f {
                            Some(f) => {
                                r.push(f);
                                assert(finding_views(r@) =~= before.push(f@));
                            },
                            None => {},
                        }
                        j += 1;
                    }
                    assert(pv.take(pv.len() as int) =~= pv);
                },
                None => {},
            }
            i += 1;
        }
        assert(plan@.take(plan@.len() as int) =~= plan@);
        r
    }
}

/// A database location over 1 GB, or under `/var/lib/`, `/srv/` or `/opt/`,
/// is found at Low confidence, even when the executable is gone.
pub proof fn law_listed_large_or_state_paths_are_low(
    path: Seq<char>,
    pkg: Seq<char>,
    executables: Seq<String>,
    exe_gone: bool,
    ignored: Seq<String>,
    home: Seq<char>,
    size_bytes: u64,
)
    requires
        size_bytes > crate::confidence::LARGE_BYTES || crate::confidence::spec_is_state_path(path),
    ensures
        location_finding(path, pkg, executables, exe_gone, ignored, home, true, size_bytes) matches Some(f)
            ==> f.confidence == crate::scanners::Confidence::Low,
{
}

proof fn lemma_prefixes_agree(s: Seq<char>, a: Seq<char>, b: Seq<char>, i: int)
    requires
        has_prefix(s, a),
        has_prefix(s, b),
        0 <= i < a.len(),
        i < b.len(),
    ensures
        a[i] == b[i],
{
    assert(a[i] == s.take(a.len() as int)[i]);
    assert(b[i] == s.take(b.len() as int)[i]);
}

/// A path under one of the home's XDG directories takes that directory's
/// category: `.config` configuration, `.cache` cache, `.local/share` data
/// and `.local/state` state, unless it also lies under a system directory
/// that is looked at first (`/etc/`, `/var/cache/`, `/usr/share/`).
pub proof fn law_home_dirs_give_their_category(path: Seq<char>, home: Seq<char>)
    ensures
        has_prefix(path, home + "/.config"@) ==> category_of(path, home) == Category::Config,
        has_prefix(path, home + "/.cache"@) && !has_prefix(path, "/etc/"@) ==> category_of(path, home)
            == Category::Cache,
        has_prefix(path, home + "/.local/share"@) && !has_prefix(path, "/etc/"@) && !has_prefix(
            path,
            "/var/cache/"@,
        ) ==> category_of(path, home) == Category::Data,
        has_prefix(path, home + "/.local/state"@) && !has_prefix(path, "/etc/"@) && !has_prefix(
            path,
            "/var/cache/"@,
        ) && !has_prefix(path, "/usr/share/"@) ==> category_of(path, home) == Category::State,
{
    reveal_strlit("/.config");
    reveal_strlit("/.cache");
    reveal_strlit("/.local/share");
    reveal_strlit("/.local/state");
    let n = home.len() as int;
    let c = home + "/.config"@;
    let k = home + "/.cache"@;
    let d = home + "/.local/share"@;
    let t = home + "/.local/state"@;
    assert(c[n + 2] == 'c' && k[n + 2] == 'c' && d[n + 2] == 'l' && t[n + 2] == 'l');
    assert(c[n + 3] == 'o' && k[n + 3] == 'a');
    assert(d[n + 8] == 's' && t[n + 8] == 's' && d[n + 9] == 'h' && t[n + 9] == 't');
    if has_prefix(path, k) && has_prefix(path, c) {
        lemma_prefixes_agree(path, c, k, n + 3);
    }
    if has_prefix(path, d) {
        if has_prefix(path, c) {
            lemma_prefixes_agree(path, c, d, n + 2);
        }
        if has_prefix(path, k) {
            lemma_prefixes_agree(path, k, d, n + 2);
        }
    }
    if has_prefix(path, t) {
        if has_prefix(path, c) {
            lemma_prefixes_agree(path, c, t, n + 2);
        }
        if has_prefix(path, k) {
            lemma_prefixes_agree(path, k, t, n + 2);
        }
        if has_prefix(path, d) {
            lemma_prefixes_agree(path, d, t, n + 9);
        }
    }
}

/// A path under a system directory takes that directory's category:
/// `/etc/` configuration, `/var/cache/` cache, `/usr/share/` data,
/// `/var/lib/` state and elsewhere under `/var/` a system orphan, unless it
/// also lies under one of the home's XDG directories that is looked at
/// first; a path under none of these directories is data.
pub proof fn law_system_dirs_give_their_category(path: Seq<char>, home: Seq<char>)
    ensures
        has_prefix(path, "/etc/"@) ==> category_of(path, home) == Category::Config,
        has_prefix(path, "/var/cache/"@) && !has_prefix(path, home + "/.config"@) ==> category_of(path, home)
            == Category::Cache,
        has_prefix(path, "/usr/share/"@) && !has_prefix(path, home + "/.config"@) && !has_prefix(
            path,
            home + "/.cache"@,
        ) ==> category_of(path, home) == Category::Data,
        has_prefix(path, "/var/lib/"@) && !has_prefix(path, home + "/.config"@) && !has_prefix(
            path,
            home + "/.cache"@,
        ) && !has_prefix(path, home + "/.local/share"@) ==> category_of(path, home) == Category::State,
        has_prefix(path, "/var/"@) && !has_prefix(path, "/var/cache/"@) && !has_prefix(path, "/var/lib/"@)
            && !has_prefix(path, home + "/.config"@) && !has_prefix(path, home + "/.cache"@) && !has_prefix(
            path,
            home + "/.local/share"@,
        ) && !has_prefix(path, home + "/.local/state"@) ==> category_of(path, home) == Category::SystemOrphan,
        !has_prefix(path, "/etc/"@) && !has_prefix(path, "/var/"@) && !has_prefix(path, "/usr/share/"@)
            && !has_prefix(path, home + "/.config"@) && !has_prefix(path, home + "/.cache"@) && !has_prefix(
            path,
            home + "/.local/share"@,
        ) && !has_prefix(path, home + "/.local/state"@) ==> category_of(path, home) == Category::Data,
{
    reveal_strlit("/etc/");
    reveal_strlit("/var/cache/");
    reveal_strlit("/usr/share/");
    reveal_strlit("/var/lib/");
    reveal_strlit("/var/");
    let e = "/etc/"@;
    let vc = "/var/cache/"@;
    let us = "/usr/share/"@;
    let vl = "/var/lib/"@;
    let v = "/var/"@;
    assert(e[1] == 'e' && v[1] == 'v' && us[1] == 'u' && vc[1] == 'v' && vl[1] == 'v');
    assert(vl[5] == 'l' && vc[5] == 'c');
    if has_prefix(path, vc) || has_prefix(path, vl) || has_prefix(path, us) {
        if has_prefix(path, e) {
            if has_prefix(path, vc) {
                lemma_prefixes_agree(path, e, vc, 1);
            }
            if has_prefix(path, vl) {
                lemma_prefixes_agree(path, e, vl, 1);
            }
            if has_prefix(path, us) {
                lemma_prefixes_agree(path, e, us, 1);
            }
        }
    }
    if has_prefix(path, us) && has_prefix(path, vc) {
        lemma_prefixes_agree(path, us, vc, 1);
    }
    if has_prefix(path, vl) {
        if has_prefix(path, vc) {
            lemma_prefixes_agree(path, vl, vc, 5);
        }
        if has_prefix(path, us) {
            lemma_prefixes_agree(path, vl, us, 1);
        }
    }
    if has_prefix(path, v) {
        if has_prefix(path, e) {
            lemma_prefixes_agree(path, v, e, 1);
        }
        if has_prefix(path, us) {
            lemma_prefixes_agree(path, v, us, 1);
        }
    }
    if has_prefix(path, vc) || has_prefix(path, vl) {
        assert(v == vc.take(5));
        assert(v == vl.take(5));
        assert(path.take(5) == v);
    }
}

} // verus!
