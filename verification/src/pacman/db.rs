//! The set of paths owned by installed packages, read from pacman's local
//! database (`/var/lib/pacman/local/<pkg>/files`).
use vstd::prelude::*;
use vstd::hash_set::StringHashSet;
use crate::path::{components, path_components, render, render_components};
use crate::text::{chars_eq, chars_of, concat_chars, has_prefix, lines, lines_of, starts_with_chars, string_from_chars, trim_chars, trimmed};

verus! {

/// The directory pacman keeps its local database in.
pub const PACMAN_LOCAL: &'static str = "/var/lib/pacman/local";

/// A path in normal form: its components spelled with single separators.
/// Two paths compare equal as `Path`s exactly when their components do.
pub open spec fn normalized(p: Seq<char>) -> Seq<char> {
    render(components(p))
}

/// The path a line of a `%FILES%` section names: pacman stores paths
/// without their leading `/`, and the line is read below the root.
pub open spec fn files_line_path(t: Seq<char>) -> Seq<char> {
    normalized("/"@ + t)
}

/// After reading `ls`: whether the reader is inside a `%FILES%` section, and
/// the paths read so far.
pub open spec fn files_scan(ls: Seq<Seq<char>>) -> (bool, Seq<Seq<char>>)
    decreases ls.len(),
{
    if ls.len() == 0 {
        (false, Seq::<Seq<char>>::empty())
    } else {
        let (inside, found) = files_scan(ls.drop_last());
        let t = trimmed(ls.last());
        if t == "%FILES%"@ {
            (true, found)
        } else if has_prefix(t, "%"@) {
            (false, found)
        } else if inside && t.len() > 0 {
            (inside, found.push(files_line_path(t)))
        } else {
            (inside, found)
        }
    }
}

/// The paths listed in the `%FILES%` sections of a `files` file: each line
/// trimmed; a line `%FILES%` opens a section, any other line starting with
/// `%` closes it; non-empty lines inside a section name paths.
pub open spec fn files_section_paths(content: Seq<char>) -> Seq<Seq<char>> {
    files_scan(lines(content)).1
}

/// All paths known to be owned by installed pacman packages.
pub struct PacmanDb {
    owned: StringHashSet,
}

impl View for PacmanDb {
    type V = Set<Seq<char>>;

    /// The owned paths, in normal form.
    closed spec fn view(&self) -> Set<Seq<char>> {
        self.owned@
    }
}

impl Default for PacmanDb {
    fn default() -> (r: Self)
        ensures
            r@ == Set::<Seq<char>>::empty(),
    {
        PacmanDb { owned: StringHashSet::new() }
    }
}

/// The normal form of a path.
pub fn normalize_path(path: &str) -> (r: String)
    ensures
        r@ == normalized(path@),
{
    let c = path_components(&chars_of(path));
    string_from_chars(&render_components(&c))
}

impl PacmanDb {
    /// Whether `path` is owned by an installed package.
    pub fn owns(&self, path: &str) -> (b: bool)
        ensures
            b == self@.contains(normalized(path@)),
    {
        let n = normalize_path(path);
        self.owned.contains(n.as_str())
    }

    /// The owned paths, in normal form.
    pub fn owned_paths(&self) -> (r: &StringHashSet)
        ensures
            r@ == self@,
    {
        &self.owned
    }

    /// The number of distinct owned paths.
    pub fn package_count(&self) -> (n: usize)
        ensures
            n == self@.len(),
    {
        self.owned.len()
    }

    /// The database made of the given `files` file contents, one per package.
    pub fn from_files_contents(contents: &[String]) -> (db: PacmanDb)
        ensures
            forall|p: Seq<char>|
                db@.contains(p) <==> exists|i: int, j: int|
                    0 <= i < contents@.len() && 0 <= j < files_section_paths(contents@[i]@).len()
                        && files_section_paths(contents@[i]@)[j] == p,
    {
        let mut db = PacmanDb::default();
        let mut i: usize = 0;
        while i < contents.len()
            invariant
                i <= contents@.len(),
                forall|p: Seq<char>|
                    db@.contains(p) <==> exists|k: int, j: int|
                        0 <= k < i && 0 <= j < files_section_paths(contents@[k]@).len()
                            && files_section_paths(contents@[k]@)[j] == p,
            decreases contents.len() - i,
        {
            let ghost before = db@;
            parse_files_into(contents[i].as_str(), &mut db);
            proof {
                assert forall|p: Seq<char>|
                    db@.contains(p) <==> exists|k: int, j: int|
                        0 <= k < i + 1 && 0 <= j < files_section_paths(contents@[k]@).len()
                            && files_section_paths(contents@[k]@)[j] == p by {
                    if db@.contains(p) && !before.contains(p) {
                        let j = choose|j: int| 0 <= j < files_section_paths(contents@[i as int]@).len()
                            && files_section_paths(contents@[i as int]@)[j] == p;
                        assert(0 <= i < i + 1);
                    }
                    if exists|k: int, j: int|
                        0 <= k < i + 1 && 0 <= j < files_section_paths(contents@[k]@).len()
                            && files_section_paths(contents@[k]@)[j] == p {
                        let (k, j) = choose|k: int, j: int|
                            0 <= k < i + 1 && 0 <= j < files_section_paths(contents@[k]@).len()
                                && files_section_paths(contents@[k]@)[j] == p;
                        if k < i {
                            assert(before.contains(p));
                        } else {
                            assert(files_section_paths(contents@[i as int]@).contains(p));
                        }
                    }
                }
            }
            i += 1;
        }
        db
    }
}

/// Adds to `out` every path listed in the `%FILES%` sections of the text of
/// a pacman `files` file.
pub fn parse_files_into(content: &str, out: &mut PacmanDb)
    ensures
        forall|p: Seq<char>|
            final(out)@.contains(p) <==> (old(out)@.contains(p) || files_section_paths(content@).contains(p)),
{
    let ls = lines_of(&chars_of(content));
    let ghost lv = ls@.map_values(|v: Vec<char>| v@);
    let files_tag = chars_of("%FILES%");
    let pct = chars_of("%");
    let slash = chars_of("/");
    let ghost start = out@;
    let mut inside = false;
    let mut i: usize = 0;
    while i < ls.len()
        invariant
            i <= ls@.len(),
            lv == ls@.map_values(|v: Vec<char>| v@),
            lv == lines(content@),
            files_tag@ == "%FILES%"@,
            pct@ == "%"@,
            slash@ == "/"@,
            inside == files_scan(lv.take(i as int)).0,
            forall|p: Seq<char>|
                out@.contains(p) <==> (start.contains(p) || files_scan(lv.take(i as int)).1.contains(p)),
        decreases ls.len() - i,
    {
        let t = trim_chars(&ls[i]);
        let ghost prev = files_scan(lv.take(i as int));
        let ghost next = files_scan(lv.take(i + 1));
        assert(lv.take(i + 1).drop_last() =~= lv.take(i as int));
        assert(lv.take(i + 1).last() == lv[i as int]);
        assert(lv[i as int] == ls@[i as int]@);
        assert(t@ == trimmed(lv.take(i + 1).last()));
        let ghost before_out = out@;
        assert(forall|p: Seq<char>|
            #[trigger] before_out.contains(p) <==> (start.contains(p) || prev.1.contains(p)));
        if chars_eq(&t, &files_tag) {
            inside = true;
            assert(next == (true, prev.1));
        } else if starts_with_chars(&t, &pct) {
            inside = false;
            assert(next == (false, prev.1));
        } else if inside && t.len() > 0 {
            let full = concat_chars(&slash, &t);
            let c = path_components(&full);
            let n = string_from_chars(&render_components(&c));
            assert(n@ == files_line_path(t@));
            out.owned.insert(n);
            proof {
                let now = next.1;
                assert(next == (prev.0, prev.1.push(files_line_path(t@))));
                assert(out@ == before_out.insert(files_line_path(t@)));
                assert forall|p: Seq<char>|
                    out@.contains(p) <==> (start.contains(p) || now.contains(p)) by {
                    if now.contains(p) && p != files_line_path(t@) {
                        let k = choose|k: int| 0 <= k < now.len() && now[k] == p;
                        assert(prev.1[k] == p);
                    }
                    if prev.1.contains(p) {
                        let k = choose|k: int| 0 <= k < prev.1.len() && prev.1[k] == p;
                        assert(now[k] == p);
                    }
                    if p == files_line_path(t@) {
                        assert(now[now.len() - 1] == p);
                    }
                    assert(before_out.contains(p) <==> (start.contains(p) || prev.1.contains(p)));
                    assert(out@.contains(p) <==> (before_out.contains(p) || p == files_line_path(t@)));
                    assert(now.contains(p) <==> (prev.1.contains(p) || p == files_line_path(t@)));
                }
            }
        } else {
            assert(t@.len() == 0 || !prev.0);
            assert(next == prev);
        }
        i += 1;
    }
    assert(lv.take(ls@.len() as int) =~= lv);
}

} // verus!
