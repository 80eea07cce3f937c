//! Whether a package's executable is still installed, and the names it may
//! go by.
use vstd::prelude::*;
use crate::text::{chars_of, ends_with_chars, has_char, has_suffix, remove_char, remove_char_chars, replace_char, replace_char_chars, slice_chars, string_from_chars};

verus! {

/// AUR package-name suffixes, tried in this order.
pub open spec fn aur_suffixes() -> Seq<Seq<char>> {
    seq!["-bin"@, "-git"@, "-stable"@, "-dev"@, "-nightly"@]
}

/// The name with the first matching AUR suffix removed.
pub open spec fn stripped_name_from(name: Seq<char>, k: int) -> Seq<char>
    decreases 5 - k,
{
    if k >= 5 {
        name
    } else if has_suffix(name, aur_suffixes()[k]) {
        name.take(name.len() - aur_suffixes()[k].len())
    } else {
        stripped_name_from(name, k + 1)
    }
}

/// The name with the first of `-bin`, `-git`, `-stable`, `-dev`, `-nightly`
/// that ends it removed.
pub open spec fn stripped_name(name: Seq<char>) -> Seq<char> {
    stripped_name_from(name, 0)
}

/// Removes an AUR-style suffix from a package name.
pub fn strip_aur_suffix(name: &str) -> (r: String)
    ensures
        r@ == stripped_name(name@),
{
    let s = chars_of(name);
    let suffixes: [&str; 5] = ["-bin", "-git", "-stable", "-dev", "-nightly"];
    let mut k: usize = 0;
    while k < 5
        invariant
            k <= 5,
            s@ == name@,
            suffixes@ == seq!["-bin", "-git", "-stable", "-dev", "-nightly"],
            stripped_name(name@) == stripped_name_from(name@, k as int),
        decreases 5 - k,
    {
        let suf = chars_of(suffixes[k]);
        assert(suf@ == aur_suffixes()[k as int]);
        if ends_with_chars(&s, &suf) {
            let r = slice_chars(&s, 0, s.len() - suf.len());
            assert(r@ =~= s@.take(s@.len() - suf@.len()));
            return string_from_chars(&r);
        }
        k += 1;
    }
    string_from_chars(&s)
}

/// Each element once, in the order of its first occurrence.
pub open spec fn first_occurrences(s: Seq<Seq<char>>) -> Seq<Seq<char>>
    decreases s.len(),
{
    if s.len() == 0 {
        s
    } else {
        let r = first_occurrences(s.drop_last());
        if r.contains(s.last()) { r } else { r.push(s.last()) }
    }
}

/// What `first_occurrences` keeps: no repeats, and exactly the elements of
/// the input.
pub proof fn lemma_first_occurrences(s: Seq<Seq<char>>)
    ensures
        first_occurrences(s).no_duplicates(),
        forall|x: Seq<char>| #[trigger] first_occurrences(s).contains(x) <==> s.contains(x),
        s.len() > 0 ==> first_occurrences(s).len() > 0,
        s.len() > 0 ==> first_occurrences(s)[0] == s[0],
    decreases s.len(),
{
    if s.len() > 0 {
        let init = s.drop_last();
        lemma_first_occurrences(init);
        let r = first_occurrences(init);
        assert forall|x: Seq<char>| #[trigger] first_occurrences(s).contains(x) <==> s.contains(x) by {
            if s.contains(x) && x != s.last() {
                let k = choose|k: int| 0 <= k < s.len() && s[k] == x;
                assert(k < s.len() - 1);
                assert(init[k] == x);
                assert(r.contains(x));
                if !r.contains(s.last()) {
                    let j = choose|j: int| 0 <= j < r.len() && r[j] == x;
                    assert(r.push(s.last())[j] == x);
                }
            }
            if x == s.last() {
                assert(s[s.len() - 1] == x);
                if !r.contains(s.last()) {
                    assert(r.push(s.last())[r.len() as int] == x);
                }
            }
            if first_occurrences(s).contains(x) && !r.contains(x) {
                assert(x == s.last());
            }
            if r.contains(x) {
                assert(init.contains(x));
                let k = choose|k: int| 0 <= k < init.len() && init[k] == x;
                assert(s[k] == x);
            }
        }
        if init.len() > 0 {
            assert(init[0] == s[0]);
        } else {
            assert(r.len() == 0);
            assert(!r.contains(s.last()));
        }
    }
}

/// The executable names tried for a package: the name without its AUR
/// suffix, that name without dashes, with underscores as dashes, with dashes
/// as underscores; each name once, in that order.
pub open spec fn exe_candidate_names(pkgname: Seq<char>) -> Seq<Seq<char>> {
    let s = stripped_name(pkgname);
    first_occurrences(seq![s, remove_char(s, '-'), replace_char(s, '_', '-'), replace_char(s, '-', '_')])
}

/// Derive candidate executable names from a package name: the name without
/// its AUR suffix first, then its other spellings, without repeats.
pub fn exe_candidates(pkgname: &str) -> (r: Vec<String>)
    requires
        pkgname@.len() > 0,
    ensures
        r@.map_values(|s: String| s@) == exe_candidate_names(pkgname@),
        r@.map_values(|s: String| s@).no_duplicates(),
        r@.len() > 0 && r@[0]@ == stripped_name(pkgname@),
{
    let stripped = strip_aur_suffix(pkgname);
    let s = chars_of(stripped.as_str());
    let all: Vec<Vec<char>> = vec![
        slice_chars(&s, 0, s.len()),
        remove_char_chars(&s, '-'),
        replace_char_chars(&s, '_', '-'),
        replace_char_chars(&s, '-', '_'),
    ];
    let ghost av = all@.map_values(|v: Vec<char>| v@);
    assert(s@.subrange(0, s@.len() as int) =~= s@);
    assert(av =~= seq![s@, remove_char(s@, '-'), replace_char(s@, '_', '-'), replace_char(s@, '-', '_')]);
    let mut r: Vec<String> = Vec::new();
    let mut kept: Vec<Vec<char>> = Vec::new();
    let mut i: usize = 0;
    while i < 4
        invariant
            i <= 4,
            all@.len() == 4,
            av == all@.map_values(|v: Vec<char>| v@),
            r@.map_values(|s: String| s@) == first_occurrences(av.take(i as int)),
            kept@.map_values(|v: Vec<char>| v@) == r@.map_values(|s: String| s@),
        decreases 4 - i,
    {
        let ghost before = r@.map_values(|s: String| s@);
        let ghost t = av.take(i + 1);
        assert(t.drop_last() =~= av.take(i as int));
        assert(t.last() == av[i as int]);
        let mut seen = false;
        let mut k: usize = 0;
        while k < kept.len()
            invariant
                k <= kept@.len(),
                kept@.map_values(|v: Vec<char>| v@) == before,
                i < 4,
                all@.len() == 4,
                av == all@.map_values(|v: Vec<char>| v@),
                seen == exists|j: int| 0 <= j < k && before[j] == av[i as int],
            decreases kept.len() - k,
        {
            if crate::text::chars_eq(&kept[k], &all[i]) {
                seen = true;
            }
            assert(before[k as int] == kept@[k as int]@);
            k += 1;
        }
        assert(seen == before.contains(av[i as int]));
        if !seen {
            r.push(string_from_chars(&all[i]));
            let piece = slice_chars(&all[i], 0, all[i].len());
            assert(piece@ =~= av[i as int]);
            kept.push(piece);
            assert(r@.map_values(|s: String| s@) =~= before.push(av[i as int]));
            assert(kept@.map_values(|v: Vec<char>| v@) =~= before.push(av[i as int]));
        }
        i += 1;
    }
    assert(av.take(4) =~= av);
    proof {
        lemma_first_occurrences(av);
        assert(av.len() > 0);
        assert(r@[0]@ == r@.map_values(|s: String| s@)[0]);
    }
    r
}

/// Whether `name` is found as an executable on `PATH`, through
/// `which::which`. The answer depends on the file system and the
/// environment, so nothing is stated of it.
#[verifier::external_body]
fn found_on_path(name: &str) -> bool {
    which::which(name).is_ok()
}

/// Given, for each candidate name, whether it was found on `PATH`: the
/// executable is gone when none was found.
pub fn none_found(found: &[bool]) -> (gone: bool)
    ensures
        gone == (forall|i: int| 0 <= i < found@.len() ==> !found@[i]),
{
    let mut i: usize = 0;
    while i < found.len()
        invariant
            i <= found@.len(),
            forall|k: int| 0 <= k < i ==> !found@[k],
        decreases found.len() - i,
    {
        if found[i] {
            return false;
        }
        i += 1;
    }
    true
}

/// Returns true when none of the given executable names is found on `PATH`.
/// If the executable still exists, the application is still installed
/// (flatpak, appimage, /usr/local, ...) and its findings are skipped.
/// Names are looked up in order and the search stops at the first one found.
pub fn executable_gone(exe_names: &[String]) -> bool
    requires
        exe_names@.len() > 0,
        forall|i: int|
            0 <= i < exe_names@.len() ==> !has_char(#[trigger] exe_names@[i]@, '/') && !has_char(
                exe_names@[i]@,
                '\0',
            ),
{
    let mut found: Vec<bool> = Vec::new();
    let mut any = false;
    let mut i: usize = 0;
    while i < exe_names.len() && !any
        invariant
            i <= exe_names@.len(),
        decreases exe_names.len() - i,
    {
        let hit = found_on_path(exe_names[i].as_str());
        found.push(hit);
        any = hit;
        i += 1;
    }
    none_found(&found)
}

} // verus!
