//! Finding the real users' home directories from `/etc/passwd` and the
//! variables that privilege-escalation tools set. The hook runs as root, so
//! `$HOME` is `/root`, not the user's home.
use vstd::prelude::*;
use crate::path::{components, cview, path_components, same_components};
use crate::text::{opt_view, chars_eq, chars_of, lines, lines_of, split_chars, split_on, string_from_chars, string_views};

verus! {

/// Field `k` (from 0) of a `/etc/passwd` line, if the line has that many
/// `:`-separated fields. The fields before the seventh are the same whether
/// the line is split at every `:` or into at most seven pieces.
pub open spec fn passwd_field(line: Seq<char>, k: int) -> Option<Seq<char>> {
    if k < split_on(line, ':').len() { Some(split_on(line, ':')[k]) } else { None }
}

/// The value of a decimal digit.
pub open spec fn digit_value(c: char) -> nat {
    ((c as int) - ('0' as int)) as nat
}

/// Every character is an ASCII decimal digit.
pub open spec fn all_digits(s: Seq<char>) -> bool {
    forall|i: int| 0 <= i < s.len() ==> '0' <= #[trigger] s[i] <= '9'
}

/// The number the decimal digits spell.
pub open spec fn digits_value(s: Seq<char>) -> nat
    decreases s.len(),
{
    if s.len() == 0 {
        0
    } else {
        digits_value(s.drop_last()) * 10 + digit_value(s.last())
    }
}

/// What `str::parse::<u32>` accepts: an optional `+`, then one or more
/// decimal digits whose value fits in 32 bits.
pub open spec fn parsed_u32(s: Seq<char>) -> Option<u32> {
    let d = if s.len() > 0 && s[0] == '+' { s.skip(1) } else { s };
    if d.len() > 0 && all_digits(d) && digits_value(d) <= u32::MAX {
        Some(digits_value(d) as u32)
    } else {
        None
    }
}

/// A decimal `u32`, as `str::parse::<u32>` reads it.
pub fn parse_u32(s: &[char]) -> (r: Option<u32>)
    ensures
        r == parsed_u32(s@),
{
    let start: usize = if s.len() > 0 && s[0] == '+' { 1 } else { 0 };
    let ghost d = if s@.len() > 0 && s@[0] == '+' { s@.skip(1) } else { s@ };
    if start >= s.len() {
        assert(d.len() == 0);
        return None;
    }
    let mut acc: u64 = 0;
    let mut i: usize = start;
    while i < s.len()
        invariant
            start <= i <= s@.len(),
            d == (if s@.len() > 0 && s@[0] == '+' { s@.skip(1) } else { s@ }),
            start as int + d.len() == s@.len(),
            forall|k: int| 0 <= k < d.len() ==> d[k] == s@[start + k],
            all_digits(d.take(i - start)),
            acc == if digits_value(d.take(i - start)) > u32::MAX { u32::MAX + 1 } else { digits_value(d.take(i - start)) as int },
        decreases s.len() - i,
    {
        let c = s[i];
        let ghost t = d.take(i - start);
        let ghost t1 = d.take(i - start + 1);
        assert(t1.drop_last() =~= t);
        assert(t1.last() == c);
        if !('0' <= c && c <= '9') {
            assert(!all_digits(d)) by {
                assert(d[i - start] == c);
            }
            return None;
        }
        let dv: u64 = (c as u64) - ('0' as u64);
        assert(dv == digit_value(c));
        if acc > 0xFFFF_FFFF {
            acc = 0x1_0000_0000;
        } else {
            acc = acc * 10 + dv;
            if acc > 0xFFFF_FFFF {
                acc = 0x1_0000_0000;
            }
        }
        assert(all_digits(t1)) by {
            assert forall|k: int| 0 <= k < t1.len() implies '0' <= #[trigger] t1[k] <= '9' by {
                if k < t.len() {
                    assert(t1[k] == t[k]);
                }
            }
        }
        i += 1;
    }
    assert(d.take(d.len() as int) =~= d);
    if acc > 0xFFFF_FFFF {
        None
    } else {
        Some(acc as u32)
    }
}

/// The home field of the lines whose name field is `name`, in order, up to
/// the first such line that has no home field: the search stops there.
pub open spec fn homes_named(ls: Seq<Seq<char>>, name: Seq<char>) -> Seq<Seq<char>>
    decreases ls.len(),
{
    if ls.len() == 0 {
        Seq::<Seq<char>>::empty()
    } else if passwd_field(ls[0], 0) != Some(name) {
        homes_named(ls.skip(1), name)
    } else {
        match passwd_field(ls[0], 5) {
            Some(home) => seq![home] + homes_named(ls.skip(1), name),
            None => Seq::<Seq<char>>::empty(),
        }
    }
}

/// The home field of the lines whose uid field is `uid`, in order; the
/// search stops at the first line whose uid field is missing or is not a
/// number, and at the first matching line with no home field.
pub open spec fn homes_with_uid(ls: Seq<Seq<char>>, uid: u32) -> Seq<Seq<char>>
    decreases ls.len(),
{
    if ls.len() == 0 {
        Seq::<Seq<char>>::empty()
    } else {
        match passwd_field(ls[0], 2) {
            None => Seq::<Seq<char>>::empty(),
            Some(u) => match parsed_u32(u) {
                None => Seq::<Seq<char>>::empty(),
                Some(v) => if v != uid {
                    homes_with_uid(ls.skip(1), uid)
                } else {
                    match passwd_field(ls[0], 5) {
                        Some(home) => seq![home] + homes_with_uid(ls.skip(1), uid),
                        None => Seq::<Seq<char>>::empty(),
                    }
                },
            },
        }
    }
}

/// The uids of human users: 1000 to 59999 (system accounts and `nobody`
/// left out).
pub open spec fn is_human_uid(uid: u32) -> bool {
    1000 <= uid <= 59_999
}

/// The home field of every line with a human uid and a home field, in
/// order; lines without a readable uid are skipped.
pub open spec fn human_homes(ls: Seq<Seq<char>>) -> Seq<Seq<char>>
    decreases ls.len(),
{
    if ls.len() == 0 {
        Seq::<Seq<char>>::empty()
    } else {
        let rest = human_homes(ls.skip(1));
        let here = match passwd_field(ls[0], 2) {
            Some(u) => match parsed_u32(u) {
                Some(v) => if is_human_uid(v) {
                    match passwd_field(ls[0], 5) {
                        Some(home) => seq![home],
                        None => Seq::<Seq<char>>::empty(),
                    }
                } else {
                    Seq::<Seq<char>>::empty()
                },
                None => Seq::<Seq<char>>::empty(),
            },
            None => Seq::<Seq<char>>::empty(),
        };
        here + rest
    }
}

/// The fields of each line of a text.
fn passwd_lines(passwd: &str) -> (r: Vec<Vec<Vec<char>>>)
    ensures
        r@.len() == lines(passwd@).len(),
        forall|i: int| 0 <= i < r@.len() ==> (#[trigger] r@[i])@.map_values(|v: Vec<char>| v@) == split_on(lines(passwd@)[i], ':'),
{
    let ls = lines_of(&chars_of(passwd));
    let ghost lv = ls@.map_values(|v: Vec<char>| v@);
    let mut r: Vec<Vec<Vec<char>>> = Vec::new();
    let mut i: usize = 0;
    while i < ls.len()
        invariant
            i <= ls@.len(),
            lv == ls@.map_values(|v: Vec<char>| v@),
            lv == lines(passwd@),
            r@.len() == i,
            forall|k: int| 0 <= k < i ==> (#[trigger] r@[k])@.map_values(|v: Vec<char>| v@) == split_on(lv[k], ':'),
        decreases ls.len() - i,
    {
        r.push(split_chars(&ls[i], ':'));
        i += 1;
    }
    r
}

/// The candidate homes of the user called `name`, in the order
/// `/etc/passwd` lists them.
pub fn homes_for_name(passwd: &str, name: &str) -> (r: Vec<String>)
    ensures
        string_views(r@) == homes_named(lines(passwd@), name@),
{
    let fields = passwd_lines(passwd);
    let ghost ls = lines(passwd@);
    let n = chars_of(name);
    let mut r: Vec<String> = Vec::new();
    let mut i: usize = 0;
    assert(ls.skip(0) =~= ls);
    assert(string_views(r@) =~= Seq::<Seq<char>>::empty());
    while i < fields.len()
        invariant
            i <= fields@.len(),
            ls == lines(passwd@),
            fields@.len() == ls.len(),
            n@ == name@,
            forall|k: int| 0 <= k < fields@.len() ==> (#[trigger] fields@[k])@.map_values(|v: Vec<char>| v@) == split_on(ls[k], ':'),
            string_views(r@) + homes_named(ls.skip(i as int), name@) == homes_named(ls, name@),
        decreases fields.len() - i,
    {
        let f = &fields[i];
        let ghost l = ls[i as int];
        let ghost rest = ls.skip(i as int);
        assert(rest[0] == l);
        assert(rest.skip(1) =~= ls.skip(i + 1));
        assert(f@.len() == split_on(l, ':').len());
        if f.len() > 0 && chars_eq(&f[0], &n) {
            assert(f@[0]@ == split_on(l, ':')[0]);
            if f.len() > 5 {
                assert(f@[5]@ == split_on(l, ':')[5]);
                let ghost before = string_views(r@);
                r.push(string_from_chars(&f[5]));
                assert(string_views(r@) =~= before.push(split_on(l, ':')[5]));
                assert(before + homes_named(rest, name@) =~= string_views(r@) + homes_named(ls.skip(i + 1), name@));
            } else {
                assert(homes_named(rest, name@) =~= Seq::<Seq<char>>::empty());
                assert(string_views(r@) + Seq::<Seq<char>>::empty() =~= string_views(r@));
                return r;
            }
        } else {
            proof {
                crate::text::lemma_split_on_nonempty(l, ':');
                if f@.len() > 0 {
                    assert(f@[0]@ == split_on(l, ':')[0]);
                }
            }
        }
        i += 1;
    }
    assert(homes_named(ls.skip(i as int), name@) =~= Seq::<Seq<char>>::empty());
    assert(string_views(r@) + Seq::<Seq<char>>::empty() =~= string_views(r@));
    r
}

/// The candidate homes of the user with `uid`, in the order `/etc/passwd`
/// lists them.
pub fn homes_for_uid(passwd: &str, uid: u32) -> (r: Vec<String>)
    ensures
        string_views(r@) == homes_with_uid(lines(passwd@), uid),
{
    let fields = passwd_lines(passwd);
    let ghost ls = lines(passwd@);
    let mut r: Vec<String> = Vec::new();
    let mut i: usize = 0;
    assert(ls.skip(0) =~= ls);
    assert(string_views(r@) =~= Seq::<Seq<char>>::empty());
    while i < fields.len()
        invariant
            i <= fields@.len(),
            ls == lines(passwd@),
            fields@.len() == ls.len(),
            forall|k: int| 0 <= k < fields@.len() ==> (#[trigger] fields@[k])@.map_values(|v: Vec<char>| v@) == split_on(ls[k], ':'),
            string_views(r@) + homes_with_uid(ls.skip(i as int), uid) == homes_with_uid(ls, uid),
        decreases fields.len() - i,
    {
        let f = &fields[i];
        let ghost l = ls[i as int];
        let ghost rest = ls.skip(i as int);
        assert(rest[0] == l);
        assert(rest.skip(1) =~= ls.skip(i + 1));
        assert(f@.len() == split_on(l, ':').len());
        if f.len() <= 2 {
            assert(homes_with_uid(rest, uid) =~= Seq::<Seq<char>>::empty());
            assert(string_views(r@) + Seq::<Seq<char>>::empty() =~= string_views(r@));
            return r;
        }
        assert(f@[2]@ == split_on(l, ':')[2]);
        match parse_u32(&f[2]) {
            None => {
                assert(homes_with_uid(rest, uid) =~= Seq::<Seq<char>>::empty());
                assert(string_views(r@) + Seq::<Seq<char>>::empty() =~= string_views(r@));
                return r;
            },
            Some(v) => {
                if v == uid {
                    if f.len() > 5 {
                        assert(f@[5]@ == split_on(l, ':')[5]);
                        let ghost before = string_views(r@);
                        r.push(string_from_chars(&f[5]));
                        assert(string_views(r@) =~= before.push(split_on(l, ':')[5]));
                        assert(before + homes_with_uid(rest, uid) =~= string_views(r@) + homes_with_uid(ls.skip(i + 1), uid));
                    } else {
                        assert(homes_with_uid(rest, uid) =~= Seq::<Seq<char>>::empty());
                        assert(string_views(r@) + Seq::<Seq<char>>::empty() =~= string_views(r@));
                        return r;
                    }
                }
            },
        }
        i += 1;
    }
    assert(homes_with_uid(ls.skip(i as int), uid) =~= Seq::<Seq<char>>::empty());
    assert(string_views(r@) + Seq::<Seq<char>>::empty() =~= string_views(r@));
    r
}

/// The candidate homes of all human users, in the order `/etc/passwd`
/// lists them.
pub fn human_home_candidates(passwd: &str) -> (r: Vec<String>)
    ensures
        string_views(r@) == human_homes(lines(passwd@)),
{
    let fields = passwd_lines(passwd);
    let ghost ls = lines(passwd@);
    let mut r: Vec<String> = Vec::new();
    let mut i: usize = 0;
    assert(ls.skip(0) =~= ls);
    assert(string_views(r@) =~= Seq::<Seq<char>>::empty());
    while i < fields.len()
        invariant
            i <= fields@.len(),
            ls == lines(passwd@),
            fields@.len() == ls.len(),
            forall|k: int| 0 <= k < fields@.len() ==> (#[trigger] fields@[k])@.map_values(|v: Vec<char>| v@) == split_on(ls[k], ':'),
            string_views(r@) + human_homes(ls.skip(i as int)) == human_homes(ls),
        decreases fields.len() - i,
    {
        let f = &fields[i];
        let ghost l = ls[i as int];
        let ghost rest = ls.skip(i as int);
        assert(rest[0] == l);
        assert(rest.skip(1) =~= ls.skip(i + 1));
        assert(f@.len() == split_on(l, ':').len());
        let ghost before = string_views(r@);
        if f.len() > 2 {
            assert(f@[2]@ == split_on(l, ':')[2]);
            match parse_u32(&f[2]) {
                Some(v) => {
                    if 1000 <= v && v <= 59_999 && f.len() > 5 {
                        assert(f@[5]@ == split_on(l, ':')[5]);
                        r.push(string_from_chars(&f[5]));
                        assert(string_views(r@) =~= before.push(split_on(l, ':')[5]));
                        assert(before + human_homes(rest) =~= string_views(r@) + human_homes(ls.skip(i + 1)));
                    } else {
                        assert(human_homes(rest) =~= Seq::<Seq<char>>::empty() + human_homes(ls.skip(i + 1)));
                    }
                },
                None => {
                    assert(human_homes(rest) =~= Seq::<Seq<char>>::empty() + human_homes(ls.skip(i + 1)));
                },
            }
        } else {
            assert(human_homes(rest) =~= Seq::<Seq<char>>::empty() + human_homes(ls.skip(i + 1)));
        }
        i += 1;
    }
    assert(human_homes(ls.skip(i as int)) =~= Seq::<Seq<char>>::empty());
    assert(string_views(r@) + Seq::<Seq<char>>::empty() =~= string_views(r@));
    r
}

/// The user a privilege-escalation tool ran for: `SUDO_USER` when set,
/// else `DOAS_USER`; none when that is empty or `root`.
pub open spec fn escalating_user(sudo_user: Option<Seq<char>>, doas_user: Option<Seq<char>>) -> Option<Seq<char>> {
    let user = match sudo_user {
        Some(u) => Some(u),
        None => doas_user,
    };
    match user {
        Some(u) => if u.len() == 0 || u == "root"@ { None } else { Some(u) },
        None => None,
    }
}

/// The user named by `SUDO_USER` or `DOAS_USER` (their values, when set).
pub fn sudo_user(sudo: Option<String>, doas: Option<String>) -> (r: Option<String>)
    ensures
        opt_view(r) == escalating_user(opt_view(sudo), opt_view(doas)),
{
    let user = match sudo {
        Some(u) => u,
        None => match doas {
            Some(u) => u,
            None => return None,
        },
    };
    let c = chars_of(user.as_str());
    let root = chars_of("root");
    if c.len() == 0 || chars_eq(&c, &root) {
        None
    } else {
        Some(user)
    }
}

/// The uid polkit ran for: `PKEXEC_UID` read as a number, unless it is 0.
pub open spec fn escalating_uid(value: Option<Seq<char>>) -> Option<u32> {
    match value {
        Some(v) => match parsed_u32(v) {
            Some(uid) => if uid == 0 { None } else { Some(uid) },
            None => None,
        },
        None => None,
    }
}

/// The uid given by `PKEXEC_UID` (its value, when set).
pub fn pkexec_uid(value: Option<String>) -> (r: Option<u32>)
    ensures
        r == escalating_uid(opt_view(value)),
{
    match value {
        Some(v) => match parse_u32(&chars_of(v.as_str())) {
            Some(uid) => if uid == 0 { None } else { Some(uid) },
            None => None,
        },
        None => None,
    }
}

/// The first candidate that is a directory (`is_dir`: what the filesystem
/// said of each).
pub fn first_dir(candidates: &[String], is_dir: &[bool]) -> (r: Option<String>)
    requires
        candidates@.len() == is_dir@.len(),
    ensures
        match r {
            Some(h) => exists|i: int| 0 <= i < is_dir@.len() && is_dir@[i] && candidates@[i]@ == h@
                && forall|j: int| 0 <= j < i ==> !is_dir@[j],
            None => forall|j: int| 0 <= j < is_dir@.len() ==> !is_dir@[j],
        },
{
    let mut i: usize = 0;
    while i < candidates.len()
        invariant
            i <= candidates@.len(),
            candidates@.len() == is_dir@.len(),
            forall|j: int| 0 <= j < i ==> !is_dir@[j],
        decreases candidates.len() - i,
    {
        if is_dir[i] {
            return Some(string_from_chars(&chars_of(candidates[i].as_str())));
        }
        i += 1;
    }
    None
}

/// The candidates that are directories, each path once (compared as
/// paths), in order.
pub open spec fn distinct_dirs_of(c: Seq<Seq<char>>, is_dir: Seq<bool>) -> Seq<Seq<char>>
    decreases c.len(),
{
    if c.len() == 0 {
        Seq::<Seq<char>>::empty()
    } else {
        let r = distinct_dirs_of(c.drop_last(), is_dir);
        let h = c.last();
        if is_dir[c.len() - 1] && !(exists|k: int| 0 <= k < r.len() && components(#[trigger] r[k]) == components(h)) {
            r.push(h)
        } else {
            r
        }
    }
}

/// The human users' homes that exist, without repeats.
pub fn distinct_dirs(candidates: &[String], is_dir: &[bool]) -> (r: Vec<String>)
    requires
        candidates@.len() == is_dir@.len(),
    ensures
        string_views(r@) == distinct_dirs_of(string_views(candidates@), is_dir@),
{
    let ghost cv = string_views(candidates@);
    let mut r: Vec<String> = Vec::new();
    let mut rc: Vec<Vec<Vec<char>>> = Vec::new();
    let mut i: usize = 0;
    while i < candidates.len()
        invariant
            i <= candidates@.len(),
            candidates@.len() == is_dir@.len(),
            cv == string_views(candidates@),
            string_views(r@) == distinct_dirs_of(cv.take(i as int), is_dir@),
            rc@.len() == r@.len(),
            forall|k: int| 0 <= k < rc@.len() ==> cview(#[trigger] rc@[k]) == components(r@[k]@),
        decreases candidates.len() - i,
    {
        let ghost t1 = cv.take(i + 1);
        assert(t1.drop_last() =~= cv.take(i as int));
        assert(t1.last() == cv[i as int]);
        if is_dir[i] {
            let c = path_components(&chars_of(candidates[i].as_str()));
            let mut seen = false;
            let mut k: usize = 0;
            while k < rc.len()
                invariant
                    k <= rc@.len(),
                    rc@.len() == r@.len(),
                    cview(c) == components(cv[i as int]),
                    forall|m: int| 0 <= m < rc@.len() ==> cview(#[trigger] rc@[m]) == components(r@[m]@),
                    seen == exists|m: int| 0 <= m < k && components(#[trigger] string_views(r@)[m]) == components(cv[i as int]),
                decreases rc.len() - k,
            {
                let same = same_components(&rc[k], &c);
                proof {
                    assert(string_views(r@)[k as int] == r@[k as int]@);
                    assert(same == (components(string_views(r@)[k as int]) == components(cv[i as int])));
                }
                if same {
                    seen = true;
                }
                k += 1;
            }
            if !seen {
                let ghost before = string_views(r@);
                r.push(string_from_chars(&chars_of(candidates[i].as_str())));
                rc.push(c);
                assert(string_views(r@) =~= before.push(cv[i as int]));
            }
        }
        i += 1;
    }
    assert(cv.take(candidates@.len() as int) =~= cv);
    r
}

/// The homes to scan: the escalating user's home when one was found
/// (through sudo or doas, else polkit), else the human users' homes, else
/// `$HOME`, else `/root`.
pub open spec fn homes_chosen(
    escalated: Option<Seq<char>>,
    polkit: Option<Seq<char>>,
    humans: Seq<Seq<char>>,
    home_env: Option<Seq<char>>,
) -> Seq<Seq<char>> {
    match escalated {
        Some(h) => seq![h],
        None => match polkit {
            Some(h) => seq![h],
            None => if humans.len() > 0 {
                humans
            } else {
                match home_env {
                    Some(h) => seq![h],
                    None => seq!["/root"@],
                }
            },
        },
    }
}

/// The home directories to scan, from what was found in each place.
pub fn choose_homes(
    escalated: Option<String>,
    polkit: Option<String>,
    humans: Vec<String>,
    home_env: Option<String>,
) -> (r: Vec<String>)
    ensures
        string_views(r@) == homes_chosen(
            opt_view(escalated),
            opt_view(polkit),
            string_views(humans@),
            opt_view(home_env),
        ),
{
    let r = match escalated {
        Some(h) => vec![h],
        None => match polkit {
            Some(h) => vec![h],
            None => if humans.len() > 0 {
                humans
            } else {
                match home_env {
                    Some(h) => vec![h],
                    None => vec![string_from_chars(&chars_of("/root"))],
                }
            },
        },
    };
    assert(string_views(r@) =~= homes_chosen(
        opt_view(escalated),
        opt_view(polkit),
        string_views(humans@),
        opt_view(home_env),
    ));
    r
}

} // verus!
