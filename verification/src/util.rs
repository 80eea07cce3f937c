//! Byte counts for people, and the XDG variables of location templates.
use vstd::prelude::*;
use crate::path::{join_path, path_join};
use crate::text::{chars_of, concat_chars, has_prefix, has_suffix, opt_view, replace_all, replace_all_chars, slice_chars, starts_with_chars, string_from_chars};

verus! {

/// What `humansize::format_size(bytes, BINARY)` writes for `bytes`.
pub uninterp spec fn binary_size_text(bytes: u64) -> Seq<char>;

/// The binary units, one per power of 1024.
pub open spec fn binary_units() -> Seq<Seq<char>> {
    seq!["B"@, "KiB"@, "MiB"@, "GiB"@, "TiB"@, "PiB"@, "EiB"@]
}

/// The power of 1024 that `n` is scaled down by: the largest `k` with
/// `1024^k <= n`, or 0.
pub open spec fn binary_scale(n: nat) -> nat
    decreases n,
{
    if n < 1024 { 0 } else { 1 + binary_scale(n / 1024) }
}

/// `humansize::format_size` with the `BINARY` options. The text depends on
/// floating-point formatting and is only named; its unit, which the source
/// fixes by dividing by 1024 while the value is at least 1024, is stated for
/// values that an `f64` holds exactly.
#[verifier::external_body]
fn humansize_binary(bytes: u64) -> (r: String)
    ensures
        r@ == binary_size_text(bytes),
        bytes < 0x20_0000_0000_0000 ==> has_suffix(r@, " "@ + binary_units()[binary_scale(bytes as nat) as int]),
{
    humansize::format_size(bytes, humansize::BINARY)
}

/// A byte count in binary units ("1 GiB", "512 B", "1.50 KiB").
pub fn format_bytes(bytes: u64) -> (r: String)
    ensures
        r@ == binary_size_text(bytes),
        bytes < 0x20_0000_0000_0000 ==> has_suffix(r@, " "@ + binary_units()[binary_scale(bytes as nat) as int]),
{
    humansize_binary(bytes)
}

/// A location template with its variables resolved against `home`: `$HOME`,
/// then `$XDG_CONFIG_HOME`, `$XDG_CACHE_HOME`, `$XDG_DATA_HOME` and
/// `$XDG_STATE_HOME`, each to its default under `home`, every occurrence left
/// to right.
pub open spec fn expanded_with_home(path: Seq<char>, home: Seq<char>) -> Seq<char> {
    let a = replace_all(path, "$HOME"@, home);
    let b = replace_all(a, "$XDG_CONFIG_HOME"@, home + "/.config"@);
    let c = replace_all(b, "$XDG_CACHE_HOME"@, home + "/.cache"@);
    let d = replace_all(c, "$XDG_DATA_HOME"@, home + "/.local/share"@);
    replace_all(d, "$XDG_STATE_HOME"@, home + "/.local/state"@)
}

/// Resolve XDG variables using a known home directory (no env-var reads).
/// Always call this instead of reading the environment in scanner code — the
/// hook runs as root so `$HOME` in the environment is `/root`, not the user's
/// actual home.
pub fn expand_xdg_with_home(path: &str, home: &str) -> (r: String)
    requires
        path@.len() > 0,
    ensures
        r@ == expanded_with_home(path@, home@),
{
    proof {
        reveal_strlit("$HOME");
        reveal_strlit("$XDG_CONFIG_HOME");
        reveal_strlit("$XDG_CACHE_HOME");
        reveal_strlit("$XDG_DATA_HOME");
        reveal_strlit("$XDG_STATE_HOME");
    }
    let h = chars_of(home);
    let a = replace_all_chars(&chars_of(path), &chars_of("$HOME"), &h);
    let b = replace_all_chars(&a, &chars_of("$XDG_CONFIG_HOME"), &concat_chars(&h, &chars_of("/.config")));
    let c = replace_all_chars(&b, &chars_of("$XDG_CACHE_HOME"), &concat_chars(&h, &chars_of("/.cache")));
    let d = replace_all_chars(&c, &chars_of("$XDG_DATA_HOME"), &concat_chars(&h, &chars_of("/.local/share")));
    let e = replace_all_chars(&d, &chars_of("$XDG_STATE_HOME"), &concat_chars(&h, &chars_of("/.local/state")));
    string_from_chars(&e)
}

/// A path with a leading `~/` resolved against the home directory (the
/// value of `$HOME`, when set); any other path as given.
pub open spec fn home_expanded(path: Seq<char>, home: Option<Seq<char>>) -> Seq<char> {
    match home {
        Some(h) => if has_prefix(path, "~/"@) { path_join(h, path.skip(2)) } else { path },
        None => path,
    }
}

/// Expands a leading `~/` to the home directory.
pub fn expand_home(path: &str, home: Option<String>) -> (r: String)
    ensures
        r@ == home_expanded(path@, opt_view(home)),
{
    let p = chars_of(path);
    let tilde = chars_of("~/");
    proof {
        reveal_strlit("~/");
    }
    match home {
        Some(h) => {
            if starts_with_chars(&p, &tilde) {
                let rest = slice_chars(&p, 2, p.len());
                assert(rest@ =~= p@.skip(2));
                string_from_chars(&join_path(&chars_of(h.as_str()), &rest))
            } else {
                string_from_chars(&p)
            }
        },
        None => string_from_chars(&p),
    }
}

/// `s` holds no `$`.
pub open spec fn dollar_free(s: Seq<char>) -> bool {
    forall|i: int| 0 <= i < s.len() ==> s[i] != '$'
}

/// Replacing a `$`-led pattern leaves a `$`-free prefix in place.
proof fn lemma_replace_keeps_plain_prefix(s: Seq<char>, h: Seq<char>, pat: Seq<char>, rep: Seq<char>)
    requires
        has_prefix(s, h),
        dollar_free(h),
        pat.len() > 0,
        pat[0] == '$',
    ensures
        has_prefix(replace_all(s, pat, rep), h),
    decreases h.len(),
{
    if h.len() == 0 {
        assert(replace_all(s, pat, rep).take(0) =~= h);
    } else if s.len() >= pat.len() {
        assert(s[0] == s.take(h.len() as int)[0]);
        assert(s.take(pat.len() as int)[0] != pat[0]);
        assert(s.skip(1).take(h.len() - 1) =~= h.skip(1));
        lemma_replace_keeps_plain_prefix(s.skip(1), h.skip(1), pat, rep);
        let r = replace_all(s.skip(1), pat, rep);
        assert(s[0] == h[0]);
        assert(r.take(h.len() - 1) == h.skip(1));
        assert forall|i: int| 0 <= i < h.len() implies (seq![s[0]] + r)[i] == h[i] by {
            if i > 0 {
                assert(r[i - 1] == r.take(h.len() - 1)[i - 1]);
                assert(h[i] == h.skip(1)[i - 1]);
            }
        }
        assert(replace_all(s, pat, rep) == seq![s[0]] + r);
        assert((seq![s[0]] + r).take(h.len() as int) =~= h);
    }
}

/// Replacing a `$`-led pattern that differs from the `$`-led variable `v` at
/// position `j` leaves `v` in place at the start.
proof fn lemma_replace_keeps_variable(s: Seq<char>, v: Seq<char>, pat: Seq<char>, rep: Seq<char>, j: int)
    requires
        has_prefix(s, v),
        v.len() > 0,
        dollar_free(v.skip(1)),
        pat.len() > 0,
        pat[0] == '$',
        0 <= j < v.len(),
        j < pat.len(),
        v[j] != pat[j],
    ensures
        has_prefix(replace_all(s, pat, rep), v),
{
    if s.len() >= pat.len() {
        assert(s.take(pat.len() as int)[j] == s.take(v.len() as int)[j]);
        assert(s.take(pat.len() as int) != pat);
        assert(s.skip(1).take(v.len() - 1) =~= v.skip(1));
        lemma_replace_keeps_plain_prefix(s.skip(1), v.skip(1), pat, rep);
        let r = replace_all(s.skip(1), pat, rep);
        assert(s[0] == s.take(v.len() as int)[0]);
        assert(s[0] == v[0]);
        assert(r.take(v.len() - 1) == v.skip(1));
        assert forall|i: int| 0 <= i < v.len() implies (seq![s[0]] + r)[i] == v[i] by {
            if i > 0 {
                assert(r[i - 1] == r.take(v.len() - 1)[i - 1]);
                assert(v[i] == v.skip(1)[i - 1]);
            }
        }
        assert(replace_all(s, pat, rep) == seq![s[0]] + r);
        assert((seq![s[0]] + r).take(v.len() as int) =~= v);
    }
}

/// Replacing `pat` at the very start puts `rep` there.
proof fn lemma_replace_at_start(rest: Seq<char>, pat: Seq<char>, rep: Seq<char>)
    requires
        pat.len() > 0,
    ensures
        has_prefix(replace_all(pat + rest, pat, rep), rep),
{
    let s = pat + rest;
    assert(s.take(pat.len() as int) =~= pat);
    assert(s.skip(pat.len() as int) =~= rest);
    let r = replace_all(rest, pat, rep);
    assert((rep + r).take(rep.len() as int) =~= rep);
}

/// Locations resolve only against the home directory they are given, never
/// the environment's: `$HOME/…` lies under `home`, `$XDG_CONFIG_HOME/…` under
/// `home/.config`, `$XDG_CACHE_HOME/…` under `home/.cache`,
/// `$XDG_DATA_HOME/…` under `home/.local/share` and `$XDG_STATE_HOME/…` under
/// `home/.local/state` (for a home directory without `$` in it).
pub proof fn law_locations_resolve_under_home(rest: Seq<char>, home: Seq<char>)
    requires
        dollar_free(home),
    ensures
        has_prefix(expanded_with_home("$HOME"@ + rest, home), home),
        has_prefix(expanded_with_home("$XDG_CONFIG_HOME"@ + rest, home), home + "/.config"@),
        has_prefix(expanded_with_home("$XDG_CACHE_HOME"@ + rest, home), home + "/.cache"@),
        has_prefix(expanded_with_home("$XDG_DATA_HOME"@ + rest, home), home + "/.local/share"@),
        has_prefix(expanded_with_home("$XDG_STATE_HOME"@ + rest, home), home + "/.local/state"@),
{
    reveal_strlit("$HOME");
    reveal_strlit("$XDG_CONFIG_HOME");
    reveal_strlit("$XDG_CACHE_HOME");
    reveal_strlit("$XDG_DATA_HOME");
    reveal_strlit("$XDG_STATE_HOME");
    reveal_strlit("/.config");
    reveal_strlit("/.cache");
    reveal_strlit("/.local/share");
    reveal_strlit("/.local/state");
    let vh = "$HOME"@;
    let vc = "$XDG_CONFIG_HOME"@;
    let vk = "$XDG_CACHE_HOME"@;
    let vd = "$XDG_DATA_HOME"@;
    let vs = "$XDG_STATE_HOME"@;
    let hc = home + "/.config"@;
    let hk = home + "/.cache"@;
    let hd = home + "/.local/share"@;
    let hs = home + "/.local/state"@;
    assert(dollar_free(hc) && dollar_free(hk) && dollar_free(hd) && dollar_free(hs)) by {
        assert forall|i: int| 0 <= i < hc.len() implies hc[i] != '$' by {
            if i >= home.len() {
                assert(hc[i] == "/.config"@[i - home.len()]);
            }
        }
        assert forall|i: int| 0 <= i < hk.len() implies hk[i] != '$' by {
            if i >= home.len() {
                assert(hk[i] == "/.cache"@[i - home.len()]);
            }
        }
        assert forall|i: int| 0 <= i < hd.len() implies hd[i] != '$' by {
            if i >= home.len() {
                assert(hd[i] == "/.local/share"@[i - home.len()]);
            }
        }
        assert forall|i: int| 0 <= i < hs.len() implies hs[i] != '$' by {
            if i >= home.len() {
                assert(hs[i] == "/.local/state"@[i - home.len()]);
            }
        }
    }
    assert(dollar_free(vc.skip(1)) && dollar_free(vk.skip(1)) && dollar_free(vd.skip(1)) && dollar_free(vs.skip(1)));

    // `$HOME`
    let s = vh + rest;
    lemma_replace_at_start(rest, vh, home);
    let a = replace_all(s, vh, home);
    lemma_replace_keeps_plain_prefix(a, home, vc, hc);
    let b = replace_all(a, vc, hc);
    lemma_replace_keeps_plain_prefix(b, home, vk, hk);
    let c = replace_all(b, vk, hk);
    lemma_replace_keeps_plain_prefix(c, home, vd, hd);
    let d = replace_all(c, vd, hd);
    lemma_replace_keeps_plain_prefix(d, home, vs, hs);

    // `$XDG_CONFIG_HOME`
    let s = vc + rest;
    assert(has_prefix(s, vc)) by { assert(s.take(vc.len() as int) =~= vc); }
    lemma_replace_keeps_variable(s, vc, vh, home, 1);
    let a = replace_all(s, vh, home);
    lemma_replace_at_start(a.skip(vc.len() as int), vc, hc);
    assert(vc + a.skip(vc.len() as int) =~= a);
    let b = replace_all(a, vc, hc);
    lemma_replace_keeps_plain_prefix(b, hc, vk, hk);
    let c = replace_all(b, vk, hk);
    lemma_replace_keeps_plain_prefix(c, hc, vd, hd);
    let d = replace_all(c, vd, hd);
    lemma_replace_keeps_plain_prefix(d, hc, vs, hs);

    // `$XDG_CACHE_HOME`
    let s = vk + rest;
    assert(has_prefix(s, vk)) by { assert(s.take(vk.len() as int) =~= vk); }
    lemma_replace_keeps_variable(s, vk, vh, home, 1);
    let a = replace_all(s, vh, home);
    lemma_replace_keeps_variable(a, vk, vc, hc, 6);
    let b = replace_all(a, vc, hc);
    lemma_replace_at_start(b.skip(vk.len() as int), vk, hk);
    assert(vk + b.skip(vk.len() as int) =~= b);
    let c = replace_all(b, vk, hk);
    lemma_replace_keeps_plain_prefix(c, hk, vd, hd);
    let d = replace_all(c, vd, hd);
    lemma_replace_keeps_plain_prefix(d, hk, vs, hs);

    // `$XDG_DATA_HOME`
    let s = vd + rest;
    assert(has_prefix(s, vd)) by { assert(s.take(vd.len() as int) =~= vd); }
    lemma_replace_keeps_variable(s, vd, vh, home, 1);
    let a = replace_all(s, vh, home);
    lemma_replace_keeps_variable(a, vd, vc, hc, 5);
    let b = replace_all(a, vc, hc);
    lemma_replace_keeps_variable(b, vd, vk, hk, 5);
    let c = replace_all(b, vk, hk);
    lemma_replace_at_start(c.skip(vd.len() as int), vd, hd);
    assert(vd + c.skip(vd.len() as int) =~= c);
    let d = replace_all(c, vd, hd);
    lemma_replace_keeps_plain_prefix(d, hd, vs, hs);

    // `$XDG_STATE_HOME`
    let s = vs + rest;
    assert(has_prefix(s, vs)) by { assert(s.take(vs.len() as int) =~= vs); }
    lemma_replace_keeps_variable(s, vs, vh, home, 1);
    let a = replace_all(s, vh, home);
    lemma_replace_keeps_variable(a, vs, vc, hc, 5);
    let b = replace_all(a, vc, hc);
    lemma_replace_keeps_variable(b, vs, vk, hk, 5);
    let c = replace_all(b, vk, hk);
    lemma_replace_keeps_variable(c, vs, vd, hd, 5);
    let d = replace_all(c, vd, hd);
    lemma_replace_at_start(d.skip(vs.len() as int), vs, hs);
    assert(vs + d.skip(vs.len() as int) =~= d);
}

} // verus!
