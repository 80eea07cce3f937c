//! Reading what `pacman -Q...` prints.
use vstd::prelude::*;
use crate::text::{chars_of, contains_char, has_char, lines, lines_of, string_from_chars, string_views};

verus! {

/// The non-empty lines of a text, in order.
pub open spec fn nonempty_lines(s: Seq<char>) -> Seq<Seq<char>> {
    lines(s).filter(|l: Seq<char>| l.len() > 0)
}

/// The non-empty lines of what a `pacman -Q` query printed: one package
/// name (`-Qdtq`) or one path (`-Qlq`) per line.
pub fn query_lines(stdout: &str) -> (r: Vec<String>)
    ensures
        string_views(r@) == nonempty_lines(stdout@),
{
    let ls = lines_of(&chars_of(stdout));
    let ghost lv = ls@.map_values(|v: Vec<char>| v@);
    let mut r: Vec<String> = Vec::new();
    let mut i: usize = 0;
    while i < ls.len()
        invariant
            i <= ls@.len(),
            lv == ls@.map_values(|v: Vec<char>| v@),
            lv == lines(stdout@),
            string_views(r@) == lv.take(i as int).filter(|l: Seq<char>| l.len() > 0),
        decreases ls.len() - i,
    {
        let ghost before = string_views(r@);
        assert(lv.take(i + 1).drop_last() =~= lv.take(i as int));
        reveal(Seq::filter);
        if ls[i].len() > 0 {
            r.push(string_from_chars(&ls[i]));
            assert(string_views(r@) =~= before.push(lv[i as int]));
        }
        i += 1;
    }
    assert(lv.take(ls@.len() as int) =~= lv);
    r
}

/// A name that can be handed to `pacman` on a command line: it holds none
/// of the shell's `;`, `&` and `|`.
pub open spec fn shell_safe(name: Seq<char>) -> bool {
    !has_char(name, ';') && !has_char(name, '&') && !has_char(name, '|')
}

/// Whether a package name holds none of `;`, `&` and `|`.
pub fn is_shell_safe(name: &str) -> (b: bool)
    ensures
        b == shell_safe(name@),
{
    let c = chars_of(name);
    !contains_char(&c, ';') && !contains_char(&c, '&') && !contains_char(&c, '|')
}

} // verus!
