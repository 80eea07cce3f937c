//! pacman-flavoured terminal output.
//!
//! The hook prints in the middle of a pacman transaction, so its lines follow
//! pacman's conventions: `::` in bold blue followed by a bold message, ` ->`
//! for sub-items, `warning:`/`error:` in yellow and red. Whether colour is
//! wanted (a terminal, no `NO_COLOR`) is decided by the caller and passed in.
use vstd::prelude::*;
use crate::text::{chars_of, concat_chars, decimal, decimal_chars, find_char, find_char_index, has_prefix, slice_chars, starts_with_chars, string_from_chars};

verus! {

pub open spec fn bold_code() -> Seq<char> { "\x1b[1m"@ }
pub open spec fn blue_code() -> Seq<char> { "\x1b[1;34m"@ }
pub open spec fn green_code() -> Seq<char> { "\x1b[1;32m"@ }
pub open spec fn yellow_code() -> Seq<char> { "\x1b[1;33m"@ }
pub open spec fn red_code() -> Seq<char> { "\x1b[1;31m"@ }
pub open spec fn dim_code() -> Seq<char> { "\x1b[2m"@ }
pub open spec fn reset_code() -> Seq<char> { "\x1b[0m"@ }

/// `text` wrapped in the colour `code` when colour is on.
pub open spec fn painted(code: Seq<char>, text: Seq<char>, colored: bool) -> Seq<char> {
    if colored { code + text + reset_code() } else { text }
}

/// `text` wrapped in the colour `code` when colour is on.
pub fn paint(code: &str, text: &str, colored: bool) -> (r: String)
    ensures
        r@ == painted(code@, text@, colored),
{
    if colored {
        let a = concat_chars(&chars_of(code), &chars_of(text));
        string_from_chars(&concat_chars(&a, &chars_of("\x1b[0m")))
    } else {
        string_from_chars(&chars_of(text))
    }
}

fn join_space(a: &str, b: &str) -> (r: String)
    ensures
        r@ == a@ + " "@ + b@,
{
    let x = concat_chars(&chars_of(a), &chars_of(" "));
    string_from_chars(&concat_chars(&x, &chars_of(b)))
}

/// A top-level `:: message` line: `::` in blue, the message in bold.
pub open spec fn header_line(message: Seq<char>, colored: bool) -> Seq<char> {
    painted(blue_code(), "::"@, colored) + " "@ + painted(bold_code(), message, colored)
}

/// A ` -> message` sub-line, the arrow in blue.
pub open spec fn item_line(message: Seq<char>, colored: bool) -> Seq<char> {
    painted(blue_code(), " ->"@, colored) + " "@ + message
}

/// A `:: message` line, `::` in green, the message in bold.
pub open spec fn success_line(message: Seq<char>, colored: bool) -> Seq<char> {
    painted(green_code(), "::"@, colored) + " "@ + painted(bold_code(), message, colored)
}

/// A `warning: message` line, the label in yellow.
pub open spec fn warning_line(message: Seq<char>, colored: bool) -> Seq<char> {
    painted(yellow_code(), "warning:"@, colored) + " "@ + message
}

/// An `error: message` line, the label in red.
pub open spec fn error_line(message: Seq<char>, colored: bool) -> Seq<char> {
    painted(red_code(), "error:"@, colored) + " "@ + message
}

/// `n` and a noun, with an `s` unless `n` is 1.
pub open spec fn counted(n: nat, noun: Seq<char>) -> Seq<char> {
    if n == 1 { "1 "@ + noun } else { decimal(n) + " "@ + noun + "s"@ }
}

/// A top-level `:: message` line, matching pacman's own transaction output.
pub fn header(message: &str, colored: bool) -> (r: String)
    requires
        message@.len() > 0,
    ensures
        r@ == header_line(message@, colored),
{
    let a = paint("\x1b[1;34m", "::", colored);
    let b = paint("\x1b[1m", message, colored);
    join_space(a.as_str(), b.as_str())
}

/// A ` -> item` sub-line, matching pacman's optional-dependency listings.
pub fn item(message: &str, colored: bool) -> (r: String)
    ensures
        r@ == item_line(message@, colored),
{
    let a = paint("\x1b[1;34m", " ->", colored);
    join_space(a.as_str(), message)
}

/// A `:: message` line in green, for a completed action.
pub fn success(message: &str, colored: bool) -> (r: String)
    ensures
        r@ == success_line(message@, colored),
{
    let a = paint("\x1b[1;32m", "::", colored);
    let b = paint("\x1b[1m", message, colored);
    join_space(a.as_str(), b.as_str())
}

/// A `warning: message` line.
pub fn warning(message: &str, colored: bool) -> (r: String)
    ensures
        r@ == warning_line(message@, colored),
{
    let a = paint("\x1b[1;33m", "warning:", colored);
    join_space(a.as_str(), message)
}

/// An `error: message` line.
pub fn error(message: &str, colored: bool) -> (r: String)
    ensures
        r@ == error_line(message@, colored),
{
    let a = paint("\x1b[1;31m", "error:", colored);
    join_space(a.as_str(), message)
}

pub fn dim(text: &str, colored: bool) -> (r: String)
    ensures
        r@ == painted(dim_code(), text@, colored),
{
    paint("\x1b[2m", text, colored)
}

pub fn bold(text: &str, colored: bool) -> (r: String)
    ensures
        r@ == painted(bold_code(), text@, colored),
{
    paint("\x1b[1m", text, colored)
}

pub fn green(text: &str, colored: bool) -> (r: String)
    ensures
        r@ == painted(green_code(), text@, colored),
{
    paint("\x1b[1;32m", text, colored)
}

pub fn yellow(text: &str, colored: bool) -> (r: String)
    ensures
        r@ == painted(yellow_code(), text@, colored),
{
    paint("\x1b[1;33m", text, colored)
}

pub fn red(text: &str, colored: bool) -> (r: String)
    ensures
        r@ == painted(red_code(), text@, colored),
{
    paint("\x1b[1;31m", text, colored)
}

/// `n` followed by `noun`, pluralised with a trailing "s" unless `n` is 1.
pub fn count(n: usize, noun: &str) -> (r: String)
    ensures
        r@ == counted(n as nat, noun@),
{
    if n == 1 {
        string_from_chars(&concat_chars(&chars_of("1 "), &chars_of(noun)))
    } else {
        let a = concat_chars(&decimal_chars(n as u64), &chars_of(" "));
        let b = concat_chars(&a, &chars_of(noun));
        string_from_chars(&concat_chars(&b, &chars_of("s")))
    }
}

/// The path with a leading home directory shown as `~`: `/root` (the whole
/// path, or followed by `/`) becomes `~`, and `/home/<user>/` becomes `~/`.
pub open spec fn abbreviated(s: Seq<char>) -> Seq<char> {
    if s == "/root"@ || has_prefix(s, "/root/"@) {
        "~"@ + s.skip(5)
    } else if has_prefix(s, "/home/"@) {
        let rest = s.skip(6);
        let i = find_char(rest, '/');
        if i >= 0 {
            "~/"@ + rest.skip(i + 1)
        } else {
            s
        }
    } else {
        s
    }
}

/// Replaces a leading home directory with `~` for display only.
///
/// Derived from the path itself rather than `$HOME`: the hook runs as root
/// over every user's home, so the environment's idea of home is wrong here.
pub fn abbreviate_home(path: &str) -> (r: String)
    ensures
        r@ == abbreviated(path@),
{
    let s = chars_of(path);
    let root = chars_of("/root");
    let root_dir = chars_of("/root/");
    let home = chars_of("/home/");
    proof {
        reveal_strlit("/root");
        reveal_strlit("/root/");
        reveal_strlit("/home/");
    }
    if crate::text::chars_eq(&s, &root) || starts_with_chars(&s, &root_dir) {
        let rest = slice_chars(&s, 5, s.len());
        assert(rest@ =~= s@.skip(5));
        return string_from_chars(&concat_chars(&chars_of("~"), &rest));
    }
    if !starts_with_chars(&s, &home) {
        return string_from_chars(&s);
    }
    let rest = slice_chars(&s, 6, s.len());
    assert(rest@ =~= s@.skip(6));
    match find_char_index(&rest, '/') {
        Some(i) => {
            let tail = slice_chars(&rest, i + 1, rest.len());
            assert(tail@ =~= rest@.skip(i + 1));
            string_from_chars(&concat_chars(&chars_of("~/"), &tail))
        },
        None => string_from_chars(&s),
    }
}

/// Shortened to at most `max` characters by cutting the middle: keeps
/// `(max - 1) / 2` characters of the head, the rest of the budget from the
/// tail, and puts `…` between them. Short texts and `max < 5` are left alone.
pub open spec fn truncated_middle(t: Seq<char>, max: nat) -> Seq<char> {
    if t.len() <= max || max < 5 {
        t
    } else {
        let budget = (max - 1) as nat;
        let head = budget / 2;
        let tail = budget - head;
        t.take(head as int) + seq!['…'] + t.skip(t.len() - tail)
    }
}

/// Shortens `text` to `max` characters, cutting the middle and keeping both ends.
///
/// Middle-out because the informative parts of a path are its root and its
/// leaf. Works on characters, so a multi-byte path is never split inside one.
pub fn truncate_middle(text: &str, max: usize) -> (r: String)
    ensures
        r@ == truncated_middle(text@, max as nat),
        text@.len() > max && max >= 5 ==> r@.len() == max,
{
    let t = chars_of(text);
    let len = t.len();
    if len <= max || max < 5 {
        return string_from_chars(&t);
    }
    let budget = max - 1;
    let head = budget / 2;
    let tail = budget - head;
    let prefix = slice_chars(&t, 0, head);
    let suffix = slice_chars(&t, len - tail, len);
    assert(prefix@ =~= t@.take(head as int));
    assert(suffix@ =~= t@.skip(len - tail));
    let mut mid: Vec<char> = Vec::new();
    mid.push('…');
    let a = concat_chars(&prefix, &mid);
    let r = concat_chars(&a, &suffix);
    assert(mid@ =~= seq!['…']);
    string_from_chars(&r)
}

} // verus!
