//! Orphaned dependencies: packages installed as dependencies that nothing
//! requires any more.
use vstd::prelude::*;
use crate::pacman::query::{nonempty_lines, query_lines};
use crate::text::string_views;

verus! {

/// The orphan packages `pacman -Qdtq` listed, one per non-empty line of
/// what it printed.
pub fn list_orphans(query_output: &str) -> (r: Vec<String>)
    ensures
        string_views(r@) == nonempty_lines(query_output@),
{
    query_lines(query_output)
}

} // verus!
