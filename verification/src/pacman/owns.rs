use vstd::prelude::*;
use crate::pacman::db::{normalized, PacmanDb};

verus! {

/// Returns true if `path` is owned by any installed package.
/// Owned paths are never deleted.
pub fn is_owned(path: &str, db: &PacmanDb) -> (b: bool)
    requires
        path@.len() > 0,
    ensures
        b == db@.contains(normalized(path@)),
{
    db.owns(path)
}

} // verus!
