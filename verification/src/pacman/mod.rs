//! pacman's local database and queries.
pub mod db;
pub mod owns;
pub mod query;
