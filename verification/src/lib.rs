//! Finding, rating and safely removing the files that removed pacman
//! packages leave behind.
pub mod confidence;
pub mod config;
pub mod exec_check;
pub mod executor;
pub mod hook;
pub mod journal;
pub mod pacman;
pub mod path;
pub mod review;
pub mod scanners;
pub mod text;
pub mod ui;
pub mod user_homes;
pub mod util;
