//! Sorting the files of one directory into per-category folders by extension.
//!
//! The library holds the decisions: which extension belongs to which
//! category, which roots are refused, what a preview counts and which moves a
//! commit makes. Listing directories and moving files is left to the caller,
//! who hands the library the listing and carries out what it returns.

pub mod classify;
pub mod config;
pub mod engine;
pub mod guard;
pub mod laws;
