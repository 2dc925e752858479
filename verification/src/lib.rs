//! The logic of dupefind: finding duplicate files by content, reviewing them,
//! and deciding what may be deleted.
//!
//! Every item here is verified. File and network access, threads and the
//! terminal are outside; they hand plain values in and take plain values back.

use vstd::prelude::*;

pub mod app;
pub mod cache;
pub mod cli;
pub mod delete;
pub mod export;
pub mod format;
pub mod grouping;
pub mod hashing;
pub mod model;
pub mod order;
pub mod path;
pub mod scan;
pub mod selection;
pub mod text;
pub mod time;
pub mod ui;

verus! {

} // verus!
