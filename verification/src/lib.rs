//! Terminal display engine for an interactive command-line assistant.
//!
//! The crate turns a stream of markdown text chunks into styled, wrapped
//! terminal output, redraws only what changed between successive renders,
//! and drives a status spinner that shares the same screen region.

use vstd::prelude::*;

pub mod metrics;
pub mod menu;
pub mod model;
pub mod track;
pub mod render;
pub mod sink;
pub mod spinner;
pub mod ansi;
pub mod text;
pub mod writer;

verus! {

} // verus!
