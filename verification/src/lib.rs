//! Offline repository health analysis: sanitization, filtering, history
//! windowing and metric aggregation, verified with Verus.
use vstd::prelude::*;

pub mod cli;
pub mod export;
pub mod filter;
pub mod history;
pub mod html_export;
pub mod loc;
pub mod markdown_export;
pub mod metrics;
pub mod pattern;
pub mod render;
pub mod sanitize;
pub mod text;

verus! {

} // verus!
