//! Derives displayable chart series from recorded telemetry channels.
//!
//! A run of recorded data arrives as a list of named channels, each with a
//! unit and a set of declarative directives (hide, area, x-axis selection,
//! differentiate, delta, integrate, zero-baseline, join).  This crate turns
//! those channels into renderable graphs bound to a shared x-axis, and groups
//! graphs, free-standing values and text logs into sorted display folders.
//!
//! Samples are integer quantities; arithmetic in the transform library
//! saturates at the representable extremes instead of wrapping.

use vstd::prelude::*;

pub mod attached_file;
pub mod attribute;
pub mod diag;
pub mod folder;
pub mod graph;
pub mod input;
pub mod util;
pub mod xaxis;

verus! {

/// Display unit used for channels that carry no unit of their own.
pub const UNITLESS: &'static str = "ul";

/// The run configuration an invocation supplies.
#[derive(Debug, Clone)]
pub struct Opt {
    /// The input file path.
    pub input: String,
    /// The output file path; the input path plus a suffix when absent.
    pub output: Option<String>,
    /// Retry numeric parsing with surrounding whitespace trimmed.
    pub trim_doubles: bool,
    /// Read the input as bare columns with no directive header.
    pub csv: bool,
    /// Compress the embedded copy of the input.
    pub compress_csv: bool,
    /// Paths of files to carry into the report.
    pub attatched_paths: Vec<String>,
    /// Open the finished report in the default browser.
    pub open_in_browser: bool,
}

} // verus!
