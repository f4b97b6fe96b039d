//! Record/replay orchestration core: trace lifecycle management, build
//! artifact and test discovery with disambiguation, and cross-tool argument
//! splicing for a deterministic-replay recording tool.
//!
//! Everything here is pure decision logic over plain values. The surrounding
//! binary performs the filesystem reads, process spawns and interactive
//! selection, hands the observed values in, and carries the returned plans
//! out to the external tools.
use vstd::prelude::*;
use vstd::string::*;

pub mod artifact;
pub mod list;
pub mod opts;
pub mod record;
pub mod replay;
pub mod splice;
pub mod strutil;
pub mod testsel;
pub mod trace;

verus! {

use crate::strutil::{views, spec_split_ws, split_ws};

/// The whitespace-separated tokens of an optional free-form option string:
/// none at all when no string was given.
pub open spec fn spec_split_opts(opts: Option<&str>) -> Seq<Seq<char>> {
    match opts {
        None => Seq::empty(),
        Some(s) => spec_split_ws(s@),
    }
}

/// Splits a free-form record/replay tool option string on whitespace into
/// discrete tokens; an absent or empty input yields no tokens.
pub fn split_rr_opts(opts: Option<&str>) -> (r: Vec<String>)
    ensures
        views(r@) == spec_split_opts(opts),
{
    match opts {
        None => {
            let r: Vec<String> = Vec::new();
            proof {
                crate::strutil::lemma_views_empty();
            }
            r
        },
        Some(s) => split_ws(s),
    }
}

/// The failure taxonomy of the orchestration core.
///
/// `InputConflict`: mutually exclusive filters or flags supplied together.
/// `NoCandidates`: a build produced no artifact or test matching the filters.
/// `NotFound`: a named trace or the latest-pointer target does not resolve,
/// or an interactive selection was aborted.
/// `SpawnFailure`: an external tool binary could not be launched.
/// `ToolFailure`: an external tool ran and reported a non-zero exit.
#[derive(Clone, Copy, Debug, PartialEq, Eq, Structural)]
pub enum RrError {
    InputConflict,
    NoCandidates,
    NotFound,
    SpawnFailure,
    ToolFailure,
}

impl RrError {
    /// A short description of the failure, for the wrapping binary's
    /// diagnostics.
    pub fn text(&self) -> (r: &'static str)
        ensures
            *self is InputConflict ==> r@ == "mutually exclusive options were supplied together"@,
            *self is NoCandidates ==> r@ == "no artifacts were built matching the request"@,
            *self is NotFound ==> r@ == "no such trace, or nothing was selected"@,
            *self is SpawnFailure ==> r@ == "an external tool could not be launched"@,
            *self is ToolFailure ==> r@ == "an external tool reported failure"@,
    {
        match self {
            RrError::InputConflict => "mutually exclusive options were supplied together",
            RrError::NoCandidates => "no artifacts were built matching the request",
            RrError::NotFound => "no such trace, or nothing was selected",
            RrError::SpawnFailure => "an external tool could not be launched",
            RrError::ToolFailure => "an external tool reported failure",
        }
    }
}

/// The directory that holds all traces: `<target_dir>/rr`, where
/// `target_dir` is the build tool's reported output location.
pub fn traces_dir(target_dir: &str) -> (r: String)
    ensures
        r@ == target_dir@ + "/rr"@,
{
    let mut r = target_dir.to_owned();
    r.append("/rr");
    r
}

} // verus!
