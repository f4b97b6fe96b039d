//! The replayer: resolves which trace to replay, composes the replay tool's
//! invocation with the fixed debugger selection and a forced quiet token
//! spliced into the debugger's pass-through options, and judges the tool's
//! exit. Interrupt handling and the blocking wait belong to the caller.
use vstd::prelude::*;
use vstd::string::*;

verus! {

use crate::RrError;
use crate::spec_split_opts;
use crate::split_rr_opts;
use crate::splice::{splice, spec_splice, fix_trace_positional, positional_is_option_like};
use crate::strutil::{views, push_range, lemma_views_push};
use crate::trace::{Trace, spec_dir_of};

/// The argument tail of a replay-tool invocation: the caller's option
/// tokens, the fixed debugger-selection flag, the trace's directory, and
/// the debugger options with the forced quiet token spliced in as
/// pass-through text.
pub open spec fn spec_replay_args(
    opts: Seq<Seq<char>>,
    trace_dir: Seq<char>,
    gdb_args: Seq<Seq<char>>,
) -> Seq<Seq<char>> {
    seq!["replay"@] + opts + seq!["-d"@, "rust-gdb"@, trace_dir] + spec_splice(
        gdb_args,
        seq!["--quiet"@],
    )
}

/// Composes the replay tool's argument tail for `trace`: the free-form
/// replay-tool options split on whitespace, the fixed debugger selection,
/// the trace's directory, and the debugger options with a forced `--quiet`
/// spliced in behind the pass-through separator.
pub fn replay(trace: &Trace, rr_opts: Option<&str>, gdb_opts: &Vec<String>) -> (r: Vec<String>)
    ensures
        views(r@) == spec_replay_args(
            spec_split_opts(rr_opts),
            spec_dir_of(trace.root@, trace.name@),
            views(gdb_opts@),
        ),
{
    let opts = split_rr_opts(rr_opts);
    let mut quiet: Vec<String> = Vec::new();
    let q = "--quiet".to_owned();
    proof {
        crate::strutil::lemma_views_empty();
        lemma_views_push(quiet@, q);
    }
    quiet.push(q);
    let spliced = splice(gdb_opts, &quiet);
    let mut v: Vec<String> = Vec::new();
    proof {
        crate::strutil::lemma_views_empty();
    }
    let w0 = "replay".to_owned();
    proof {
        lemma_views_push(v@, w0);
    }
    v.push(w0);
    push_range(&mut v, &opts, 0, opts.len());
    let w1 = "-d".to_owned();
    proof {
        lemma_views_push(v@, w1);
    }
    v.push(w1);
    let w2 = "rust-gdb".to_owned();
    proof {
        lemma_views_push(v@, w2);
    }
    v.push(w2);
    let dir = trace.dir();
    proof {
        lemma_views_push(v@, dir);
    }
    v.push(dir);
    push_range(&mut v, &spliced, 0, spliced.len());
    proof {
        assert(views(opts@).subrange(0, views(opts@).len() as int) =~= views(opts@));
        assert(views(spliced@).subrange(0, views(spliced@).len() as int) =~= views(spliced@));
        assert(views(quiet@) =~= seq!["--quiet"@]);
        assert(views(v@) =~= spec_replay_args(
            spec_split_opts(rr_opts),
            spec_dir_of(trace.root@, trace.name@),
            views(gdb_opts@),
        ));
    }
    v
}

/// The replayer's outcome policy: a failure to spawn the replay tool is
/// `SpawnFailure`; a non-zero exit is a hard `ToolFailure` — it means the
/// tool could not reconstruct the recorded execution.
pub fn replay_outcome(spawned: bool, exit_success: bool) -> (r: Result<(), RrError>)
    ensures
        !spawned ==> r == Err::<(), RrError>(RrError::SpawnFailure),
        spawned && !exit_success ==> r == Err::<(), RrError>(RrError::ToolFailure),
        spawned && exit_success ==> r == Ok::<(), RrError>(()),
{
    if !spawned {
        Err(RrError::SpawnFailure)
    } else if !exit_success {
        Err(RrError::ToolFailure)
    } else {
        Ok(())
    }
}

/// Which trace a replay request names (`None` asks for the latest trace)
/// and the debugger pass-through options to hand on.
pub struct ReplayRequest {
    pub trace: Option<String>,
    pub gdb_opts: Vec<String>,
}

/// The replay request's decision step: an option-like token in the
/// trace-name slot — a parser artifact of optional positionals colliding
/// with flag-like tokens — is relocated to the front of the pass-through
/// options and the positional is cleared, so trace resolution falls back
/// to the latest trace. Any other request passes through unchanged.
pub fn handle_replay(trace: Option<String>, gdb_opts: Vec<String>) -> (r: ReplayRequest)
    ensures
        positional_is_option_like(trace) ==> r.trace is None && views(r.gdb_opts@) == seq![
            trace->0@,
        ] + views(gdb_opts@),
        !positional_is_option_like(trace) ==> r.trace == trace && r.gdb_opts == gdb_opts,
{
    let (t, g) = fix_trace_positional(trace, gdb_opts);
    ReplayRequest { trace: t, gdb_opts: g }
}

} // verus!
