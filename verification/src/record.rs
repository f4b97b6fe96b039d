//! The recorder: allocates a collision-free trace for the executable being
//! recorded, composes the record tool's invocation, and plans the bookmark
//! write that marks the new trace latest as soon as the tool is spawned —
//! so an abrupt recording failure still leaves a navigable latest pointer.
use vstd::prelude::*;
use vstd::string::*;

verus! {

use crate::RrError;
use crate::spec_split_opts;
use crate::split_rr_opts;
use crate::strutil::{views, push_range, lemma_views_push, spec_file_name};
use crate::trace::{Trace, MarkerWrite, contains_name, spec_fresh_name, spec_dir_of,
    spec_usable_file_name};

/// The argument tail of a record-tool invocation: the caller's option
/// tokens, the output directory bound to the trace's path, the executable,
/// and the program arguments behind the `--` separator.
pub open spec fn spec_record_args(
    opts: Seq<Seq<char>>,
    trace_dir: Seq<char>,
    bin: Seq<char>,
    prog_args: Seq<Seq<char>>,
) -> Seq<Seq<char>> {
    seq!["record"@] + opts + seq!["--output-trace-dir"@, trace_dir, bin, "--"@] + prog_args
}

/// Everything a recording run needs from the orchestration core: the
/// allocated trace, the record tool's argument tail, and the marker write
/// that makes the trace latest once the tool is spawned.
pub struct RecordPlan {
    pub trace: Trace,
    pub tool_args: Vec<String>,
    pub marker: MarkerWrite,
}

/// Plans a recording of the executable at `bin` under the trace root:
/// splits the free-form record-tool options on whitespace, allocates a
/// collision-free trace named after `bin`'s file name given the entries
/// already present, and composes the tool's argument tail with the output
/// directory bound to the new trace and `args` behind the `--` separator.
/// Fails only when `bin` has no usable file name.
pub fn record(root: &str, existing: &Vec<String>, bin: &str, rr_opts: Option<&str>, args: &Vec<
    String,
>) -> (r: Result<RecordPlan, RrError>)
    requires
        existing@.len() + 2 <= u64::MAX,
    ensures
        !spec_usable_file_name(bin@) ==> r is Err && r->Err_0 == RrError::NotFound,
        spec_usable_file_name(bin@) ==> r is Ok && r->Ok_0.trace.root@ == root@
            && r->Ok_0.trace.name@ == spec_fresh_name(spec_file_name(bin@), existing@)
            && !contains_name(existing@, r->Ok_0.trace.name@) && views(r->Ok_0.tool_args@)
            == spec_record_args(
            spec_split_opts(rr_opts),
            spec_dir_of(root@, r->Ok_0.trace.name@),
            bin@,
            views(args@),
        ) && r->Ok_0.marker.path@ == root@.push('/') + "latest"@ && r->Ok_0.marker.contents@
            == r->Ok_0.trace.name@,
{
    let trace = match Trace::name_for_bin(root, bin, existing) {
        Ok(t) => t,
        Err(e) => {
            return Err(e);
        },
    };
    let opts = split_rr_opts(rr_opts);
    let mut v: Vec<String> = Vec::new();
    proof {
        crate::strutil::lemma_views_empty();
    }
    let w0 = "record".to_owned();
    proof {
        lemma_views_push(v@, w0);
    }
    v.push(w0);
    push_range(&mut v, &opts, 0, opts.len());
    let w1 = "--output-trace-dir".to_owned();
    proof {
        lemma_views_push(v@, w1);
    }
    v.push(w1);
    let dir = trace.dir();
    proof {
        lemma_views_push(v@, dir);
    }
    v.push(dir);
    let w2 = bin.to_owned();
    proof {
        lemma_views_push(v@, w2);
    }
    v.push(w2);
    let w3 = "--".to_owned();
    proof {
        lemma_views_push(v@, w3);
    }
    v.push(w3);
    push_range(&mut v, args, 0, args.len());
    let marker = trace.set_latest();
    proof {
        assert(views(opts@).subrange(0, views(opts@).len() as int) =~= views(opts@));
        assert(views(args@).subrange(0, views(args@).len() as int) =~= views(args@));
        assert(views(v@) =~= spec_record_args(
            spec_split_opts(rr_opts),
            spec_dir_of(trace.root@, trace.name@),
            bin@,
            views(args@),
        ));
    }
    Ok(RecordPlan { trace, tool_args: v, marker })
}

/// The recorder's outcome policy: only a failure to spawn the record tool
/// is a hard error. Once spawned, the run counts as a recording; `Ok`
/// carries whether the tool exited successfully, a non-zero exit being
/// informational only — it may just mean the recorded program failed.
pub fn record_outcome(spawned: bool, exit_success: bool) -> (r: Result<bool, RrError>)
    ensures
        !spawned ==> r == Err::<bool, RrError>(RrError::SpawnFailure),
        spawned ==> r == Ok::<bool, RrError>(exit_success),
{
    if spawned {
        Ok(exit_success)
    } else {
        Err(RrError::SpawnFailure)
    }
}

/// End-to-end recording on an empty trace root: the trace is named exactly
/// after the executable's file name — no suffix — the marker write then
/// marks that very name latest, and the record tool's arguments bind the
/// output directory to the trace's path under the root and place the
/// program arguments after the `--` separator.
pub proof fn lemma_record_on_empty_root(
    root: Seq<char>,
    bin: Seq<char>,
    opts: Seq<Seq<char>>,
    prog_args: Seq<Seq<char>>,
)
    requires
        spec_usable_file_name(bin),
    ensures
        spec_fresh_name(spec_file_name(bin), Seq::<String>::empty()) == spec_file_name(bin),
        spec_record_args(opts, spec_dir_of(root, spec_file_name(bin)), bin, prog_args)
            == seq!["record"@] + opts + seq![
            "--output-trace-dir"@,
            root.push('/') + spec_file_name(bin),
            bin,
            "--"@,
        ] + prog_args,
{
    assert(!contains_name(Seq::<String>::empty(), spec_file_name(bin)));
}

} // verus!
