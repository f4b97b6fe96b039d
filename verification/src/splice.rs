//! Argument splicing: every downstream tool treats the first literal `--`
//! token as the start of verbatim pass-through text, so tool-owned option
//! tokens must be placed directly after that separator (adding one when the
//! caller supplied none), ahead of any pass-through tokens the caller already
//! placed there.
use vstd::prelude::*;
use vstd::string::*;

verus! {

use crate::strutil::{views, lemma_views_push, push_range, spec_starts_with_dash,
    starts_with_dash};

/// Whether a token is the literal pass-through separator `--`.
pub open spec fn is_dashdash(t: Seq<char>) -> bool {
    t == "--"@
}

/// The caller's argument list with `extra` spliced in directly after the
/// first `--` token, or appended after a new `--` token when there is none.
pub open spec fn spec_splice(args: Seq<Seq<char>>, extra: Seq<Seq<char>>) -> Seq<Seq<char>>
    decreases args.len(),
{
    if args.len() == 0 {
        seq!["--"@] + extra
    } else if is_dashdash(args[0]) {
        seq![args[0]] + extra + args.drop_first()
    } else {
        seq![args[0]] + spec_splice(args.drop_first(), extra)
    }
}

/// When the first `--` stands at position `i`, splicing inserts `extra`
/// directly after it.
pub proof fn lemma_splice_at(args: Seq<Seq<char>>, extra: Seq<Seq<char>>, i: int)
    requires
        0 <= i < args.len(),
        forall|j: int| 0 <= j < i ==> !is_dashdash(args[j]),
        is_dashdash(args[i]),
    ensures
        spec_splice(args, extra) == args.subrange(0, i + 1) + extra + args.subrange(
            i + 1,
            args.len() as int,
        ),
    decreases i,
{
    if i == 0 {
        assert(spec_splice(args, extra) =~= args.subrange(0, 1) + extra + args.subrange(
            1,
            args.len() as int,
        ));
    } else {
        let rest = args.drop_first();
        assert(forall|j: int| 0 <= j < i - 1 ==> rest[j] == args[j + 1]);
        lemma_splice_at(rest, extra, i - 1);
        assert(rest.subrange(0, i) =~= args.subrange(1, i + 1));
        assert(rest.subrange(i, rest.len() as int) =~= args.subrange(i + 1, args.len() as int));
        assert(spec_splice(args, extra) =~= args.subrange(0, i + 1) + extra + args.subrange(
            i + 1,
            args.len() as int,
        ));
    }
}

/// Without a `--` token, splicing appends one followed by `extra`.
pub proof fn lemma_splice_none(args: Seq<Seq<char>>, extra: Seq<Seq<char>>)
    requires
        forall|j: int| 0 <= j < args.len() ==> !is_dashdash(args[j]),
    ensures
        spec_splice(args, extra) == args + seq!["--"@] + extra,
    decreases args.len(),
{
    if args.len() == 0 {
        assert(spec_splice(args, extra) =~= args + seq!["--"@] + extra);
    } else {
        let rest = args.drop_first();
        assert(forall|j: int| 0 <= j < rest.len() ==> rest[j] == args[j + 1]);
        lemma_splice_none(rest, extra);
        assert(spec_splice(args, extra) =~= args + seq!["--"@] + extra);
    }
}

/// Inserts `extra` into `args` directly after the first `--` token,
/// appending a fresh `--` first when the caller supplied none, so the
/// injected tokens are always read as pass-through text by the immediate
/// downstream tool.
pub fn splice(args: &Vec<String>, extra: &Vec<String>) -> (r: Vec<String>)
    ensures
        views(r@) == spec_splice(views(args@), views(extra@)),
{
    let n = args.len();
    let mut pos: usize = n;
    let mut i: usize = 0;
    while i < n
        invariant
            n == args@.len(),
            i <= n,
            pos <= n,
            pos == n ==> forall|j: int| 0 <= j < i ==> !is_dashdash(#[trigger] views(args@)[j]),
            pos < n ==> is_dashdash(views(args@)[pos as int]) && (forall|j: int|
                0 <= j < pos ==> !is_dashdash(#[trigger] views(args@)[j])),
        decreases n - i,
    {
        if pos == n && crate::strutil::eq_str(args[i].as_str(), "--") {
            pos = i;
        }
        i = i + 1;
    }
    let mut r: Vec<String> = Vec::new();
    proof {
        crate::strutil::lemma_views_empty();
    }
    if pos < n {
        push_range(&mut r, args, 0, pos + 1);
        push_range(&mut r, extra, 0, extra.len());
        push_range(&mut r, args, pos + 1, n);
        proof {
            lemma_splice_at(views(args@), views(extra@), pos as int);
            assert(views(extra@).subrange(0, views(extra@).len() as int) =~= views(extra@));
            assert(views(r@) =~= spec_splice(views(args@), views(extra@)));
        }
    } else {
        push_range(&mut r, args, 0, n);
        let sep = "--".to_owned();
        proof {
            lemma_views_push(r@, sep);
        }
        r.push(sep);
        push_range(&mut r, extra, 0, extra.len());
        proof {
            lemma_splice_none(views(args@), views(extra@));
            assert(views(args@).subrange(0, n as int) =~= views(args@));
            assert(views(extra@).subrange(0, views(extra@).len() as int) =~= views(extra@));
            assert(views(r@) =~= spec_splice(views(args@), views(extra@)));
        }
    }
    r
}

/// An optional trace-name positional is ambiguous when its value is
/// option-like (begins with `-`): such a value was meant for the downstream
/// tool. It is relocated to the front of the pass-through option list and
/// the positional is cleared, so trace resolution falls back to the latest
/// trace.
pub open spec fn positional_is_option_like(trace: Option<String>) -> bool {
    trace is Some && spec_starts_with_dash(trace->0@)
}

/// Relocates an option-like trace-name positional into the pass-through
/// option list; any other input is returned unchanged.
pub fn fix_trace_positional(trace: Option<String>, opts: Vec<String>) -> (r: (
    Option<String>,
    Vec<String>,
))
    ensures
        positional_is_option_like(trace) ==> r.0 is None && views(r.1@) == seq![trace->0@] + views(
            opts@,
        ),
        !positional_is_option_like(trace) ==> r.0 == trace && r.1 == opts,
{
    match trace {
        Some(t) => {
            if starts_with_dash(t.as_str()) {
                let ghost tv = t@;
                let mut v: Vec<String> = Vec::new();
                proof {
                    crate::strutil::lemma_views_empty();
                    lemma_views_push(v@, t);
                }
                v.push(t);
                push_range(&mut v, &opts, 0, opts.len());
                proof {
                    assert(views(opts@).subrange(0, views(opts@).len() as int) =~= views(opts@));
                    assert(views(v@) =~= seq![tv] + views(opts@));
                }
                (None, v)
            } else {
                (Some(t), opts)
            }
        },
        None => (None, opts),
    }
}

} // verus!
