//! The artifact resolver: consumes the build tool's streamed event messages,
//! keeps the relevant built executables, deduplicates them by source path,
//! and resolves ambiguity — auto-picking a lone candidate and otherwise
//! deferring to an injected selection capability whose outcome is handed
//! back in as a plain optional index.
use vstd::prelude::*;
use vstd::string::*;

verus! {

use crate::RrError;
use crate::strutil::{views, eq_str, spec_lex_lt, str_lex_lt, spec_relative_to, relative_to};

/// A build target's category.
#[derive(Clone, Copy, Debug, PartialEq, Eq, Structural)]
pub enum Category {
    Bin,
    Example,
    Lib,
    IntegrationTest,
    UnitTest,
    DocTest,
    Bench,
}

/// One "artifact produced" build-event message: the executable it reports
/// (when any), the target's category set, whether the owning package belongs
/// to the current workspace, and the target's name and source file path.
pub struct ArtifactMsg {
    pub executable: Option<String>,
    pub categories: Vec<Category>,
    pub in_workspace: bool,
    pub target_name: String,
    pub package: String,
    pub src_path: String,
}

/// One message of the build-event stream; every tag other than "artifact
/// produced" is irrelevant here.
pub enum BuildEvent {
    ArtifactProduced(ArtifactMsg),
    Other,
}

/// A built executable that matched the request: its path, the name, primary
/// category and source path of the target it was built from, and the owning
/// package. The full category set and the workspace test live on the
/// message, where the filtering happens.
pub struct ArtifactDescriptor {
    pub executable: String,
    pub target_name: String,
    pub category: Category,
    pub package: String,
    pub src_path: String,
}

impl ArtifactDescriptor {
    /// A field-for-field copy.
    pub fn duplicate(&self) -> (r: ArtifactDescriptor)
        ensures
            r == *self,
    {
        ArtifactDescriptor {
            executable: self.executable.clone(),
            target_name: self.target_name.clone(),
            category: self.category,
            package: self.package.clone(),
            src_path: self.src_path.clone(),
        }
    }
}

/// The two category sets share a member.
pub open spec fn spec_intersects(a: Seq<Category>, b: Seq<Category>) -> bool {
    exists|i: int, j: int| 0 <= i < a.len() && 0 <= j < b.len() && a[i] == b[j]
}

/// Decides whether the category sets intersect.
pub fn intersects(a: &Vec<Category>, b: &Vec<Category>) -> (r: bool)
    ensures
        r == spec_intersects(a@, b@),
{
    let mut i: usize = 0;
    while i < a.len()
        invariant
            i <= a@.len(),
            forall|k: int, j: int| 0 <= k < i && 0 <= j < b@.len() ==> a@[k] != b@[j],
        decreases a@.len() - i,
    {
        let mut j: usize = 0;
        while j < b.len()
            invariant
                i < a@.len(),
                j <= b@.len(),
                forall|l: int| 0 <= l < j ==> a@[i as int] != b@[l],
            decreases b@.len() - j,
        {
            if a[i] == b[j] {
                return true;
            }
            j = j + 1;
        }
        i = i + 1;
    }
    false
}

/// The filtering predicate: the message reports an executable, its owning
/// package belongs to the workspace, and its category set intersects the
/// request's category filter.
pub open spec fn spec_msg_matches(m: ArtifactMsg, wanted: Seq<Category>) -> bool {
    m.executable is Some && m.in_workspace && spec_intersects(m.categories@, wanted)
}

/// The candidate descriptor a matching message yields; its primary category
/// is the first of the message's category set, which a matching message
/// cannot have empty.
pub open spec fn spec_desc_of(m: ArtifactMsg) -> ArtifactDescriptor {
    ArtifactDescriptor {
        executable: m.executable->0,
        target_name: m.target_name,
        category: m.categories@[0],
        package: m.package,
        src_path: m.src_path,
    }
}

/// The candidates of an event stream: one descriptor per matching
/// "artifact produced" message, in stream order, duplicates retained.
pub open spec fn spec_candidates(events: Seq<BuildEvent>, wanted: Seq<Category>) -> Seq<
    ArtifactDescriptor,
>
    decreases events.len(),
{
    if events.len() == 0 {
        Seq::empty()
    } else {
        let rest = spec_candidates(events.drop_last(), wanted);
        if events.last() is ArtifactProduced && spec_msg_matches(
            events.last()->ArtifactProduced_0,
            wanted,
        ) {
            rest.push(spec_desc_of(events.last()->ArtifactProduced_0))
        } else {
            rest
        }
    }
}

/// `d` placed into `s` before the first descriptor with a strictly greater
/// source path: descriptors with equal source paths keep their standing
/// order.
pub open spec fn spec_insert_by_src(d: ArtifactDescriptor, s: Seq<ArtifactDescriptor>) -> Seq<
    ArtifactDescriptor,
>
    decreases s.len(),
{
    if s.len() == 0 {
        seq![d]
    } else if spec_lex_lt(d.src_path@, s[0].src_path@) {
        seq![d] + s
    } else {
        seq![s[0]] + spec_insert_by_src(d, s.drop_first())
    }
}

/// `s` stably sorted ascending by source path.
pub open spec fn spec_sort_by_src(s: Seq<ArtifactDescriptor>) -> Seq<ArtifactDescriptor>
    decreases s.len(),
{
    if s.len() == 0 {
        Seq::empty()
    } else {
        spec_insert_by_src(s.last(), spec_sort_by_src(s.drop_last()))
    }
}

/// Adjacent descriptors sharing a source path collapsed to the first of
/// each run.
pub open spec fn spec_collapse_by_src(s: Seq<ArtifactDescriptor>) -> Seq<ArtifactDescriptor>
    decreases s.len(),
{
    if s.len() == 0 {
        Seq::empty()
    } else {
        let rest = spec_collapse_by_src(s.drop_last());
        if s.len() >= 2 && s[s.len() - 2].src_path@ == s.last().src_path@ {
            rest
        } else {
            rest.push(s.last())
        }
    }
}

/// What resolving an event stream yields before the ambiguity policy: the
/// matching candidates, sorted by source path, with adjacent source-path
/// duplicates collapsed — the same logical target may be reported more than
/// once by the build step.
pub open spec fn spec_resolved(events: Seq<BuildEvent>, wanted: Seq<Category>) -> Seq<
    ArtifactDescriptor,
> {
    spec_collapse_by_src(spec_sort_by_src(spec_candidates(events, wanted)))
}

proof fn lemma_insert_by_src_at(d: ArtifactDescriptor, s: Seq<ArtifactDescriptor>, j: int)
    requires
        0 <= j <= s.len(),
        forall|k: int| 0 <= k < j ==> !spec_lex_lt(d.src_path@, #[trigger] s[k].src_path@),
        j < s.len() ==> spec_lex_lt(d.src_path@, s[j].src_path@),
    ensures
        spec_insert_by_src(d, s) == s.subrange(0, j) + seq![d] + s.subrange(j, s.len() as int),
    decreases j,
{
    if j == 0 {
        assert(spec_insert_by_src(d, s) =~= s.subrange(0, 0) + seq![d] + s.subrange(
            0,
            s.len() as int,
        ));
    } else {
        let rest = s.drop_first();
        assert(forall|k: int| 0 <= k < j - 1 ==> rest[k] == s[k + 1]);
        lemma_insert_by_src_at(d, rest, j - 1);
        assert(rest.subrange(0, j - 1) =~= s.subrange(1, j));
        assert(rest.subrange(j - 1, rest.len() as int) =~= s.subrange(j, s.len() as int));
        assert(spec_insert_by_src(d, s) =~= s.subrange(0, j) + seq![d] + s.subrange(
            j,
            s.len() as int,
        ));
    }
}

/// Places `d` into the source-path-ordered `v`.
fn insert_by_src(v: &mut Vec<ArtifactDescriptor>, d: ArtifactDescriptor)
    ensures
        final(v)@ == spec_insert_by_src(d, old(v)@),
{
    let ghost s = old(v)@;
    let n = v.len();
    let mut j: usize = 0;
    while j < n && !str_lex_lt(d.src_path.as_str(), v[j].src_path.as_str())
        invariant
            n == v@.len(),
            v@ == s,
            j <= n,
            forall|k: int| 0 <= k < j ==> !spec_lex_lt(d.src_path@, #[trigger] s[k].src_path@),
        decreases n - j,
    {
        j = j + 1;
    }
    proof {
        lemma_insert_by_src_at(d, s, j as int);
    }
    v.insert(j, d);
    proof {
        assert(s.insert(j as int, d) =~= s.subrange(0, j as int) + seq![d] + s.subrange(
            j as int,
            s.len() as int,
        ));
    }
}

/// Filters the event stream to the matching candidates, sorts them by
/// source path and collapses source-path duplicates.
pub fn resolve_candidates(events: &Vec<BuildEvent>, wanted: &Vec<Category>) -> (r: Vec<
    ArtifactDescriptor,
>)
    ensures
        r@ == spec_resolved(events@, wanted@),
{
    let n = events.len();
    let mut cands: Vec<ArtifactDescriptor> = Vec::new();
    let mut i: usize = 0;
    proof {
        assert(events@.subrange(0, 0) =~= Seq::<BuildEvent>::empty());
    }
    while i < n
        invariant
            n == events@.len(),
            i <= n,
            cands@ == spec_candidates(events@.subrange(0, i as int), wanted@),
        decreases n - i,
    {
        proof {
            assert(events@.subrange(0, i + 1 as int).drop_last() =~= events@.subrange(0, i as int));
        }
        match &events[i] {
            BuildEvent::ArtifactProduced(m) => {
                match &m.executable {
                    Some(ex) => {
                        if m.in_workspace && intersects(&m.categories, wanted) {
                            proof {
                                let (ci, cj) = choose|ci: int, cj: int|
                                    0 <= ci < m.categories@.len() && 0 <= cj < wanted@.len()
                                        && m.categories@[ci] == wanted@[cj];
                                assert(m.categories@.len() > 0);
                            }
                            let d = ArtifactDescriptor {
                                executable: ex.clone(),
                                target_name: m.target_name.clone(),
                                category: m.categories[0],
                                package: m.package.clone(),
                                src_path: m.src_path.clone(),
                            };
                            cands.push(d);
                        }
                    },
                    None => {},
                }
            },
            BuildEvent::Other => {},
        }
        i = i + 1;
    }
    proof {
        assert(events@.subrange(0, n as int) =~= events@);
    }
    let m = cands.len();
    let mut sorted: Vec<ArtifactDescriptor> = Vec::new();
    let mut k: usize = 0;
    proof {
        assert(cands@.subrange(0, 0) =~= Seq::<ArtifactDescriptor>::empty());
    }
    while k < m
        invariant
            m == cands@.len(),
            k <= m,
            sorted@ == spec_sort_by_src(cands@.subrange(0, k as int)),
        decreases m - k,
    {
        proof {
            assert(cands@.subrange(0, k + 1 as int).drop_last() =~= cands@.subrange(0, k as int));
        }
        insert_by_src(&mut sorted, cands[k].duplicate());
        k = k + 1;
    }
    proof {
        assert(cands@.subrange(0, m as int) =~= cands@);
    }
    let s = sorted.len();
    let mut out: Vec<ArtifactDescriptor> = Vec::new();
    let mut t: usize = 0;
    proof {
        assert(sorted@.subrange(0, 0) =~= Seq::<ArtifactDescriptor>::empty());
    }
    while t < s
        invariant
            s == sorted@.len(),
            t <= s,
            out@ == spec_collapse_by_src(sorted@.subrange(0, t as int)),
        decreases s - t,
    {
        proof {
            assert(sorted@.subrange(0, t + 1 as int).drop_last() =~= sorted@.subrange(0, t as int));
        }
        if t == 0 || !eq_str(sorted[t].src_path.as_str(), sorted[t - 1].src_path.as_str()) {
            out.push(sorted[t].duplicate());
        }
        t = t + 1;
    }
    proof {
        assert(sorted@.subrange(0, s as int) =~= sorted@);
    }
    out
}

/// The display labels the selection capability is handed when several
/// candidates remain: each candidate's source path relative to the
/// workspace root, in candidate order.
pub open spec fn spec_artifact_labels(cands: Seq<ArtifactDescriptor>, root: Seq<char>) -> Seq<
    Seq<char>,
> {
    Seq::new(cands.len(), |i: int| spec_relative_to(cands[i].src_path@, root))
}

/// Builds the selection labels for `cands`.
pub fn artifact_labels(cands: &Vec<ArtifactDescriptor>, workspace_root: &str) -> (r: Vec<String>)
    ensures
        views(r@) == spec_artifact_labels(cands@, workspace_root@),
{
    let n = cands.len();
    let mut r: Vec<String> = Vec::new();
    let mut i: usize = 0;
    proof {
        crate::strutil::lemma_views_empty();
        assert(views(r@) =~= spec_artifact_labels(cands@, workspace_root@).subrange(0, 0));
    }
    while i < n
        invariant
            n == cands@.len(),
            i <= n,
            views(r@) == spec_artifact_labels(cands@, workspace_root@).subrange(0, i as int),
        decreases n - i,
    {
        let s = relative_to(cands[i].src_path.as_str(), workspace_root);
        proof {
            crate::strutil::lemma_views_push(r@, s);
            assert(spec_artifact_labels(cands@, workspace_root@).subrange(0, i + 1 as int)
                =~= spec_artifact_labels(cands@, workspace_root@).subrange(0, i as int).push(s@));
        }
        r.push(s);
        i = i + 1;
    }
    proof {
        assert(spec_artifact_labels(cands@, workspace_root@).subrange(0, n as int)
            =~= spec_artifact_labels(cands@, workspace_root@));
    }
    r
}

/// The resolution policy over the deduplicated candidates and the selection
/// capability's outcome: no candidate fails with `NoCandidates`; a lone
/// candidate is auto-selected without consulting the capability; among many,
/// an aborted or out-of-range selection is `NotFound` and a valid index
/// picks that candidate.
pub fn resolve_artifact(mut cands: Vec<ArtifactDescriptor>, pick: Option<usize>) -> (r: Result<
    ArtifactDescriptor,
    RrError,
>)
    ensures
        cands@.len() == 0 ==> r == Err::<ArtifactDescriptor, RrError>(RrError::NoCandidates),
        cands@.len() == 1 ==> r == Ok::<ArtifactDescriptor, RrError>(cands@[0]),
        cands@.len() > 1 ==> match pick {
            Some(i) => if i < cands@.len() {
                r == Ok::<ArtifactDescriptor, RrError>(cands@[i as int])
            } else {
                r == Err::<ArtifactDescriptor, RrError>(RrError::NotFound)
            },
            None => r == Err::<ArtifactDescriptor, RrError>(RrError::NotFound),
        },
{
    if cands.len() == 0 {
        Err(RrError::NoCandidates)
    } else if cands.len() == 1 {
        let d = cands.remove(0);
        Ok(d)
    } else {
        match pick {
            Some(i) => {
                if i < cands.len() {
                    let d = cands.remove(i);
                    Ok(d)
                } else {
                    Err(RrError::NotFound)
                }
            },
            None => Err(RrError::NotFound),
        }
    }
}

proof fn lemma_lex_lt_irrefl(a: Seq<char>)
    ensures
        !spec_lex_lt(a, a),
    decreases a.len(),
{
    if a.len() > 0 {
        lemma_lex_lt_irrefl(a.drop_first());
    }
}

/// A stream whose two matching messages report the same source path
/// resolves to exactly one candidate.
pub proof fn lemma_duplicate_source_yields_one(
    m1: ArtifactMsg,
    m2: ArtifactMsg,
    wanted: Seq<Category>,
)
    requires
        spec_msg_matches(m1, wanted),
        spec_msg_matches(m2, wanted),
        m1.src_path@ == m2.src_path@,
    ensures
        spec_resolved(
            seq![BuildEvent::ArtifactProduced(m1), BuildEvent::ArtifactProduced(m2)],
            wanted,
        ) =~= seq![spec_desc_of(m1)],
{
    let events = seq![BuildEvent::ArtifactProduced(m1), BuildEvent::ArtifactProduced(m2)];
    let d1 = spec_desc_of(m1);
    let d2 = spec_desc_of(m2);
    let e1s = seq![BuildEvent::ArtifactProduced(m1)];
    let empty_e = Seq::<BuildEvent>::empty();
    let empty_d = Seq::<ArtifactDescriptor>::empty();
    assert(spec_candidates(empty_e, wanted) == empty_d);
    assert(e1s.drop_last() =~= empty_e);
    assert(e1s.last() == BuildEvent::ArtifactProduced(m1));
    assert(spec_candidates(e1s, wanted) =~= seq![d1]);
    assert(events.drop_last() =~= e1s);
    assert(events.last() == BuildEvent::ArtifactProduced(m2));
    let cands = spec_candidates(events, wanted);
    assert(cands =~= seq![d1, d2]);
    // sorting: d2's source path is not strictly below d1's equal one, so the
    // standing order is kept
    assert(spec_sort_by_src(empty_d) == empty_d);
    assert(seq![d1].drop_last() =~= empty_d);
    assert(spec_insert_by_src(d1, empty_d) =~= seq![d1]);
    assert(spec_sort_by_src(seq![d1]) =~= seq![d1]);
    lemma_lex_lt_irrefl(d2.src_path@);
    assert(seq![d1].drop_first() =~= empty_d);
    assert(spec_insert_by_src(d2, empty_d) =~= seq![d2]);
    assert(spec_insert_by_src(d2, seq![d1]) =~= seq![d1] + seq![d2]);
    assert(cands.drop_last() =~= seq![d1]);
    let sorted = spec_sort_by_src(cands);
    assert(sorted =~= seq![d1, d2]);
    // collapsing: the adjacent equal source paths keep only the first
    assert(spec_collapse_by_src(empty_d) == empty_d);
    assert(spec_collapse_by_src(seq![d1]) =~= seq![d1]);
    assert(sorted.drop_last() =~= seq![d1]);
    assert(sorted[0].src_path@ == sorted[1].src_path@);
    assert(spec_collapse_by_src(sorted) =~= seq![d1]);
}

} // verus!
