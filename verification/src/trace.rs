//! The trace registry: collision-free trace identities under a root
//! directory, the single `latest` bookmark, and name resolution.
//!
//! The registry itself never touches a filesystem: callers hand in the names
//! already present under the root and the marker-file contents they read,
//! and carry the returned paths and contents back out.
use vstd::prelude::*;
use vstd::string::*;

verus! {

use vstd::relations::injective_on;
use vstd::set_lib::{set_int_range, lemma_int_range, lemma_len_subset, lemma_map_size};
use crate::RrError;
use crate::strutil::{eq_str, spec_dec, u64_to_dec, lemma_spec_dec_injective, spec_trim, trim,
    spec_file_name, file_name, is_ws};

/// Whether one of `names` reads `s`.
pub open spec fn contains_name(names: Seq<String>, s: Seq<char>) -> bool {
    exists|i: int| 0 <= i < names.len() && names[i]@ == s
}

/// Decides whether `s` is among `names`.
pub fn name_taken(names: &Vec<String>, s: &str) -> (r: bool)
    ensures
        r == contains_name(names@, s@),
{
    let mut i: usize = 0;
    while i < names.len()
        invariant
            i <= names@.len(),
            forall|j: int| 0 <= j < i ==> names@[j]@ != s@,
        decreases names@.len() - i,
    {
        if eq_str(names[i].as_str(), s) {
            return true;
        }
        i = i + 1;
    }
    false
}

/// The name `hint` carrying the collision-avoidance suffix `-n`.
pub open spec fn spec_suffixed(hint: Seq<char>, n: nat) -> Seq<char> {
    hint.push('-') + spec_dec(n)
}

proof fn lemma_suffixed_injective(hint: Seq<char>, n1: nat, n2: nat)
    requires
        spec_suffixed(hint, n1) == spec_suffixed(hint, n2),
    ensures
        n1 == n2,
{
    let s1 = spec_suffixed(hint, n1);
    let s2 = spec_suffixed(hint, n2);
    assert(s1.len() == hint.len() + 1 + spec_dec(n1).len());
    assert(spec_dec(n1) =~= s1.subrange(hint.len() + 1 as int, s1.len() as int));
    assert(spec_dec(n2) =~= s2.subrange(hint.len() + 1 as int, s2.len() as int));
    lemma_spec_dec_injective(n1, n2);
}

/// Some suffix number in `1 ..= names.len() + 1` yields a name that is not
/// among `names`: there are more candidate names than names present.
proof fn lemma_free_suffix_exists(hint: Seq<char>, names: Seq<String>)
    ensures
        exists|m: int|
            1 <= m <= names.len() + 1 && !contains_name(
                names,
                #[trigger] spec_suffixed(hint, m as nat),
            ),
{
    if forall|m: int|
        1 <= m <= names.len() + 1 ==> contains_name(names, #[trigger] spec_suffixed(hint, m as nat)) {
        let n = names.len() as int;
        let rng = set_int_range(1, n + 2);
        lemma_int_range(1, n + 2);
        let f = |m: int| spec_suffixed(hint, m as nat);
        let cands = rng.map(f);
        assert(injective_on(f, rng)) by {
            assert forall|m1: int, m2: int|
                rng.contains(m1) && rng.contains(m2) && #[trigger] f(m1) == #[trigger] f(
                    m2,
                ) implies m1 == m2 by {
                lemma_suffixed_injective(hint, m1 as nat, m2 as nat);
            }
        }
        lemma_map_size(rng, cands, f);
        let nv = names.map_values(|s: String| s@);
        let nvset = nv.to_set();
        nv.lemma_cardinality_of_set();
        assert(cands.subset_of(nvset)) by {
            assert forall|s: Seq<char>| cands.contains(s) implies nvset.contains(s) by {
                let m = choose|m: int| rng.contains(m) && f(m) == s;
                assert(contains_name(names, spec_suffixed(hint, m as nat)));
                let i = choose|i: int| 0 <= i < names.len() && names[i]@ == s;
                assert(nv[i] == s);
                assert(nv.contains(s));
            }
        }
        lemma_len_subset(cands, nvset);
        assert(false);
    }
}

/// The first suffix number at or above `n` whose suffixed name is not among
/// `names`, searched for at most `fuel` further candidates.
pub open spec fn first_free_from(hint: Seq<char>, names: Seq<String>, n: nat, fuel: nat) -> nat
    decreases fuel,
{
    if fuel == 0 {
        n
    } else if !contains_name(names, spec_suffixed(hint, n)) {
        n
    } else {
        first_free_from(hint, names, n + 1, (fuel - 1) as nat)
    }
}

proof fn lemma_first_free_from(hint: Seq<char>, names: Seq<String>, n: nat, fuel: nat)
    requires
        exists|m: int|
            n <= m < n + fuel && !contains_name(names, #[trigger] spec_suffixed(hint, m as nat)),
    ensures
        n <= first_free_from(hint, names, n, fuel) < n + fuel,
        !contains_name(names, spec_suffixed(hint, first_free_from(hint, names, n, fuel))),
        forall|m: int|
            n <= m < first_free_from(hint, names, n, fuel) ==> contains_name(
                names,
                #[trigger] spec_suffixed(hint, m as nat),
            ),
    decreases fuel,
{
    if !contains_name(names, spec_suffixed(hint, n)) {
    } else {
        let m0 = choose|m: int|
            n <= m < n + fuel && !contains_name(names, #[trigger] spec_suffixed(hint, m as nat));
        assert(m0 != n);
        assert((n + 1) <= m0 < (n + 1) + (fuel - 1));
        lemma_first_free_from(hint, names, (n + 1) as nat, (fuel - 1) as nat);
    }
}

/// The collision-free name the registry allocates for `hint` given the
/// names already present: `hint` itself when free, else `hint-n` for the
/// smallest `n >= 1` whose suffixed name is free.
pub open spec fn spec_fresh_name(hint: Seq<char>, names: Seq<String>) -> Seq<char> {
    if !contains_name(names, hint) {
        hint
    } else {
        spec_suffixed(hint, first_free_from(hint, names, 1, names.len() + 1))
    }
}

/// The allocated fresh name is never one of the names already present.
pub proof fn lemma_fresh_name_unused(hint: Seq<char>, names: Seq<String>)
    ensures
        !contains_name(names, spec_fresh_name(hint, names)),
{
    if contains_name(names, hint) {
        lemma_free_suffix_exists(hint, names);
        lemma_first_free_from(hint, names, 1, names.len() + 1);
    }
}

/// Builds `hint-n`.
fn suffixed_name(hint: &str, n: u64) -> (r: String)
    ensures
        r@ == spec_suffixed(hint@, n as nat),
{
    let mut s = hint.to_owned();
    s.append("-");
    let d = u64_to_dec(n);
    s.append(d.as_str());
    proof {
        reveal_strlit("-");
        assert(s@ =~= spec_suffixed(hint@, n as nat));
    }
    s
}

/// Allocates a collision-free name derived from `hint`, given the names
/// already present under the root.
pub fn fresh_name(hint: &str, existing: &Vec<String>) -> (r: String)
    requires
        existing@.len() + 2 <= u64::MAX,
    ensures
        r@ == spec_fresh_name(hint@, existing@),
        !contains_name(existing@, r@),
{
    proof {
        lemma_fresh_name_unused(hint@, existing@);
    }
    if !name_taken(existing, hint) {
        return hint.to_owned();
    }
    let ghost h = hint@;
    let ghost ns = existing@;
    proof {
        lemma_free_suffix_exists(h, ns);
        lemma_first_free_from(h, ns, 1, ns.len() + 1);
    }
    let ghost mfree = choose|m: int|
        1 <= m <= ns.len() + 1 && !contains_name(ns, #[trigger] spec_suffixed(h, m as nat));
    let mut n: u64 = 1;
    let mut cand = suffixed_name(hint, n);
    while name_taken(existing, cand.as_str())
        invariant
            h == hint@,
            ns == existing@,
            ns.len() + 2 <= u64::MAX,
            1 <= mfree <= ns.len() + 1,
            !contains_name(ns, spec_suffixed(h, mfree as nat)),
            1 <= n <= mfree,
            cand@ == spec_suffixed(h, n as nat),
            forall|m: int| 1 <= m < n ==> contains_name(ns, #[trigger] spec_suffixed(h, m as nat)),
        decreases mfree - n,
    {
        proof {
            assert(n != mfree);
        }
        n = n + 1;
        cand = suffixed_name(hint, n);
    }
    proof {
        let r = first_free_from(h, ns, 1, ns.len() + 1);
        lemma_first_free_from(h, ns, 1, ns.len() + 1);
        let ri: int = r as int;
        let ni: int = n as int;
        assert(spec_suffixed(h, ri as nat) == spec_suffixed(h, r));
        assert(spec_suffixed(h, ni as nat) == spec_suffixed(h, n as nat));
        if ri < ni {
            assert(contains_name(ns, spec_suffixed(h, ri as nat)));
            assert(false);
        }
        if ni < ri {
            assert(contains_name(ns, spec_suffixed(h, ni as nat)));
            assert(false);
        }
        assert(cand@ == spec_fresh_name(h, ns));
    }
    cand
}

/// The directory of a trace named `name` under `root`.
pub open spec fn spec_dir_of(root: Seq<char>, name: Seq<char>) -> Seq<char> {
    root.push('/') + name
}

/// One recorded execution: a directory named `name` under the trace root.
/// Created through the registry with a collision-free name; immutable once
/// created.
pub struct Trace {
    pub root: String,
    pub name: String,
}

/// The whole-file overwrite that moves the `latest` bookmark: a path under
/// the root and the contents to write there.
pub struct MarkerWrite {
    pub path: String,
    pub contents: String,
}

impl Trace {
    /// Resolves an existing trace by name: succeeds exactly when `name` is
    /// among the entries present under the root.
    pub fn new(root: &str, name: &str, existing: &Vec<String>) -> (r: Result<Trace, RrError>)
        ensures
            contains_name(existing@, name@) ==> r is Ok && r->Ok_0.root@ == root@
                && r->Ok_0.name@ == name@,
            !contains_name(existing@, name@) ==> r == Err::<Trace, RrError>(RrError::NotFound),
    {
        if name_taken(existing, name) {
            Ok(Trace { root: root.to_owned(), name: name.to_owned() })
        } else {
            Err(RrError::NotFound)
        }
    }

    /// Allocates the trace a recording of the executable at `bin` will be
    /// written into, named after `bin`'s file name with a collision-avoidance
    /// suffix when needed. Fails when `bin` has no usable file name.
    pub fn name_for_bin(root: &str, bin: &str, existing: &Vec<String>) -> (r: Result<
        Trace,
        RrError,
    >)
        requires
            existing@.len() + 2 <= u64::MAX,
        ensures
            spec_usable_file_name(bin@) ==> r is Ok && r->Ok_0.root@ == root@ && r->Ok_0.name@
                == spec_fresh_name(spec_file_name(bin@), existing@) && !contains_name(
                existing@,
                r->Ok_0.name@,
            ),
            !spec_usable_file_name(bin@) ==> r == Err::<Trace, RrError>(RrError::NotFound),
    {
        let hint = file_name(bin);
        if hint.as_str().unicode_len() == 0 || eq_str(hint.as_str(), ".") || eq_str(
            hint.as_str(),
            "..",
        ) {
            return Err(RrError::NotFound);
        }
        let name = fresh_name(hint.as_str(), existing);
        Ok(Trace { root: root.to_owned(), name })
    }

    /// The trace's name: the last component of its directory.
    pub fn name(&self) -> (r: &str)
        ensures
            r@ == self.name@,
    {
        self.name.as_str()
    }

    /// The trace's directory: its name under its root.
    pub fn dir(&self) -> (r: String)
        ensures
            r@ == spec_dir_of(self.root@, self.name@),
    {
        let mut d = self.root.clone();
        d.append("/");
        d.append(self.name.as_str());
        proof {
            reveal_strlit("/");
            assert(d@ =~= spec_dir_of(self.root@, self.name@));
        }
        d
    }

    /// The marker-file overwrite that makes this trace the latest one:
    /// the root's `latest` file, holding exactly this trace's name.
    pub fn set_latest(&self) -> (r: MarkerWrite)
        ensures
            r.path@ == self.root@.push('/') + "latest"@,
            r.contents@ == self.name@,
    {
        let mut p = self.root.clone();
        p.append("/");
        p.append("latest");
        proof {
            reveal_strlit("/");
            assert(p@ =~= self.root@.push('/') + "latest"@);
        }
        MarkerWrite { path: p, contents: self.name.clone() }
    }

    /// Resolves the latest trace from the root's marker-file contents:
    /// absent marker means no trace was recorded yet; otherwise the marker's
    /// text, trimmed of surrounding whitespace, names the trace.
    pub fn latest(root: &str, marker: Option<&str>) -> (r: Result<Trace, RrError>)
        ensures
            marker is None ==> r == Err::<Trace, RrError>(RrError::NotFound),
            marker is Some ==> r is Ok && r->Ok_0.root@ == root@ && r->Ok_0.name@ == spec_trim(
                marker->0@,
            ),
    {
        match marker {
            None => Err(RrError::NotFound),
            Some(m) => Ok(Trace { root: root.to_owned(), name: trim(m) }),
        }
    }
}

/// A path's file name can serve as a trace-name hint when it is neither
/// empty nor a relative-navigation component.
pub open spec fn spec_usable_file_name(bin: Seq<char>) -> bool {
    spec_file_name(bin).len() > 0 && spec_file_name(bin) != "."@ && spec_file_name(bin) != ".."@
}

/// After the bookmark is written for a trace, resolving the latest trace
/// yields one with the same root, the same name and hence the same
/// directory, whatever the name — suffixed or not — as long as it neither
/// begins nor ends in whitespace.
pub proof fn lemma_latest_after_set_latest(t: Trace)
    requires
        t.name@.len() > 0,
        !is_ws(t.name@[0]),
        !is_ws(t.name@[t.name@.len() - 1]),
    ensures
        spec_trim(t.name@) == t.name@,
        spec_dir_of(t.root@, spec_trim(t.name@)) == spec_dir_of(t.root@, t.name@),
{
    crate::strutil::lemma_lead_ws_at(t.name@, 0);
    crate::strutil::lemma_trail_ws_at(t.name@, 0);
    assert(spec_trim(t.name@) =~= t.name@);
}

} // verus!
