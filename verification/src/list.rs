//! Listing traces: the registry enumerates the entries under the root,
//! keeps only the directories, and orders them by filesystem creation time,
//! oldest first. Ties carry no promised order beyond the sort's stability.
use vstd::prelude::*;
use vstd::string::*;

verus! {

use vstd::seq_lib::lemma_multiset_commutative;
use crate::strutil::views;
use crate::trace::{contains_name, spec_fresh_name};

/// One entry observed under the trace root: its name, its creation time
/// (any monotone encoding of the filesystem timestamp) and whether it is a
/// directory.
pub struct TraceEntry {
    pub name: String,
    pub created: u64,
    pub is_dir: bool,
}

impl TraceEntry {
    /// A field-for-field copy.
    pub fn duplicate(&self) -> (r: TraceEntry)
        ensures
            r == *self,
    {
        TraceEntry { name: self.name.clone(), created: self.created, is_dir: self.is_dir }
    }
}

/// The directory entries of `s`, in order.
pub open spec fn spec_dirs(s: Seq<TraceEntry>) -> Seq<TraceEntry>
    decreases s.len(),
{
    if s.len() == 0 {
        Seq::empty()
    } else if s.last().is_dir {
        spec_dirs(s.drop_last()).push(s.last())
    } else {
        spec_dirs(s.drop_last())
    }
}

/// `e` placed into `s` before the first entry with a strictly later
/// creation time: entries with equal times keep their standing order.
pub open spec fn spec_insert_by_created(e: TraceEntry, s: Seq<TraceEntry>) -> Seq<TraceEntry>
    decreases s.len(),
{
    if s.len() == 0 {
        seq![e]
    } else if e.created < s[0].created {
        seq![e] + s
    } else {
        seq![s[0]] + spec_insert_by_created(e, s.drop_first())
    }
}

/// `s` stably sorted ascending by creation time.
pub open spec fn spec_sort_by_created(s: Seq<TraceEntry>) -> Seq<TraceEntry>
    decreases s.len(),
{
    if s.len() == 0 {
        Seq::empty()
    } else {
        spec_insert_by_created(s.last(), spec_sort_by_created(s.drop_last()))
    }
}

/// Ascending by creation time.
pub open spec fn chronological(s: Seq<TraceEntry>) -> bool {
    forall|i: int, j: int| 0 <= i < j < s.len() ==> s[i].created <= s[j].created
}

proof fn lemma_insert_at(e: TraceEntry, s: Seq<TraceEntry>, j: int)
    requires
        0 <= j <= s.len(),
        forall|k: int| 0 <= k < j ==> s[k].created <= e.created,
        j < s.len() ==> e.created < s[j].created,
    ensures
        spec_insert_by_created(e, s) == s.subrange(0, j) + seq![e] + s.subrange(j, s.len() as int),
    decreases j,
{
    if j == 0 {
        assert(spec_insert_by_created(e, s) =~= s.subrange(0, 0) + seq![e] + s.subrange(
            0,
            s.len() as int,
        ));
    } else {
        let rest = s.drop_first();
        assert(forall|k: int| 0 <= k < j - 1 ==> rest[k] == s[k + 1]);
        lemma_insert_at(e, rest, j - 1);
        assert(rest.subrange(0, j - 1) =~= s.subrange(1, j));
        assert(rest.subrange(j - 1, rest.len() as int) =~= s.subrange(j, s.len() as int));
        assert(spec_insert_by_created(e, s) =~= s.subrange(0, j) + seq![e] + s.subrange(
            j,
            s.len() as int,
        ));
    }
}

/// Inserting keeps a chronological sequence chronological.
proof fn lemma_insert_chronological(e: TraceEntry, s: Seq<TraceEntry>)
    requires
        chronological(s),
    ensures
        chronological(spec_insert_by_created(e, s)),
    decreases s.len(),
{
    if s.len() == 0 {
    } else if e.created < s[0].created {
    } else {
        let rest = s.drop_first();
        assert(forall|k: int| 0 <= k < rest.len() ==> rest[k] == s[k + 1]);
        lemma_insert_chronological(e, rest);
        let r = seq![s[0]] + spec_insert_by_created(e, rest);
        assert forall|i: int, j: int| 0 <= i < j < r.len() implies r[i].created
            <= r[j].created by {
            if i == 0 {
                let t = spec_insert_by_created(e, rest);
                lemma_insert_members(e, rest, j - 1);
            }
        }
    }
}

/// Every entry of an insertion result is the inserted entry or one of the
/// original entries.
proof fn lemma_insert_members(e: TraceEntry, s: Seq<TraceEntry>, j: int)
    requires
        0 <= j < spec_insert_by_created(e, s).len(),
    ensures
        spec_insert_by_created(e, s).len() == s.len() + 1,
        spec_insert_by_created(e, s)[j] == e || exists|k: int|
            0 <= k < s.len() && spec_insert_by_created(e, s)[j] == s[k],
    decreases s.len(),
{
    lemma_insert_len(e, s);
    if s.len() == 0 {
    } else if e.created < s[0].created {
        if j > 0 {
            assert(spec_insert_by_created(e, s)[j] == s[j - 1]);
        }
    } else {
        let rest = s.drop_first();
        if j == 0 {
            assert(spec_insert_by_created(e, s)[0] == s[0]);
        } else {
            lemma_insert_members(e, rest, j - 1);
            assert(spec_insert_by_created(e, s)[j] == spec_insert_by_created(e, rest)[j - 1]);
            if spec_insert_by_created(e, rest)[j - 1] != e {
                let k = choose|k: int|
                    0 <= k < rest.len() && spec_insert_by_created(e, rest)[j - 1] == rest[k];
                assert(rest[k] == s[k + 1]);
            }
        }
    }
}

proof fn lemma_insert_len(e: TraceEntry, s: Seq<TraceEntry>)
    ensures
        spec_insert_by_created(e, s).len() == s.len() + 1,
    decreases s.len(),
{
    if s.len() > 0 && !(e.created < s[0].created) {
        lemma_insert_len(e, s.drop_first());
    }
}

/// The sort's result is chronological.
pub proof fn lemma_sort_chronological(s: Seq<TraceEntry>)
    ensures
        chronological(spec_sort_by_created(s)),
    decreases s.len(),
{
    if s.len() > 0 {
        lemma_sort_chronological(s.drop_last());
        lemma_insert_chronological(s.last(), spec_sort_by_created(s.drop_last()));
    }
}

proof fn lemma_insert_multiset(e: TraceEntry, s: Seq<TraceEntry>)
    ensures
        spec_insert_by_created(e, s).to_multiset() == s.to_multiset().insert(e),
    decreases s.len(),
{
    broadcast use vstd::multiset::group_multiset_axioms;

    s.to_multiset_ensures();
    if s.len() == 0 {
        assert(seq![e] =~= s.push(e));
        assert(s.push(e).to_multiset() =~= s.to_multiset().insert(e));
        assert(spec_insert_by_created(e, s) == seq![e]);
    } else if e.created < s[0].created {
        let t = seq![e] + s;
        t.to_multiset_ensures();
        assert(t.remove(0) =~= s);
        assert(t[0] == e);
        assert(t.remove(0).to_multiset() =~= t.to_multiset().remove(e));
        assert(t.contains(e));
        assert(t.to_multiset().count(e) > 0);
        assert(t.to_multiset() =~= s.to_multiset().insert(e));
    } else {
        let rest = s.drop_first();
        lemma_insert_multiset(e, rest);
        let u = seq![s[0]] + spec_insert_by_created(e, rest);
        u.to_multiset_ensures();
        assert(u.remove(0) =~= spec_insert_by_created(e, rest));
        assert(u[0] == s[0]);
        assert(u.remove(0).to_multiset() =~= u.to_multiset().remove(s[0]));
        assert(u.contains(s[0]));
        assert(u.to_multiset().count(s[0]) > 0);
        assert(s.remove(0) =~= rest);
        assert(s.remove(0).to_multiset() =~= s.to_multiset().remove(s[0]));
        assert(s.contains(s[0]));
        assert(s.to_multiset().count(s[0]) > 0);
        // both sides are `rest`'s multiset with `e` and `s[0]` put back
        assert(u.to_multiset().remove(s[0]) =~= s.to_multiset().remove(s[0]).insert(e));
        assert forall|x: TraceEntry| u.to_multiset().count(x) == s.to_multiset().insert(
            e,
        ).count(x) by {
            assert(u.to_multiset().remove(s[0]).count(x) == s.to_multiset().remove(
                s[0],
            ).insert(e).count(x));
        }
        assert(u.to_multiset() =~= s.to_multiset().insert(e));
    }
}

/// The listing's order is a rearrangement and nothing more: sorting neither
/// loses, duplicates nor invents an entry.
pub proof fn lemma_sort_permutes(s: Seq<TraceEntry>)
    ensures
        spec_sort_by_created(s).to_multiset() == s.to_multiset(),
    decreases s.len(),
{
    if s.len() > 0 {
        let p = s.drop_last();
        lemma_sort_permutes(p);
        lemma_insert_multiset(s.last(), spec_sort_by_created(p));
        p.to_multiset_ensures();
        assert(spec_sort_by_created(s) == spec_insert_by_created(
            s.last(),
            spec_sort_by_created(p),
        ));
        assert(spec_sort_by_created(s).to_multiset() == p.to_multiset().insert(s.last()));
        assert(p.push(s.last()) =~= s);
        assert(p.push(s.last()).to_multiset() =~= p.to_multiset().insert(s.last()));
        assert(s.to_multiset() == p.to_multiset().insert(s.last()));
    } else {
        assert(s =~= Seq::<TraceEntry>::empty());
    }
}

/// Entries that already stand in strictly ascending creation order come out
/// of the sort unchanged: traces created one after another are listed in
/// creation order.
pub proof fn lemma_sort_of_chronological(s: Seq<TraceEntry>)
    requires
        forall|i: int, j: int| 0 <= i < j < s.len() ==> s[i].created < s[j].created,
    ensures
        spec_sort_by_created(s) == s,
    decreases s.len(),
{
    if s.len() > 0 {
        let p = s.drop_last();
        assert(forall|i: int, j: int| 0 <= i < j < p.len() ==> p[i].created < p[j].created);
        lemma_sort_of_chronological(p);
        assert(forall|k: int| 0 <= k < p.len() ==> p[k].created <= s.last().created);
        lemma_insert_at(s.last(), p, p.len() as int);
        assert(p.subrange(0, p.len() as int) =~= p);
        assert(p.subrange(p.len() as int, p.len() as int) =~= Seq::<TraceEntry>::empty());
        assert(spec_sort_by_created(s) =~= s);
    }
}

proof fn lemma_dirs_all(s: Seq<TraceEntry>)
    requires
        forall|i: int| 0 <= i < s.len() ==> s[i].is_dir,
    ensures
        spec_dirs(s) == s,
    decreases s.len(),
{
    if s.len() > 0 {
        let p = s.drop_last();
        assert(forall|i: int| 0 <= i < p.len() ==> p[i] == s[i] && p[i].is_dir);
        lemma_dirs_all(p);
        assert(spec_dirs(s) =~= s);
    }
}

/// Trace directories created one after another, at strictly increasing
/// creation times, are listed under their names in creation order.
pub proof fn lemma_list_in_creation_order(s: Seq<TraceEntry>)
    requires
        forall|i: int| 0 <= i < s.len() ==> s[i].is_dir,
        forall|i: int, j: int| 0 <= i < j < s.len() ==> s[i].created < s[j].created,
    ensures
        spec_list_names(s) == spec_names_of(s),
{
    lemma_dirs_all(s);
    lemma_sort_of_chronological(s);
}

/// The names of `s`, in order.
pub open spec fn spec_names_of(s: Seq<TraceEntry>) -> Seq<Seq<char>> {
    Seq::new(s.len(), |i: int| s[i].name@)
}

/// What listing yields for the observed entries: the names of the directory
/// entries, ordered by creation time, oldest first.
pub open spec fn spec_list_names(s: Seq<TraceEntry>) -> Seq<Seq<char>> {
    spec_names_of(spec_sort_by_created(spec_dirs(s)))
}

proof fn lemma_dirs_members(s: Seq<TraceEntry>, j: int)
    requires
        0 <= j < spec_dirs(s).len(),
    ensures
        exists|i: int| 0 <= i < s.len() && spec_dirs(s)[j] == s[i],
    decreases s.len(),
{
    if s.len() > 0 {
        let rest = spec_dirs(s.drop_last());
        if s.last().is_dir && j == rest.len() {
            assert(spec_dirs(s)[j] == s[s.len() - 1]);
        } else {
            lemma_dirs_members(s.drop_last(), j);
            let i = choose|i: int| 0 <= i < s.drop_last().len() && rest[j] == s.drop_last()[i];
            assert(spec_dirs(s)[j] == s[i]);
        }
    }
}

proof fn lemma_sort_members(s: Seq<TraceEntry>, j: int)
    requires
        0 <= j < spec_sort_by_created(s).len(),
    ensures
        exists|i: int| 0 <= i < s.len() && spec_sort_by_created(s)[j] == s[i],
    decreases s.len(),
{
    if s.len() > 0 {
        let rest = spec_sort_by_created(s.drop_last());
        lemma_insert_members(s.last(), rest, j);
        let e = spec_sort_by_created(s)[j];
        if e == s.last() {
            assert(e == s[s.len() - 1]);
        } else {
            let k = choose|k: int| 0 <= k < rest.len() && e == rest[k];
            lemma_sort_members(s.drop_last(), k);
            let i = choose|i: int| 0 <= i < s.drop_last().len() && rest[k] == s.drop_last()[i];
            assert(e == s[i]);
        }
    }
}

/// A name allocated by collision avoidance against every name present
/// under the root is never among the names the listing yields: the listing
/// shows a subset of the entries the allocation avoided.
pub proof fn lemma_fresh_name_not_listed(
    hint: Seq<char>,
    entries: Seq<TraceEntry>,
    names: Seq<String>,
)
    requires
        forall|i: int| 0 <= i < entries.len() ==> contains_name(names, #[trigger] entries[i].name@),
    ensures
        forall|j: int|
            0 <= j < spec_list_names(entries).len() ==> spec_list_names(entries)[j]
                != spec_fresh_name(hint, names),
{
    crate::trace::lemma_fresh_name_unused(hint, names);
    let sorted = spec_sort_by_created(spec_dirs(entries));
    assert forall|j: int| 0 <= j < spec_list_names(entries).len() implies spec_list_names(
        entries,
    )[j] != spec_fresh_name(hint, names) by {
        lemma_sort_members(spec_dirs(entries), j);
        let k = choose|k: int| 0 <= k < spec_dirs(entries).len() && sorted[j] == spec_dirs(entries)[k];
        lemma_dirs_members(entries, k);
        let i = choose|i: int| 0 <= i < entries.len() && spec_dirs(entries)[k] == entries[i];
        assert(spec_list_names(entries)[j] == entries[i].name@);
        assert(contains_name(names, entries[i].name@));
    }
}

/// Places `e` into the chronologically ordered `v`, before the first entry
/// with a strictly later creation time.
fn insert_by_created(v: &mut Vec<TraceEntry>, e: TraceEntry)
    ensures
        final(v)@ == spec_insert_by_created(e, old(v)@),
{
    let ghost s = old(v)@;
    let n = v.len();
    let mut j: usize = 0;
    while j < n && !(e.created < v[j].created)
        invariant
            n == v@.len(),
            v@ == s,
            j <= n,
            forall|k: int| 0 <= k < j ==> s[k].created <= e.created,
        decreases n - j,
    {
        j = j + 1;
    }
    proof {
        lemma_insert_at(e, s, j as int);
    }
    v.insert(j, e);
    proof {
        assert(s.insert(j as int, e) =~= s.subrange(0, j as int) + seq![e] + s.subrange(
            j as int,
            s.len() as int,
        ));
    }
}

/// Orders the observed entries chronologically and returns the names of the
/// directories among them, oldest first.
pub fn list(entries: &Vec<TraceEntry>) -> (r: Vec<String>)
    ensures
        views(r@) == spec_list_names(entries@),
{
    let n = entries.len();
    let mut dirs: Vec<TraceEntry> = Vec::new();
    let mut i: usize = 0;
    proof {
        assert(entries@.subrange(0, 0) =~= Seq::<TraceEntry>::empty());
    }
    while i < n
        invariant
            n == entries@.len(),
            i <= n,
            dirs@ == spec_dirs(entries@.subrange(0, i as int)),
        decreases n - i,
    {
        proof {
            assert(entries@.subrange(0, i + 1 as int).drop_last() =~= entries@.subrange(
                0,
                i as int,
            ));
        }
        if entries[i].is_dir {
            dirs.push(entries[i].duplicate());
        }
        i = i + 1;
    }
    proof {
        assert(entries@.subrange(0, n as int) =~= entries@);
    }
    let m = dirs.len();
    let mut sorted: Vec<TraceEntry> = Vec::new();
    let mut k: usize = 0;
    proof {
        assert(dirs@.subrange(0, 0) =~= Seq::<TraceEntry>::empty());
    }
    while k < m
        invariant
            m == dirs@.len(),
            k <= m,
            sorted@ == spec_sort_by_created(dirs@.subrange(0, k as int)),
        decreases m - k,
    {
        proof {
            assert(dirs@.subrange(0, k + 1 as int).drop_last() =~= dirs@.subrange(0, k as int));
        }
        insert_by_created(&mut sorted, dirs[k].duplicate());
        k = k + 1;
    }
    proof {
        assert(dirs@.subrange(0, m as int) =~= dirs@);
    }
    let mut names: Vec<String> = Vec::new();
    let mut t: usize = 0;
    proof {
        crate::strutil::lemma_views_empty();
    }
    while t < sorted.len()
        invariant
            t <= sorted@.len(),
            sorted@ == spec_sort_by_created(dirs@),
            views(names@) =~= spec_names_of(sorted@).subrange(0, t as int),
        decreases sorted@.len() - t,
    {
        let s = sorted[t].name.clone();
        proof {
            crate::strutil::lemma_views_push(names@, s);
            assert(spec_names_of(sorted@).subrange(0, t + 1 as int) =~= spec_names_of(
                sorted@,
            ).subrange(0, t as int).push(s@));
        }
        names.push(s);
        t = t + 1;
    }
    proof {
        assert(spec_names_of(sorted@).subrange(0, sorted@.len() as int) =~= spec_names_of(
            sorted@,
        ));
    }
    names
}

} // verus!
