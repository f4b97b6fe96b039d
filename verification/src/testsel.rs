//! The test enumerator: flattens the resolved test artifacts' discovered
//! test functions into one selectable list, applies the name and category
//! filters at enumeration time, and mirrors the artifact resolver's
//! selection policy over the fuzzy-selection capability's outcome.
use vstd::prelude::*;
use vstd::string::*;

verus! {

use crate::RrError;
use crate::artifact::{ArtifactDescriptor, Category};
use crate::opts::{NameSpec, TypeSpec};
use crate::strutil::{views, eq_str, contains_sub, spec_contains};

/// A discovered test function's category.
#[derive(Clone, Copy, Debug, PartialEq, Eq, Structural)]
pub enum TestCategory {
    Unit,
    Integration,
    Doc,
    Bench,
}

/// One test or benchmark function discovered in an artifact.
pub struct TestFn {
    pub name: String,
    pub category: TestCategory,
}

impl TestFn {
    /// A field-for-field copy.
    pub fn duplicate(&self) -> (r: TestFn)
        ensures
            r == *self,
    {
        TestFn { name: self.name.clone(), category: self.category }
    }

    /// The arguments that make the test executable run only this function:
    /// an exact-match filter on its name.
    pub fn run_args(&self) -> (r: Vec<String>)
        ensures
            views(r@) == seq!["--exact"@, self.name@],
    {
        let mut v: Vec<String> = Vec::new();
        let flag = "--exact".to_owned();
        proof {
            crate::strutil::lemma_views_empty();
            crate::strutil::lemma_views_push(v@, flag);
        }
        v.push(flag);
        let n = self.name.clone();
        proof {
            crate::strutil::lemma_views_push(v@, n);
        }
        v.push(n);
        proof {
            assert(views(v@) =~= seq!["--exact"@, self.name@]);
        }
        v
    }
}

/// One resolved test-category artifact with its discovered test functions.
pub struct TestArtifact {
    pub artifact: ArtifactDescriptor,
    pub tests: Vec<TestFn>,
}

/// One selectable test: the artifact it lives in paired with one test
/// function. Several specs may describe tests of the same artifact; each
/// carries its own copy of the descriptor.
pub struct TestSpec {
    pub artifact: ArtifactDescriptor,
    pub test: TestFn,
}

impl TestSpec {
    /// A field-for-field copy.
    pub fn duplicate(&self) -> (r: TestSpec)
        ensures
            r == *self,
    {
        TestSpec { artifact: self.artifact.duplicate(), test: self.test.duplicate() }
    }
}

/// The selectable specs of one artifact: one per discovered test function,
/// in discovery order.
pub open spec fn spec_specs_of(a: TestArtifact) -> Seq<TestSpec> {
    Seq::new(a.tests@.len(), |i: int| TestSpec { artifact: a.artifact, test: a.tests@[i] })
}

/// The flat selectable list of several artifacts' test functions, in
/// artifact order.
pub open spec fn spec_flatten(arts: Seq<TestArtifact>) -> Seq<TestSpec>
    decreases arts.len(),
{
    if arts.len() == 0 {
        Seq::empty()
    } else {
        spec_flatten(arts.drop_last()) + spec_specs_of(arts.last())
    }
}

/// Flattens the resolved artifacts' test functions into one list.
pub fn flatten(arts: &Vec<TestArtifact>) -> (r: Vec<TestSpec>)
    ensures
        r@ == spec_flatten(arts@),
{
    let n = arts.len();
    let mut r: Vec<TestSpec> = Vec::new();
    let mut i: usize = 0;
    proof {
        assert(arts@.subrange(0, 0) =~= Seq::<TestArtifact>::empty());
    }
    while i < n
        invariant
            n == arts@.len(),
            i <= n,
            r@ == spec_flatten(arts@.subrange(0, i as int)),
        decreases n - i,
    {
        proof {
            assert(arts@.subrange(0, i + 1 as int).drop_last() =~= arts@.subrange(0, i as int));
        }
        let m = arts[i].tests.len();
        let mut j: usize = 0;
        while j < m
            invariant
                i < n == arts@.len(),
                m == arts@[i as int].tests@.len(),
                j <= m,
                r@ == spec_flatten(arts@.subrange(0, i as int)) + spec_specs_of(
                    arts@[i as int],
                ).subrange(0, j as int),
            decreases m - j,
        {
            let s = TestSpec {
                artifact: arts[i].artifact.duplicate(),
                test: arts[i].tests[j].duplicate(),
            };
            proof {
                assert(spec_specs_of(arts@[i as int]).subrange(0, j + 1 as int) =~= spec_specs_of(
                    arts@[i as int],
                ).subrange(0, j as int).push(s));
            }
            r.push(s);
            j = j + 1;
        }
        proof {
            assert(spec_specs_of(arts@[i as int]).subrange(
                0,
                spec_specs_of(arts@[i as int]).len() as int,
            ) =~= spec_specs_of(arts@[i as int]));
        }
        i = i + 1;
    }
    proof {
        assert(arts@.subrange(0, n as int) =~= arts@);
    }
    r
}

/// The name filter's verdict on a test name.
pub open spec fn spec_name_matches(n: NameSpec, name: Seq<char>) -> bool {
    match n {
        NameSpec::Any => true,
        NameSpec::Exact(s) => name == s@,
        NameSpec::Substring(s) => spec_contains(name, s@),
    }
}

/// Decides the name filter.
pub fn name_matches(n: &NameSpec, name: &str) -> (r: bool)
    ensures
        r == spec_name_matches(*n, name@),
{
    match n {
        NameSpec::Any => true,
        NameSpec::Exact(s) => eq_str(name, s.as_str()),
        NameSpec::Substring(s) => contains_sub(name, s.as_str()),
    }
}

/// The category selector's verdict on a selectable test: it constrains the
/// artifact's primary category, and — where it names a target — the
/// artifact's name.
pub open spec fn spec_type_matches(t: TypeSpec, s: TestSpec) -> bool {
    match t {
        TypeSpec::Lib => s.artifact.category is Lib,
        TypeSpec::Bin(n) => s.artifact.category is Bin && s.artifact.target_name@ == n@,
        TypeSpec::Bins => s.artifact.category is Bin,
        TypeSpec::Integration(n) => s.artifact.category is IntegrationTest
            && s.artifact.target_name@ == n@,
        TypeSpec::Integrations => s.artifact.category is IntegrationTest,
        TypeSpec::Example(n) => s.artifact.category is Example && s.artifact.target_name@ == n@,
        TypeSpec::Examples => s.artifact.category is Example,
        TypeSpec::Doc => s.artifact.category is DocTest,
        TypeSpec::Unspecified => true,
    }
}

/// Decides the category selector.
pub fn type_matches(t: &TypeSpec, s: &TestSpec) -> (r: bool)
    ensures
        r == spec_type_matches(*t, *s),
{
    match t {
        TypeSpec::Lib => matches!(s.artifact.category, Category::Lib),
        TypeSpec::Bin(n) => matches!(s.artifact.category, Category::Bin) && eq_str(
            s.artifact.target_name.as_str(),
            n.as_str(),
        ),
        TypeSpec::Bins => matches!(s.artifact.category, Category::Bin),
        TypeSpec::Integration(n) => matches!(s.artifact.category, Category::IntegrationTest)
            && eq_str(s.artifact.target_name.as_str(), n.as_str()),
        TypeSpec::Integrations => matches!(s.artifact.category, Category::IntegrationTest),
        TypeSpec::Example(n) => matches!(s.artifact.category, Category::Example) && eq_str(
            s.artifact.target_name.as_str(),
            n.as_str(),
        ),
        TypeSpec::Examples => matches!(s.artifact.category, Category::Example),
        TypeSpec::Doc => matches!(s.artifact.category, Category::DocTest),
        TypeSpec::Unspecified => true,
    }
}

/// Both filters' verdict on a selectable test.
pub open spec fn spec_spec_matches(n: NameSpec, t: TypeSpec, s: TestSpec) -> bool {
    spec_name_matches(n, s.test.name@) && spec_type_matches(t, s)
}

/// The selectable tests surviving both filters, in order.
pub open spec fn spec_filter_specs(specs: Seq<TestSpec>, n: NameSpec, t: TypeSpec) -> Seq<TestSpec>
    decreases specs.len(),
{
    if specs.len() == 0 {
        Seq::empty()
    } else {
        let rest = spec_filter_specs(specs.drop_last(), n, t);
        if spec_spec_matches(n, t, specs.last()) {
            rest.push(specs.last())
        } else {
            rest
        }
    }
}

/// Applies the name and category filters to the flattened list.
pub fn filter_specs(specs: &Vec<TestSpec>, n: &NameSpec, t: &TypeSpec) -> (r: Vec<TestSpec>)
    ensures
        r@ == spec_filter_specs(specs@, *n, *t),
{
    let len = specs.len();
    let mut r: Vec<TestSpec> = Vec::new();
    let mut i: usize = 0;
    proof {
        assert(specs@.subrange(0, 0) =~= Seq::<TestSpec>::empty());
    }
    while i < len
        invariant
            len == specs@.len(),
            i <= len,
            r@ == spec_filter_specs(specs@.subrange(0, i as int), *n, *t),
        decreases len - i,
    {
        proof {
            assert(specs@.subrange(0, i + 1 as int).drop_last() =~= specs@.subrange(0, i as int));
        }
        if name_matches(n, specs[i].test.name.as_str()) && type_matches(t, &specs[i]) {
            r.push(specs[i].duplicate());
        }
        i = i + 1;
    }
    proof {
        assert(specs@.subrange(0, len as int) =~= specs@);
    }
    r
}

/// The text of a selectable test's category.
pub open spec fn spec_category_text(c: TestCategory) -> Seq<char> {
    match c {
        TestCategory::Unit => "unit"@,
        TestCategory::Integration => "integration"@,
        TestCategory::Doc => "doc"@,
        TestCategory::Bench => "bench"@,
    }
}

/// The category's display text.
pub fn category_text(c: TestCategory) -> (r: &'static str)
    ensures
        r@ == spec_category_text(c),
{
    match c {
        TestCategory::Unit => "unit",
        TestCategory::Integration => "integration",
        TestCategory::Doc => "doc",
        TestCategory::Bench => "bench",
    }
}

/// The composite display label of a selectable test:
/// `<artifact-name>::<test-name> (<category>)`.
pub open spec fn spec_test_label(s: TestSpec) -> Seq<char> {
    s.artifact.target_name@ + "::"@ + s.test.name@ + " ("@ + spec_category_text(s.test.category)
        + ")"@
}

impl TestSpec {
    /// The display text the fuzzy-selection capability shows for this test.
    pub fn text(&self) -> (r: String)
        ensures
            r@ == spec_test_label(*self),
    {
        let mut r = self.artifact.target_name.clone();
        r.append("::");
        r.append(self.test.name.as_str());
        r.append(" (");
        r.append(category_text(self.test.category));
        r.append(")");
        r
    }
}

/// The display labels of the selectable tests, in order.
pub open spec fn spec_test_labels(specs: Seq<TestSpec>) -> Seq<Seq<char>> {
    Seq::new(specs.len(), |i: int| spec_test_label(specs[i]))
}

/// Builds the fuzzy-selection labels.
pub fn test_labels(specs: &Vec<TestSpec>) -> (r: Vec<String>)
    ensures
        views(r@) == spec_test_labels(specs@),
{
    let n = specs.len();
    let mut r: Vec<String> = Vec::new();
    let mut i: usize = 0;
    proof {
        crate::strutil::lemma_views_empty();
        assert(views(r@) =~= spec_test_labels(specs@).subrange(0, 0));
    }
    while i < n
        invariant
            n == specs@.len(),
            i <= n,
            views(r@) == spec_test_labels(specs@).subrange(0, i as int),
        decreases n - i,
    {
        let s = specs[i].text();
        proof {
            crate::strutil::lemma_views_push(r@, s);
            assert(spec_test_labels(specs@).subrange(0, i + 1 as int) =~= spec_test_labels(
                specs@,
            ).subrange(0, i as int).push(s@));
        }
        r.push(s);
        i = i + 1;
    }
    proof {
        assert(spec_test_labels(specs@).subrange(0, n as int) =~= spec_test_labels(specs@));
    }
    r
}

/// The selection policy over the filtered tests and the fuzzy-selection
/// capability's outcome: no test fails with `NoCandidates`; a lone test is
/// auto-selected without consulting the capability; among many, an empty
/// selection is `NotFound`, while several simultaneous selections or an
/// out-of-range one violate the capability's contract and fail with
/// `ToolFailure`.
pub fn select_test_spec(mut specs: Vec<TestSpec>, picks: &Vec<usize>) -> (r: Result<
    TestSpec,
    RrError,
>)
    ensures
        specs@.len() == 0 ==> r == Err::<TestSpec, RrError>(RrError::NoCandidates),
        specs@.len() == 1 ==> r == Ok::<TestSpec, RrError>(specs@[0]),
        specs@.len() > 1 ==> {
            if picks@.len() == 0 {
                r == Err::<TestSpec, RrError>(RrError::NotFound)
            } else if picks@.len() > 1 || picks@[0] >= specs@.len() {
                r == Err::<TestSpec, RrError>(RrError::ToolFailure)
            } else {
                r == Ok::<TestSpec, RrError>(specs@[picks@[0] as int])
            }
        },
{
    if specs.len() == 0 {
        Err(RrError::NoCandidates)
    } else if specs.len() == 1 {
        let s = specs.remove(0);
        Ok(s)
    } else if picks.len() == 0 {
        Err(RrError::NotFound)
    } else if picks.len() > 1 {
        Err(RrError::ToolFailure)
    } else {
        let i = picks[0];
        if i >= specs.len() {
            Err(RrError::ToolFailure)
        } else {
            let s = specs.remove(i);
            Ok(s)
        }
    }
}

} // verus!
