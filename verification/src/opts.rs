//! Request validation: turning already-parsed command-line input into the
//! filter values the build step and the enumerators consume, failing fast
//! on mutually exclusive combinations before any build is attempted.
use vstd::prelude::*;

verus! {

use crate::RrError;
use crate::artifact::Category;

/// Which package's targets a request builds.
pub enum PackageSpec {
    Any,
    Name(String),
}

/// Which feature set a request builds with; mutually exclusive combinations
/// of the feature flags are invalid input.
pub enum FeatureSpec {
    Default,
    All,
    Explicit(Vec<String>),
    NoDefault(Vec<String>),
}

/// The test-name filter.
pub enum NameSpec {
    Any,
    Exact(String),
    Substring(String),
}

/// The closed test-category selector; at most one may be active per request.
pub enum TypeSpec {
    Lib,
    Bin(String),
    Bins,
    Integration(String),
    Integrations,
    Example(String),
    Examples,
    Doc,
    Unspecified,
}

/// The already-parsed options of a test request.
pub struct TestOpt {
    pub name: Option<String>,
    pub exact: bool,
    pub lib: bool,
    pub bin: Option<String>,
    pub bins: bool,
    pub test: Option<String>,
    pub tests: bool,
    pub example: Option<String>,
    pub examples: bool,
    pub doc: bool,
    pub all_features: bool,
    pub no_default_features: bool,
    pub features: Vec<String>,
    pub release: bool,
    pub package: Option<String>,
    pub rr_opts: Option<String>,
}

/// The validated build configuration of a test request.
pub struct TestCompilerConfig {
    pub name: NameSpec,
    pub test_type: TypeSpec,
    pub package: PackageSpec,
    pub features: FeatureSpec,
    pub release: bool,
}

/// The feature flags are consistent: `--all-features` tolerates neither
/// `--no-default-features` nor named features.
pub open spec fn spec_features_valid(all: bool, no_default: bool, features: Seq<String>) -> bool {
    !(all && no_default) && !(all && features.len() > 0)
}

/// The feature set a consistent combination selects.
pub open spec fn spec_feature_spec_of(
    all: bool,
    no_default: bool,
    features: Vec<String>,
) -> FeatureSpec {
    if all {
        FeatureSpec::All
    } else if no_default {
        FeatureSpec::NoDefault(features)
    } else if features@.len() == 0 {
        FeatureSpec::Default
    } else {
        FeatureSpec::Explicit(features)
    }
}

/// Validates the feature flags of a request: `--all-features` together with
/// `--no-default-features` or with named features is an input conflict;
/// otherwise the selected feature set is returned.
pub fn parse_features(all: bool, no_default: bool, features: Vec<String>) -> (r: Result<
    FeatureSpec,
    RrError,
>)
    ensures
        !spec_features_valid(all, no_default, features@) ==> r == Err::<FeatureSpec, RrError>(
            RrError::InputConflict,
        ),
        spec_features_valid(all, no_default, features@) ==> r == Ok::<FeatureSpec, RrError>(
            spec_feature_spec_of(all, no_default, features),
        ),
{
    match (all, no_default) {
        (true, false) => {
            if features.len() == 0 {
                Ok(FeatureSpec::All)
            } else {
                Err(RrError::InputConflict)
            }
        },
        (true, true) => Err(RrError::InputConflict),
        (false, true) => Ok(FeatureSpec::NoDefault(features)),
        (false, false) => {
            if features.len() == 0 {
                Ok(FeatureSpec::Default)
            } else {
                Ok(FeatureSpec::Explicit(features))
            }
        },
    }
}

/// The package filter an optional package name selects.
pub open spec fn spec_package_of(package: Option<String>) -> PackageSpec {
    match package {
        None => PackageSpec::Any,
        Some(p) => PackageSpec::Name(p),
    }
}

/// How many of the mutually exclusive test-category flags are set.
pub open spec fn spec_type_flag_count(o: TestOpt) -> int {
    (if o.lib {
        1int
    } else {
        0int
    }) + (if o.bin is Some {
        1int
    } else {
        0int
    }) + (if o.bins {
        1int
    } else {
        0int
    }) + (if o.test is Some {
        1int
    } else {
        0int
    }) + (if o.tests {
        1int
    } else {
        0int
    }) + (if o.example is Some {
        1int
    } else {
        0int
    }) + (if o.examples {
        1int
    } else {
        0int
    }) + (if o.doc {
        1int
    } else {
        0int
    })
}

/// The test-category selector the flags pick once at most one is set.
pub open spec fn spec_type_spec_of(o: TestOpt) -> TypeSpec {
    if o.lib {
        TypeSpec::Lib
    } else if o.bin is Some {
        TypeSpec::Bin(o.bin->0)
    } else if o.bins {
        TypeSpec::Bins
    } else if o.test is Some {
        TypeSpec::Integration(o.test->0)
    } else if o.tests {
        TypeSpec::Integrations
    } else if o.example is Some {
        TypeSpec::Example(o.example->0)
    } else if o.examples {
        TypeSpec::Examples
    } else if o.doc {
        TypeSpec::Doc
    } else {
        TypeSpec::Unspecified
    }
}

///`--exact` demands a name to match exactly.
pub open spec fn spec_name_flags_valid(o: TestOpt) -> bool {
    !(o.name is None && o.exact)
}

/// The test-name filter the flags pick.
pub open spec fn spec_name_spec_of(o: TestOpt) -> NameSpec {
    match o.name {
        Some(n) => if o.exact {
            NameSpec::Exact(n)
        } else {
            NameSpec::Substring(n)
        },
        None => NameSpec::Any,
    }
}

/// A test request's options are consistent: a name stands behind `--exact`,
/// at most one test-category flag is set, and the feature flags agree.
pub open spec fn spec_test_opt_valid(o: TestOpt) -> bool {
    spec_name_flags_valid(o) && spec_type_flag_count(o) <= 1 && spec_features_valid(
        o.all_features,
        o.no_default_features,
        o.features@,
    )
}

/// Validates a test request and assembles its build configuration: any
/// mutually exclusive combination — `--exact` without a name, more than one
/// test-category flag, conflicting feature flags — is an input conflict,
/// failed before any build; otherwise the name filter, category selector,
/// package filter and feature set are as the flags picked them, beside the
/// request's free-form record-tool options.
pub fn configure_test_compiler(opt: TestOpt) -> (r: Result<
    (Option<String>, TestCompilerConfig),
    RrError,
>)
    ensures
        !spec_test_opt_valid(opt) ==> r == Err::<(Option<String>, TestCompilerConfig), RrError>(
            RrError::InputConflict,
        ),
        spec_test_opt_valid(opt) ==> r is Ok && r->Ok_0.0 == opt.rr_opts && r->Ok_0.1
            == (TestCompilerConfig {
            name: spec_name_spec_of(opt),
            test_type: spec_type_spec_of(opt),
            package: spec_package_of(opt.package),
            features: spec_feature_spec_of(
                opt.all_features,
                opt.no_default_features,
                opt.features,
            ),
            release: opt.release,
        }),
{
    let TestOpt {
        name,
        exact,
        lib,
        bin,
        bins,
        test,
        tests,
        example,
        examples,
        doc,
        all_features,
        no_default_features,
        features,
        release,
        package,
        rr_opts,
    } = opt;
    let name_spec = match (name, exact) {
        (Some(n), true) => NameSpec::Exact(n),
        (Some(n), false) => NameSpec::Substring(n),
        (None, true) => {
            return Err(RrError::InputConflict);
        },
        (None, false) => NameSpec::Any,
    };
    let mut count: u64 = 0;
    if lib {
        count = count + 1;
    }
    if bin.is_some() {
        count = count + 1;
    }
    if bins {
        count = count + 1;
    }
    if test.is_some() {
        count = count + 1;
    }
    if tests {
        count = count + 1;
    }
    if example.is_some() {
        count = count + 1;
    }
    if examples {
        count = count + 1;
    }
    if doc {
        count = count + 1;
    }
    if count > 1 {
        return Err(RrError::InputConflict);
    }
    let test_type = if lib {
        TypeSpec::Lib
    } else if let Some(n) = bin {
        TypeSpec::Bin(n)
    } else if bins {
        TypeSpec::Bins
    } else if let Some(n) = test {
        TypeSpec::Integration(n)
    } else if tests {
        TypeSpec::Integrations
    } else if let Some(n) = example {
        TypeSpec::Example(n)
    } else if examples {
        TypeSpec::Examples
    } else if doc {
        TypeSpec::Doc
    } else {
        TypeSpec::Unspecified
    };
    let package_spec = match package {
        Some(p) => PackageSpec::Name(p),
        None => PackageSpec::Any,
    };
    let feature_spec = match parse_features(all_features, no_default_features, features) {
        Ok(f) => f,
        Err(e) => {
            return Err(e);
        },
    };
    Ok(
        (
            rr_opts,
            TestCompilerConfig {
                name: name_spec,
                test_type,
                package: package_spec,
                features: feature_spec,
                release,
            },
        ),
    )
}

/// What a run request records: one binary or one example.
pub enum RunTarget {
    Bin(String),
    Example(String),
}

/// Picks the run target from the `--bin` and `--example` options: both at
/// once is an input conflict. A request naming neither asks for a default
/// target this orchestrator does not provide, so one must be named.
pub fn run_target(bin: Option<String>, example: Option<String>) -> (r: Result<RunTarget, RrError>)
    requires
        bin is Some || example is Some,
    ensures
        bin is Some && example is Some ==> r == Err::<RunTarget, RrError>(RrError::InputConflict),
        bin is Some && example is None ==> r == Ok::<RunTarget, RrError>(RunTarget::Bin(bin->0)),
        bin is None && example is Some ==> r == Ok::<RunTarget, RrError>(
            RunTarget::Example(example->0),
        ),
{
    match (bin, example) {
        (Some(b), None) => Ok(RunTarget::Bin(b)),
        (None, Some(e)) => Ok(RunTarget::Example(e)),
        (Some(_), Some(_)) => Err(RrError::InputConflict),
        (None, None) => Err(RrError::InputConflict),
    }
}

/// The artifact categories a run request keeps: the named binary or the
/// named example.
pub fn run_categories(t: &RunTarget) -> (r: Vec<Category>)
    ensures
        t is Bin ==> r@ == seq![Category::Bin],
        t is Example ==> r@ == seq![Category::Example],
{
    let mut v: Vec<Category> = Vec::new();
    match t {
        RunTarget::Bin(_) => {
            v.push(Category::Bin);
        },
        RunTarget::Example(_) => {
            v.push(Category::Example);
        },
    }
    proof {
        if t is Bin {
            assert(v@ =~= seq![Category::Bin]);
        } else {
            assert(v@ =~= seq![Category::Example]);
        }
    }
    v
}

} // verus!
