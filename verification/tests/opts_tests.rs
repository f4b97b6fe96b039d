use cargo_rr::artifact::Category;
use cargo_rr::opts::{configure_test_compiler, parse_features, run_categories, run_target,
    FeatureSpec, NameSpec, PackageSpec, RunTarget, TestOpt, TypeSpec};
use cargo_rr::RrError;

fn base_opt() -> TestOpt {
    TestOpt {
        name: None,
        exact: false,
        lib: false,
        bin: None,
        bins: false,
        test: None,
        tests: false,
        example: None,
        examples: false,
        doc: false,
        all_features: false,
        no_default_features: false,
        features: Vec::new(),
        release: false,
        package: None,
        rr_opts: None,
    }
}

#[test]
fn all_features_alone_is_accepted() {
    let f = parse_features(true, false, Vec::new()).unwrap();
    assert!(matches!(f, FeatureSpec::All));
}

#[test]
fn all_features_with_named_features_conflicts() {
    let r = parse_features(true, false, vec!["x".to_string()]);
    assert!(matches!(r, Err(RrError::InputConflict)));
}

#[test]
fn all_features_with_no_default_conflicts() {
    let r = parse_features(true, true, Vec::new());
    assert!(matches!(r, Err(RrError::InputConflict)));
}

#[test]
fn no_default_keeps_the_named_features() {
    let f = parse_features(false, true, vec!["x".to_string()]).unwrap();
    match f {
        FeatureSpec::NoDefault(fs) => assert_eq!(fs, vec!["x".to_string()]),
        _ => panic!("expected the no-default feature set"),
    }
}

#[test]
fn no_flags_mean_the_default_features() {
    let f = parse_features(false, false, Vec::new()).unwrap();
    assert!(matches!(f, FeatureSpec::Default));
}

#[test]
fn named_features_alone_are_explicit() {
    let f = parse_features(false, false, vec!["a".to_string(), "b".to_string()]).unwrap();
    match f {
        FeatureSpec::Explicit(fs) => assert_eq!(fs.len(), 2),
        _ => panic!("expected an explicit feature set"),
    }
}

#[test]
fn a_plain_test_request_is_unfiltered() {
    let (rr_opts, cfg) = configure_test_compiler(base_opt()).unwrap();
    assert_eq!(rr_opts, None);
    assert!(matches!(cfg.name, NameSpec::Any));
    assert!(matches!(cfg.test_type, TypeSpec::Unspecified));
    assert!(matches!(cfg.package, PackageSpec::Any));
    assert!(matches!(cfg.features, FeatureSpec::Default));
    assert!(!cfg.release);
}

#[test]
fn a_name_without_exact_matches_substrings() {
    let mut o = base_opt();
    o.name = Some("connect".to_string());
    let (_, cfg) = configure_test_compiler(o).unwrap();
    match cfg.name {
        NameSpec::Substring(s) => assert_eq!(s, "connect"),
        _ => panic!("expected a substring filter"),
    }
}

#[test]
fn a_name_with_exact_matches_exactly() {
    let mut o = base_opt();
    o.name = Some("connect".to_string());
    o.exact = true;
    let (_, cfg) = configure_test_compiler(o).unwrap();
    match cfg.name {
        NameSpec::Exact(s) => assert_eq!(s, "connect"),
        _ => panic!("expected an exact filter"),
    }
}

#[test]
fn exact_without_a_name_conflicts() {
    let mut o = base_opt();
    o.exact = true;
    let r = configure_test_compiler(o);
    assert!(matches!(r, Err(RrError::InputConflict)));
}

#[test]
fn one_category_flag_is_accepted() {
    let mut o = base_opt();
    o.test = Some("api".to_string());
    o.rr_opts = Some("--chaos".to_string());
    let (rr_opts, cfg) = configure_test_compiler(o).unwrap();
    assert_eq!(rr_opts, Some("--chaos".to_string()));
    match cfg.test_type {
        TypeSpec::Integration(n) => assert_eq!(n, "api"),
        _ => panic!("expected the named integration test"),
    }
}

#[test]
fn two_category_flags_conflict() {
    let mut o = base_opt();
    o.lib = true;
    o.test = Some("api".to_string());
    let r = configure_test_compiler(o);
    assert!(matches!(r, Err(RrError::InputConflict)));
}

#[test]
fn doc_and_examples_conflict() {
    let mut o = base_opt();
    o.doc = true;
    o.examples = true;
    let r = configure_test_compiler(o);
    assert!(matches!(r, Err(RrError::InputConflict)));
}

#[test]
fn the_package_filter_carries_the_name() {
    let mut o = base_opt();
    o.package = Some("core".to_string());
    o.release = true;
    let (_, cfg) = configure_test_compiler(o).unwrap();
    match cfg.package {
        PackageSpec::Name(p) => assert_eq!(p, "core"),
        _ => panic!("expected a named package"),
    }
    assert!(cfg.release);
}

#[test]
fn run_target_picks_the_bin() {
    let t = run_target(Some("app".to_string()), None).unwrap();
    match &t {
        RunTarget::Bin(n) => assert_eq!(n, "app"),
        _ => panic!("expected a binary target"),
    }
    assert_eq!(run_categories(&t), vec![Category::Bin]);
}

#[test]
fn run_target_picks_the_example() {
    let t = run_target(None, Some("demo".to_string())).unwrap();
    match &t {
        RunTarget::Example(n) => assert_eq!(n, "demo"),
        _ => panic!("expected an example target"),
    }
    assert_eq!(run_categories(&t), vec![Category::Example]);
}

#[test]
fn run_target_rejects_both() {
    let r = run_target(Some("app".to_string()), Some("demo".to_string()));
    assert!(matches!(r, Err(RrError::InputConflict)));
}
