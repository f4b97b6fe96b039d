use cargo_rr::artifact::{ArtifactDescriptor, Category};
use cargo_rr::opts::{NameSpec, TypeSpec};
use cargo_rr::testsel::{filter_specs, flatten, select_test_spec, test_labels, TestArtifact,
    TestCategory, TestFn, TestSpec};
use cargo_rr::RrError;

fn desc(name: &str, category: Category) -> ArtifactDescriptor {
    ArtifactDescriptor {
        executable: format!("/t/{}", name),
        target_name: name.to_string(),
        category,
        package: "pkg".to_string(),
        src_path: format!("/ws/{}.rs", name),
    }
}

fn tf(name: &str, category: TestCategory) -> TestFn {
    TestFn { name: name.to_string(), category }
}

#[test]
fn flattening_keeps_artifact_and_discovery_order() {
    let arts = vec![
        TestArtifact {
            artifact: desc("core", Category::Lib),
            tests: vec![tf("alpha", TestCategory::Unit), tf("beta", TestCategory::Unit)],
        },
        TestArtifact {
            artifact: desc("api", Category::IntegrationTest),
            tests: vec![tf("gamma", TestCategory::Integration)],
        },
    ];
    let flat = flatten(&arts);
    assert_eq!(flat.len(), 3);
    assert_eq!(flat[0].test.name, "alpha");
    assert_eq!(flat[1].test.name, "beta");
    assert_eq!(flat[2].artifact.target_name, "api");
}

#[test]
fn the_name_filter_narrows_by_substring() {
    let arts = vec![TestArtifact {
        artifact: desc("core", Category::Lib),
        tests: vec![
            tf("connect_works", TestCategory::Unit),
            tf("parse_works", TestCategory::Unit),
        ],
    }];
    let flat = flatten(&arts);
    let kept = filter_specs(&flat, &NameSpec::Substring("connect".to_string()),
        &TypeSpec::Unspecified);
    assert_eq!(kept.len(), 1);
    assert_eq!(kept[0].test.name, "connect_works");
}

#[test]
fn the_name_filter_narrows_exactly() {
    let arts = vec![TestArtifact {
        artifact: desc("core", Category::Lib),
        tests: vec![tf("works", TestCategory::Unit), tf("works_twice", TestCategory::Unit)],
    }];
    let flat = flatten(&arts);
    let kept = filter_specs(&flat, &NameSpec::Exact("works".to_string()), &TypeSpec::Unspecified);
    assert_eq!(kept.len(), 1);
    assert_eq!(kept[0].test.name, "works");
}

#[test]
fn the_category_filter_narrows_by_artifact_kind() {
    let arts = vec![
        TestArtifact {
            artifact: desc("core", Category::Lib),
            tests: vec![tf("a", TestCategory::Unit)],
        },
        TestArtifact {
            artifact: desc("api", Category::IntegrationTest),
            tests: vec![tf("b", TestCategory::Integration)],
        },
    ];
    let flat = flatten(&arts);
    let lib_only = filter_specs(&flat, &NameSpec::Any, &TypeSpec::Lib);
    assert_eq!(lib_only.len(), 1);
    assert_eq!(lib_only[0].artifact.target_name, "core");
    let named = filter_specs(&flat, &NameSpec::Any, &TypeSpec::Integration("api".to_string()));
    assert_eq!(named.len(), 1);
    let missed = filter_specs(&flat, &NameSpec::Any, &TypeSpec::Integration("gone".to_string()));
    assert!(missed.is_empty());
}

#[test]
fn labels_compose_artifact_test_and_category() {
    let spec = TestSpec {
        artifact: desc("core", Category::Lib),
        test: tf("connect_works", TestCategory::Unit),
    };
    assert_eq!(spec.text(), "core::connect_works (unit)");
    let labels = test_labels(&vec![spec]);
    assert_eq!(labels, vec!["core::connect_works (unit)".to_string()]);
}

#[test]
fn bench_labels_say_so() {
    let spec = TestSpec {
        artifact: desc("core", Category::Lib),
        test: tf("throughput", TestCategory::Bench),
    };
    assert_eq!(spec.text(), "core::throughput (bench)");
}

#[test]
fn run_args_target_the_exact_test() {
    let f = tf("connect_works", TestCategory::Unit);
    assert_eq!(f.run_args(), vec!["--exact".to_string(), "connect_works".to_string()]);
}

#[test]
fn selecting_from_nothing_fails() {
    let r = select_test_spec(Vec::new(), &Vec::new());
    assert!(matches!(r, Err(RrError::NoCandidates)));
}

#[test]
fn a_lone_test_is_auto_selected() {
    let specs = vec![TestSpec {
        artifact: desc("core", Category::Lib),
        test: tf("a", TestCategory::Unit),
    }];
    let s = select_test_spec(specs, &Vec::new()).unwrap();
    assert_eq!(s.test.name, "a");
}

#[test]
fn an_empty_selection_among_many_fails() {
    let specs = vec![
        TestSpec { artifact: desc("core", Category::Lib), test: tf("a", TestCategory::Unit) },
        TestSpec { artifact: desc("core", Category::Lib), test: tf("b", TestCategory::Unit) },
    ];
    let r = select_test_spec(specs, &Vec::new());
    assert!(matches!(r, Err(RrError::NotFound)));
}

#[test]
fn a_selected_index_picks_that_test() {
    let specs = vec![
        TestSpec { artifact: desc("core", Category::Lib), test: tf("a", TestCategory::Unit) },
        TestSpec { artifact: desc("core", Category::Lib), test: tf("b", TestCategory::Unit) },
    ];
    let s = select_test_spec(specs, &vec![1]).unwrap();
    assert_eq!(s.test.name, "b");
}

#[test]
fn a_multiple_selection_violates_the_capability_contract() {
    let specs = vec![
        TestSpec { artifact: desc("core", Category::Lib), test: tf("a", TestCategory::Unit) },
        TestSpec { artifact: desc("core", Category::Lib), test: tf("b", TestCategory::Unit) },
    ];
    let r = select_test_spec(specs, &vec![0, 1]);
    assert!(matches!(r, Err(RrError::ToolFailure)));
}

#[test]
fn an_out_of_range_selection_violates_the_capability_contract() {
    let specs = vec![
        TestSpec { artifact: desc("core", Category::Lib), test: tf("a", TestCategory::Unit) },
        TestSpec { artifact: desc("core", Category::Lib), test: tf("b", TestCategory::Unit) },
    ];
    let r = select_test_spec(specs, &vec![7]);
    assert!(matches!(r, Err(RrError::ToolFailure)));
}
