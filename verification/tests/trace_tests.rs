use cargo_rr::trace::Trace;
use cargo_rr::trace::fresh_name;
use cargo_rr::RrError;

fn names(v: &[&str]) -> Vec<String> {
    v.iter().map(|s| s.to_string()).collect()
}

#[test]
fn fresh_name_on_empty_root_is_the_hint() {
    let existing: Vec<String> = Vec::new();
    assert_eq!(fresh_name("app", &existing), "app");
}

#[test]
fn fresh_name_avoids_the_hint() {
    let existing = names(&["app"]);
    assert_eq!(fresh_name("app", &existing), "app-1");
}

#[test]
fn fresh_name_takes_the_smallest_free_suffix() {
    let existing = names(&["app", "app-1"]);
    assert_eq!(fresh_name("app", &existing), "app-2");
}

#[test]
fn fresh_name_fills_a_gap() {
    let existing = names(&["app", "app-2"]);
    assert_eq!(fresh_name("app", &existing), "app-1");
}

#[test]
fn fresh_name_ignores_unrelated_names() {
    let existing = names(&["other", "app-1"]);
    assert_eq!(fresh_name("app", &existing), "app");
}

#[test]
fn name_for_bin_uses_the_file_name() {
    let existing: Vec<String> = Vec::new();
    let t = Trace::name_for_bin("/target/rr", "/target/debug/app", &existing).unwrap();
    assert_eq!(t.name(), "app");
    assert_eq!(t.dir(), "/target/rr/app");
}

#[test]
fn name_for_bin_suffixes_on_collision() {
    let existing = names(&["app"]);
    let t = Trace::name_for_bin("/target/rr", "/target/debug/app", &existing).unwrap();
    assert_eq!(t.name(), "app-1");
}

#[test]
fn name_for_bin_rejects_empty_file_name() {
    let existing: Vec<String> = Vec::new();
    let r = Trace::name_for_bin("/target/rr", "/target/debug/", &existing);
    assert!(matches!(r, Err(RrError::NotFound)));
}

#[test]
fn name_for_bin_rejects_dot_dot() {
    let existing: Vec<String> = Vec::new();
    let r = Trace::name_for_bin("/target/rr", "/target/debug/..", &existing);
    assert!(matches!(r, Err(RrError::NotFound)));
}

#[test]
fn new_resolves_an_existing_trace() {
    let existing = names(&["app", "app-1"]);
    let t = Trace::new("/target/rr", "app-1", &existing).unwrap();
    assert_eq!(t.name(), "app-1");
    assert_eq!(t.dir(), "/target/rr/app-1");
}

#[test]
fn new_fails_on_an_absent_trace() {
    let existing = names(&["app"]);
    let r = Trace::new("/target/rr", "gone", &existing);
    assert!(matches!(r, Err(RrError::NotFound)));
}

#[test]
fn set_latest_writes_the_marker_under_the_root() {
    let existing = names(&["app-1"]);
    let t = Trace::new("/target/rr", "app-1", &existing).unwrap();
    let w = t.set_latest();
    assert_eq!(w.path, "/target/rr/latest");
    assert_eq!(w.contents, "app-1");
}

#[test]
fn latest_fails_without_a_marker() {
    let r = Trace::latest("/target/rr", None);
    assert!(matches!(r, Err(RrError::NotFound)));
}

#[test]
fn latest_trims_the_marker_contents() {
    let t = Trace::latest("/target/rr", Some(" app-1\n")).unwrap();
    assert_eq!(t.name(), "app-1");
    assert_eq!(t.dir(), "/target/rr/app-1");
}

#[test]
fn latest_resolves_what_set_latest_wrote() {
    // round trip through the bookmark, with a suffixed name
    let existing = names(&["app", "app-1"]);
    let t = Trace::new("/target/rr", "app-1", &existing).unwrap();
    let w = t.set_latest();
    let back = Trace::latest("/target/rr", Some(w.contents.as_str())).unwrap();
    assert_eq!(back.name(), t.name());
    assert_eq!(back.dir(), t.dir());
}
