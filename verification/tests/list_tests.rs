use cargo_rr::list::{list, TraceEntry};

fn entry(name: &str, created: u64, is_dir: bool) -> TraceEntry {
    TraceEntry { name: name.to_string(), created, is_dir }
}

#[test]
fn traces_created_in_order_are_listed_in_order() {
    let entries = vec![entry("a", 1, true), entry("b", 2, true), entry("c", 3, true)];
    assert_eq!(list(&entries), vec!["a".to_string(), "b".to_string(), "c".to_string()]);
}

#[test]
fn listing_sorts_by_creation_time() {
    let entries = vec![entry("late", 30, true), entry("early", 10, true), entry("mid", 20, true)];
    assert_eq!(
        list(&entries),
        vec!["early".to_string(), "mid".to_string(), "late".to_string()]
    );
}

#[test]
fn listing_keeps_only_directories() {
    let entries = vec![entry("latest", 5, false), entry("app", 1, true)];
    assert_eq!(list(&entries), vec!["app".to_string()]);
}

#[test]
fn listing_an_empty_root_yields_nothing() {
    let entries: Vec<TraceEntry> = Vec::new();
    assert!(list(&entries).is_empty());
}
