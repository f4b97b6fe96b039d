use cargo_rr::splice::{fix_trace_positional, splice};
use cargo_rr::replay::handle_replay;

fn v(s: &[&str]) -> Vec<String> {
    s.iter().map(|x| x.to_string()).collect()
}

#[test]
fn splice_inserts_after_an_existing_separator() {
    assert_eq!(splice(&v(&["--", "x"]), &v(&["y"])), v(&["--", "y", "x"]));
}

#[test]
fn splice_appends_a_separator_when_none_exists() {
    assert_eq!(splice(&v(&["a", "b"]), &v(&["y"])), v(&["a", "b", "--", "y"]));
}

#[test]
fn splice_on_an_empty_list_starts_with_the_separator() {
    assert_eq!(splice(&v(&[]), &v(&["y"])), v(&["--", "y"]));
}

#[test]
fn splice_uses_only_the_first_separator() {
    assert_eq!(
        splice(&v(&["a", "--", "b", "--", "c"]), &v(&["y", "z"])),
        v(&["a", "--", "y", "z", "b", "--", "c"])
    );
}

#[test]
fn splice_keeps_the_extra_tokens_in_order() {
    assert_eq!(splice(&v(&["--"]), &v(&["y", "z"])), v(&["--", "y", "z"]));
}

#[test]
fn splice_of_nothing_still_marks_the_pass_through_point() {
    assert_eq!(splice(&v(&["a"]), &v(&[])), v(&["a", "--"]));
}

#[test]
fn option_like_positional_moves_to_the_front_of_the_options() {
    let (trace, opts) = fix_trace_positional(Some("-x".to_string()), v(&["y"]));
    assert_eq!(trace, None);
    assert_eq!(opts, v(&["-x", "y"]));
}

#[test]
fn ordinary_positional_stays_put() {
    let (trace, opts) = fix_trace_positional(Some("t1".to_string()), v(&["y"]));
    assert_eq!(trace, Some("t1".to_string()));
    assert_eq!(opts, v(&["y"]));
}

#[test]
fn replay_request_falls_back_to_latest_on_an_option_like_trace_name() {
    let r = handle_replay(Some("--arg=4".to_string()), v(&["--nx"]));
    assert_eq!(r.trace, None);
    assert_eq!(r.gdb_opts, v(&["--arg=4", "--nx"]));
}

#[test]
fn replay_request_keeps_a_named_trace() {
    let r = handle_replay(Some("app-1".to_string()), v(&[]));
    assert_eq!(r.trace, Some("app-1".to_string()));
    assert!(r.gdb_opts.is_empty());
}

#[test]
fn replay_request_without_a_trace_name_uses_latest() {
    let r = handle_replay(None, v(&["y"]));
    assert_eq!(r.trace, None);
    assert_eq!(r.gdb_opts, v(&["y"]));
}
