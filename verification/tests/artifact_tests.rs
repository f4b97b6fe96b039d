use cargo_rr::artifact::{artifact_labels, resolve_artifact, resolve_candidates, ArtifactMsg,
    BuildEvent, Category};
use cargo_rr::RrError;

fn msg(executable: Option<&str>, cats: &[Category], in_ws: bool, name: &str, src: &str) -> ArtifactMsg {
    ArtifactMsg {
        executable: executable.map(|s| s.to_string()),
        categories: cats.to_vec(),
        in_workspace: in_ws,
        target_name: name.to_string(),
        package: "pkg".to_string(),
        src_path: src.to_string(),
    }
}

#[test]
fn duplicate_source_paths_collapse_to_one_candidate() {
    let events = vec![
        BuildEvent::ArtifactProduced(msg(
            Some("/t/debug/app"),
            &[Category::Bin],
            true,
            "app",
            "/ws/src/main.rs",
        )),
        BuildEvent::ArtifactProduced(msg(
            Some("/t/debug/app"),
            &[Category::Bin],
            true,
            "app",
            "/ws/src/main.rs",
        )),
    ];
    let cands = resolve_candidates(&events, &vec![Category::Bin, Category::Example]);
    assert_eq!(cands.len(), 1);
    assert_eq!(cands[0].executable, "/t/debug/app");
}

#[test]
fn irrelevant_messages_are_ignored() {
    let events = vec![
        BuildEvent::Other,
        BuildEvent::ArtifactProduced(msg(None, &[Category::Bin], true, "a", "/ws/a.rs")),
        BuildEvent::ArtifactProduced(msg(
            Some("/t/out"),
            &[Category::Bin],
            false,
            "b",
            "/ws/b.rs",
        )),
        BuildEvent::ArtifactProduced(msg(
            Some("/t/lib"),
            &[Category::Lib],
            true,
            "c",
            "/ws/c.rs",
        )),
    ];
    let cands = resolve_candidates(&events, &vec![Category::Bin, Category::Example]);
    assert!(cands.is_empty());
}

#[test]
fn candidates_are_sorted_by_source_path() {
    let events = vec![
        BuildEvent::ArtifactProduced(msg(
            Some("/t/zz"),
            &[Category::Bin],
            true,
            "zz",
            "/ws/src/bin/zz.rs",
        )),
        BuildEvent::ArtifactProduced(msg(
            Some("/t/aa"),
            &[Category::Bin],
            true,
            "aa",
            "/ws/src/bin/aa.rs",
        )),
    ];
    let cands = resolve_candidates(&events, &vec![Category::Bin]);
    assert_eq!(cands.len(), 2);
    assert_eq!(cands[0].target_name, "aa");
    assert_eq!(cands[1].target_name, "zz");
}

#[test]
fn labels_are_source_paths_relative_to_the_workspace() {
    let events = vec![BuildEvent::ArtifactProduced(msg(
        Some("/t/app"),
        &[Category::Bin],
        true,
        "app",
        "/ws/src/main.rs",
    ))];
    let cands = resolve_candidates(&events, &vec![Category::Bin]);
    let labels = artifact_labels(&cands, "/ws");
    assert_eq!(labels, vec!["src/main.rs".to_string()]);
}

#[test]
fn no_candidates_is_an_error() {
    let r = resolve_artifact(Vec::new(), None);
    assert!(matches!(r, Err(RrError::NoCandidates)));
}

#[test]
fn a_lone_candidate_is_auto_selected() {
    let events = vec![BuildEvent::ArtifactProduced(msg(
        Some("/t/app"),
        &[Category::Bin],
        true,
        "app",
        "/ws/src/main.rs",
    ))];
    let cands = resolve_candidates(&events, &vec![Category::Bin]);
    let d = resolve_artifact(cands, None).unwrap();
    assert_eq!(d.executable, "/t/app");
}

#[test]
fn an_aborted_pick_is_no_selection() {
    let events = vec![
        BuildEvent::ArtifactProduced(msg(
            Some("/t/a"),
            &[Category::Bin],
            true,
            "a",
            "/ws/a.rs",
        )),
        BuildEvent::ArtifactProduced(msg(
            Some("/t/b"),
            &[Category::Bin],
            true,
            "b",
            "/ws/b.rs",
        )),
    ];
    let cands = resolve_candidates(&events, &vec![Category::Bin]);
    let r = resolve_artifact(cands, None);
    assert!(matches!(r, Err(RrError::NotFound)));
}

#[test]
fn a_picked_index_selects_that_candidate() {
    let events = vec![
        BuildEvent::ArtifactProduced(msg(
            Some("/t/a"),
            &[Category::Bin],
            true,
            "a",
            "/ws/a.rs",
        )),
        BuildEvent::ArtifactProduced(msg(
            Some("/t/b"),
            &[Category::Bin],
            true,
            "b",
            "/ws/b.rs",
        )),
    ];
    let cands = resolve_candidates(&events, &vec![Category::Bin]);
    let d = resolve_artifact(cands, Some(1)).unwrap();
    assert_eq!(d.target_name, "b");
}

#[test]
fn an_out_of_range_pick_is_no_selection() {
    let events = vec![
        BuildEvent::ArtifactProduced(msg(
            Some("/t/a"),
            &[Category::Bin],
            true,
            "a",
            "/ws/a.rs",
        )),
        BuildEvent::ArtifactProduced(msg(
            Some("/t/b"),
            &[Category::Bin],
            true,
            "b",
            "/ws/b.rs",
        )),
    ];
    let cands = resolve_candidates(&events, &vec![Category::Bin]);
    let r = resolve_artifact(cands, Some(9));
    assert!(matches!(r, Err(RrError::NotFound)));
}
