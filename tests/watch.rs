use gearbuild::{ArtifactKind, ArtifactStore, ArtifactType, WatchAction};

fn store() -> (ArtifactStore, usize) {
    let mut s = ArtifactStore::new();
    let a = s.intern("a.c", ArtifactKind::Actual, ArtifactType::Source, "").unwrap();
    s.set_time(a, 10);
    let o = s.intern("a.o", ArtifactKind::Actual, ArtifactType::Product, "").unwrap();
    s.add_rule(vec![a], vec![o]).unwrap();
    (s, a)
}

#[test]
fn changed_rules_file_reloads() {
    let (mut s, a) = store();
    let touched = vec![("build.js".to_string(), 50, 50), ("a.c".to_string(), 20, 20)];
    let rules = vec![("build.js".to_string(), 40, Some(50))];
    assert_eq!(s.on_changes(&touched, &rules), WatchAction::Reload);
    assert_eq!(s.artifact(a).time, 10);
    let gone = vec![("build.js".to_string(), 40, None)];
    assert_eq!(s.on_changes(&vec![("build.js".to_string(), 0, 0)], &gone), WatchAction::Reload);
}

#[test]
fn touched_sources_rebuild() {
    let (mut s, a) = store();
    let rules = vec![("build.js".to_string(), 40, Some(40))];
    let touched = vec![("build.js".to_string(), 40, 40), ("a.c".to_string(), 20, 21)];
    assert_eq!(s.on_changes(&touched, &rules), WatchAction::Rebuild);
    assert_eq!(s.artifact(a).time, 21);
    assert_eq!(s.on_changes(&vec![("a.c".to_string(), 15, 15), ("a.o".to_string(), 99, 99)], &rules), WatchAction::Nothing);
    assert_eq!(s.artifact(a).time, 21);
}
