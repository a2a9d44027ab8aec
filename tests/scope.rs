use gearbuild::{ArtifactKind, ArtifactStore, ScopeError, Scopes};

#[test]
fn scopes_nest_with_dotted_names() {
    let mut store = ArtifactStore::new();
    let mut scopes = Scopes::new();
    let fw = scopes.new_scope(0, "firmware", "device code").unwrap();
    let boot = scopes.new_scope(fw, "boot", "").unwrap();
    assert_eq!(scopes.entry(fw).name, "firmware");
    assert_eq!(scopes.entry(boot).name, "firmware.boot");
    assert_eq!(scopes.new_scope(fw, "boot", "again"), Err(ScopeError::Exists));
    assert_eq!(scopes.new_scope(99, "x", ""), Err(ScopeError::NoSuchScope));
    assert_eq!(scopes.scope(fw, "boot"), Some(boot));
    assert_eq!(scopes.scope(0, "boot"), None);
    assert_eq!(scopes.scopes(0), vec![fw]);

    let g = scopes.new_goal(&mut store, boot, "image", "the image").unwrap();
    assert_eq!(store.artifact(g).name, "firmware.boot.image");
    assert_eq!(store.get("firmware.boot.image", ArtifactKind::Phony), Some(g));
    assert_eq!(scopes.new_goal(&mut store, boot, "image", "").unwrap(), g);
    assert_eq!(scopes.goals(boot), &vec![g]);
    let top = scopes.new_goal(&mut store, 0, "all", "").unwrap();
    assert_eq!(store.artifact(top).name, "all");

    scopes.reset(&mut store);
    assert_eq!(scopes.len(), 1);
    assert_eq!(store.len(), 0);
}
