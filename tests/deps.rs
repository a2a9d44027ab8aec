use gearbuild::{parse_d_deps, parse_make_deps, ArtifactKind, ArtifactStore, ArtifactType, StoreError};

#[test]
fn make_rules_with_continuations() {
    let text = "out/a.c.o: src/a.c include/a.h \\\n  include/my\\ file.h\n\n# a comment: not.h\nother.o other.d : include/a.h gen/b.h # tail.h\n";
    assert_eq!(
        parse_make_deps(text),
        vec!["src/a.c", "include/a.h", "include/my file.h", "gen/b.h"]
    );
}

#[test]
fn make_rules_crlf_and_empty() {
    assert!(parse_make_deps("").is_empty());
    assert!(parse_make_deps("target:\n").is_empty());
    assert_eq!(parse_make_deps("t: a.h\r\nu: b.h"), vec!["a.h", "b.h"]);
}

#[test]
fn d_module_lists() {
    let text = "app (src/app.d) : private : std.stdio (/usr/include/d/std/stdio.d)\napp (src/app.d) : public : util (src/util.d)\nnoise line\nx (x.d) : y ()\napp (src/app.d) : private : util (src/util.d)\n";
    assert_eq!(parse_d_deps(text), vec!["/usr/include/d/std/stdio.d", "src/util.d"]);
}

#[test]
fn dependencies_become_sources() {
    let mut s = ArtifactStore::new();
    let src = s.intern("src/a.c", ArtifactKind::Actual, ArtifactType::Source, "").unwrap();
    let obj = s.intern("a.o", ArtifactKind::Actual, ArtifactType::Product, "").unwrap();
    let x = s.add_rule(vec![src], vec![obj]).unwrap();
    let deps = parse_make_deps("a.o: src/a.c a.h b.h\n");
    let found = s.intern_deps(&deps, "src/a.c");
    assert_eq!(found.len(), 2);
    assert_eq!(s.artifact(found[0]).name, "a.h");
    assert!(s.is_source(found[1]));
    let mut inputs = vec![src];
    inputs.extend(found.iter().copied());
    assert_eq!(s.set_inputs(x, inputs.clone()), Ok(()));
    assert_eq!(s.rule(x).inputs, inputs);
    assert_eq!(s.set_inputs(x, vec![obj]), Err(StoreError::Cycle));
    assert_eq!(s.set_inputs(x, vec![99]), Err(StoreError::NoSuchArtifact));
    assert_eq!(s.rule(x).inputs, inputs);
}

#[test]
fn dependency_file_replaces_compile_inputs() {
    let mut s = ArtifactStore::new();
    let src = s.intern("x.c", ArtifactKind::Actual, ArtifactType::Source, "").unwrap();
    let obj = s.intern("x.c.o", ArtifactKind::Actual, ArtifactType::Product, "").unwrap();
    let x = s.add_rule(vec![src], vec![obj]).unwrap();
    let found = s.reload_deps(x, src, "x.c.o: x.c x.h \\\n y.h\n", gearbuild::DepKind::Make).unwrap();
    assert_eq!(found.len(), 2);
    assert_eq!(s.rule(x).inputs, vec![src, found[0], found[1]]);
    assert_eq!(s.artifact(found[1]).name, "y.h");
    assert!(!found.contains(&src));
}

#[test]
fn dependency_reload_refuses_a_later_product() {
    let mut s = ArtifactStore::new();
    let src = s.intern("x.c", ArtifactKind::Actual, ArtifactType::Source, "").unwrap();
    let obj = s.intern("x.c.o", ArtifactKind::Actual, ArtifactType::Product, "").unwrap();
    let x = s.add_rule(vec![src], vec![obj]).unwrap();
    let gen = s.intern("gen.h", ArtifactKind::Actual, ArtifactType::Product, "").unwrap();
    s.add_rule(vec![], vec![gen]).unwrap();
    assert_eq!(s.reload_deps(x, src, "x.c.o: x.c gen.h\n", gearbuild::DepKind::Make), Err(StoreError::Cycle));
    assert_eq!(s.rule(x).inputs, vec![src]);
    let found = s.reload_deps(x, src, "x (x.c) : y (y.d)\n", gearbuild::DepKind::D).unwrap();
    assert_eq!(s.artifact(found[0]).name, "y.d");
}
