use gearbuild::{
    ArtifactKind, ArtifactStore, ArtifactType, BuildError, BuildRun, Diagnostic, Diagnostics, RuleState, Severity,
};

fn source(s: &mut ArtifactStore, name: &str, time: u64) -> usize {
    let a = s.intern(name, ArtifactKind::Actual, ArtifactType::Source, "").unwrap();
    s.set_time(a, time);
    a
}

fn product(s: &mut ArtifactStore, name: &str) -> usize {
    s.intern(name, ArtifactKind::Actual, ArtifactType::Product, "").unwrap()
}

#[test]
fn runs_never_exceed_jobs() {
    for jobs in [1usize, 4] {
        let mut s = ArtifactStore::new();
        let all = s.intern("all", ArtifactKind::Phony, ArtifactType::Product, "").unwrap();
        let mut objs = Vec::new();
        for i in 0..8 {
            let c = source(&mut s, &format!("s{}.c", i), 1);
            let o = product(&mut s, &format!("s{}.o", i));
            s.add_rule(vec![c], vec![o]).unwrap();
            objs.push(o);
        }
        s.add_rule(objs.clone(), vec![all]).unwrap();
        let mut run = BuildRun::new(&mut s, &vec![all], jobs);
        let mut now = 10;
        let mut ran = 0;
        loop {
            let started = run.top_up(&mut s);
            assert!(run.running.len() <= jobs);
            for &x in &started {
                assert_eq!(s.rule(x).state, RuleState::Processing);
            }
            if let Some(result) = run.outcome() {
                assert_eq!(result, Ok(()));
                break;
            }
            now += 1;
            run.complete(&mut s, 0, Diagnostics(vec![]), now).unwrap();
            ran += 1;
        }
        assert_eq!(ran, 9);
        for &o in &objs {
            assert!(s.artifact(o).time > 10);
        }
    }
}

#[test]
fn failed_compile_leaves_link_unstarted() {
    let mut s = ArtifactStore::new();
    let a = source(&mut s, "a.c", 10);
    let b = source(&mut s, "b.c", 10);
    let ao = product(&mut s, "a.o");
    let bo = product(&mut s, "b.o");
    let bin = product(&mut s, "app");
    let ca = s.add_rule(vec![a], vec![ao]).unwrap();
    let cb = s.add_rule(vec![b], vec![bo]).unwrap();
    let link = s.add_rule(vec![ao, bo], vec![bin]).unwrap();
    let mut run = BuildRun::new(&mut s, &vec![bin], 4);
    let started = run.top_up(&mut s);
    assert_eq!(started, vec![ca, cb]);
    let failure = Diagnostics(vec![Diagnostic { severity: Severity::Error, ..Default::default() }]);
    assert!(run.complete(&mut s, 0, failure, 20).is_err());
    assert!(run.top_up(&mut s).is_empty());
    assert!(run.complete(&mut s, 0, Diagnostics(vec![]), 21).is_ok());
    assert!(run.top_up(&mut s).is_empty());
    assert_eq!(run.queue, vec![link]);
    assert_eq!(run.outcome(), Some(Err(BuildError::CannotBeBuilt)));
    assert_eq!(run.failed, 1);
}
