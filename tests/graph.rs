use gearbuild::{
    ArtifactKind, ArtifactStore, ArtifactType, Diagnostic, Diagnostics, RuleState, Severity,
    StoreError,
};

fn source(s: &mut ArtifactStore, name: &str, time: u64) -> usize {
    let a = s.intern(name, ArtifactKind::Actual, ArtifactType::Source, "").unwrap();
    s.set_time(a, time);
    a
}

fn product(s: &mut ArtifactStore, name: &str) -> usize {
    s.intern(name, ArtifactKind::Actual, ArtifactType::Product, "").unwrap()
}

fn goal(s: &mut ArtifactStore, name: &str) -> usize {
    s.intern(name, ArtifactKind::Phony, ArtifactType::Product, "").unwrap()
}

/// Runs every scheduled rule to success, `jobs` at a time, stamping outputs
/// with increasing times from `now`; gives the rules in the order they ran.
fn build(s: &mut ArtifactStore, goals: &Vec<usize>, jobs: usize, mut now: u64) -> (Vec<usize>, usize) {
    let mut queue = s.schedule(goals);
    s.mark_scheduled(&queue);
    let mut order = Vec::new();
    let mut widest = 0;
    loop {
        let batch = s.pick(&mut queue, 0, jobs);
        if batch.is_empty() {
            break;
        }
        widest = widest.max(batch.len());
        for &x in &batch {
            s.set_state(x, RuleState::Processing);
        }
        for &x in &batch {
            now += 1;
            s.finish_rule(x, Diagnostics(vec![]), now).unwrap();
            order.push(x);
        }
    }
    assert!(queue.is_empty());
    (order, widest)
}

#[test]
fn interning_reuses_and_separates() {
    let mut s = ArtifactStore::new();
    let a = source(&mut s, "a.c", 1);
    let b = source(&mut s, "b.c", 1);
    assert_ne!(a, b);
    assert_eq!(s.intern("a.c", ArtifactKind::Actual, ArtifactType::Source, "again"), Ok(a));
    assert_eq!(s.get("a.c", ArtifactKind::Actual), Some(a));
    assert_eq!(s.get("a.c", ArtifactKind::Phony), None);
    let p = goal(&mut s, "a.c");
    assert_ne!(p, a);
    assert_eq!(s.len(), 3);
    assert_eq!(s.artifact(a).time, 1);
    assert_eq!(s.artifact(p).time, 0);
}

#[test]
fn sources_cannot_become_products() {
    let mut s = ArtifactStore::new();
    let _ = source(&mut s, "a.c", 1);
    assert_eq!(
        s.intern("a.c", ArtifactKind::Actual, ArtifactType::Product, ""),
        Err(StoreError::Reuse)
    );
    let o = product(&mut s, "a.o");
    let a = s.get("a.c", ArtifactKind::Actual).unwrap();
    s.add_rule(vec![a], vec![o]).unwrap();
    assert_eq!(
        s.intern("a.o", ArtifactKind::Actual, ArtifactType::Product, ""),
        Err(StoreError::Reuse)
    );
    assert_eq!(s.intern("a.o", ArtifactKind::Actual, ArtifactType::Source, ""), Ok(o));
}

#[test]
fn rule_needs_outputs() {
    let mut s = ArtifactStore::new();
    let a = source(&mut s, "a.c", 1);
    assert_eq!(s.add_rule(vec![a], vec![]), Err(StoreError::NoOutputs));
    assert_eq!(s.add_rule(vec![a], vec![7]), Err(StoreError::NoSuchArtifact));
    assert_eq!(s.add_rule(vec![], vec![a]), Err(StoreError::Produced));
    assert_eq!(s.rule_count(), 0);
}

#[test]
fn rule_refuses_cycles() {
    let mut s = ArtifactStore::new();
    let a = source(&mut s, "a.c", 1);
    let o = product(&mut s, "a.o");
    let g = goal(&mut s, "all");
    s.add_rule(vec![o], vec![g]).unwrap();
    assert_eq!(s.add_rule(vec![a], vec![o]), Err(StoreError::Cycle));
    let p = product(&mut s, "p");
    assert_eq!(s.add_rule(vec![p], vec![p]), Err(StoreError::Cycle));
    assert_eq!(s.add_rule(vec![g], vec![g]), Err(StoreError::Produced));
}

#[test]
fn rule_id_hashes_output_names() {
    let mut s1 = ArtifactStore::new();
    let a = source(&mut s1, "a.c", 1);
    let o = product(&mut s1, "a.o");
    let m = product(&mut s1, "a.map");
    let x = s1.add_rule(vec![a], vec![o, m]).unwrap();

    let mut s2 = ArtifactStore::new();
    let m2 = product(&mut s2, "a.map");
    let o2 = product(&mut s2, "a.o");
    let y = s2.add_rule(vec![], vec![o2, m2]).unwrap();
    assert_eq!(s1.rule(x).id, s2.rule(y).id);

    let mut s3 = ArtifactStore::new();
    let o3 = product(&mut s3, "a.o");
    let m3 = product(&mut s3, "a.map");
    let z = s3.add_rule(vec![], vec![m3, o3]).unwrap();
    assert_ne!(s1.rule(x).id, s3.rule(z).id);
}

#[test]
fn empty_goal_set_runs_nothing() {
    let mut s = ArtifactStore::new();
    let a = source(&mut s, "a.c", 5);
    let o = product(&mut s, "a.o");
    let g = goal(&mut s, "all");
    s.add_rule(vec![a], vec![o]).unwrap();
    s.add_rule(vec![o], vec![g]).unwrap();
    assert!(s.schedule(&vec![]).is_empty());
}

#[test]
fn phony_goal_without_rule_is_never_scheduled() {
    let mut s = ArtifactStore::new();
    let g = goal(&mut s, "lonely");
    assert!(s.schedule(&vec![g]).is_empty());
    assert!(!s.outdated_exec(g));
    assert_eq!(s.goals_by_name(&vec!["lonely".to_string(), "missing".to_string()]), vec![g]);
}

#[test]
fn older_input_skips_rule() {
    let mut s = ArtifactStore::new();
    let a = source(&mut s, "a.c", 5);
    let o = product(&mut s, "a.o");
    let x = s.add_rule(vec![a], vec![o]).unwrap();
    s.set_time(o, 9);
    assert!(!s.outdated_exec(o));
    assert!(s.schedule(&vec![o]).is_empty());
    s.set_time(a, 10);
    assert!(s.outdated_exec(o));
    assert_eq!(s.schedule(&vec![o]), vec![x]);
}

#[test]
fn two_sources_one_app() {
    let mut s = ArtifactStore::new();
    let a = source(&mut s, "a.c", 10);
    let b = source(&mut s, "b.c", 10);
    let ao = product(&mut s, "a.c.o");
    let bo = product(&mut s, "b.c.o");
    let bin = product(&mut s, "app.bin");
    let app = goal(&mut s, "app");
    let ca = s.add_rule(vec![a], vec![ao]).unwrap();
    let cb = s.add_rule(vec![b], vec![bo]).unwrap();
    let link = s.add_rule(vec![ao, bo], vec![bin]).unwrap();
    let top = s.add_rule(vec![bin], vec![app]).unwrap();

    let goals = s.goals_by_name(&vec!["app".to_string()]);
    assert_eq!(goals, vec![app]);
    assert_eq!(s.schedule(&goals), vec![ca, cb, link, top]);
    let (order, _) = build(&mut s, &goals, 4, 100);
    assert_eq!(order, vec![ca, cb, link, top]);
    assert_eq!(s.rule(link).state, RuleState::Processed);

    assert!(s.update_source("a.c", 200, None));
    assert!(!s.update_source("a.c", 150, None));
    assert!(!s.update_source("a.c.o", 300, None));
    assert_eq!(s.artifact(a).time, 200);
    assert_eq!(s.schedule(&goals), vec![ca, link, top]);
}

#[test]
fn generated_header_reruns_its_compile_only() {
    let mut s = ArtifactStore::new();
    let spec = source(&mut s, "x.h.in", 1);
    let hdr = product(&mut s, "x.h");
    let gen = s.add_rule(vec![spec], vec![hdr]).unwrap();
    let xc = source(&mut s, "x.c", 1);
    let yc = source(&mut s, "y.c", 1);
    let xo = product(&mut s, "x.c.o");
    let yo = product(&mut s, "y.c.o");
    let cx = s.add_rule(vec![xc, hdr], vec![xo]).unwrap();
    let cy = s.add_rule(vec![yc], vec![yo]).unwrap();
    let all = goal(&mut s, "all");
    let top = s.add_rule(vec![xo, yo], vec![all]).unwrap();
    let goals = vec![all];
    build(&mut s, &goals, 2, 10);
    let newer = s.artifact(xo).time + 1;
    s.set_time(hdr, newer);
    let again = s.schedule(&goals);
    assert_eq!(again, vec![cx, top]);
    assert!(!again.contains(&gen));
    assert!(!again.contains(&cy));
}

#[test]
fn parallelism_bounds_running_rules() {
    for jobs in [1usize, 4] {
        let mut s = ArtifactStore::new();
        let all = goal(&mut s, "all");
        let mut objs = Vec::new();
        for i in 0..8 {
            let c = source(&mut s, &format!("s{}.c", i), 1);
            let o = product(&mut s, &format!("s{}.c.o", i));
            s.add_rule(vec![c], vec![o]).unwrap();
            objs.push(o);
        }
        s.add_rule(objs.clone(), vec![all]).unwrap();
        let (order, widest) = build(&mut s, &vec![all], jobs, 10);
        assert_eq!(order.len(), 9);
        assert_eq!(widest, jobs);
        for &o in &objs {
            assert!(s.artifact(o).time > 10);
        }
    }
}

#[test]
fn pick_respects_room_and_readiness() {
    let mut s = ArtifactStore::new();
    let a = source(&mut s, "a.c", 10);
    let ao = product(&mut s, "a.o");
    let bin = product(&mut s, "bin");
    let ca = s.add_rule(vec![a], vec![ao]).unwrap();
    let link = s.add_rule(vec![ao], vec![bin]).unwrap();
    let mut queue = s.schedule(&vec![bin]);
    assert_eq!(queue, vec![ca, link]);
    assert!(s.pick(&mut queue, 2, 2).is_empty());
    let picked = s.pick(&mut queue, 0, 4);
    assert_eq!(picked, vec![ca]);
    assert_eq!(queue, vec![link]);
    assert!(s.ready_inputs(ca));
    assert!(!s.ready_inputs(link));
}

#[test]
fn failing_compile_blocks_link() {
    let mut s = ArtifactStore::new();
    let a = source(&mut s, "a.c", 10);
    let ao = product(&mut s, "a.o");
    let bin = product(&mut s, "bin");
    let ca = s.add_rule(vec![a], vec![ao]).unwrap();
    let link = s.add_rule(vec![ao], vec![bin]).unwrap();
    let mut queue = s.schedule(&vec![bin]);
    s.mark_scheduled(&queue);
    assert_eq!(s.rule(link).state, RuleState::Scheduled);
    let picked = s.pick(&mut queue, 0, 4);
    assert_eq!(picked, vec![ca]);
    let failure = Diagnostics(vec![Diagnostic { severity: Severity::Error, ..Default::default() }]);
    assert_eq!(s.finish_rule(ca, failure, 50), Err(StoreError::Failed));
    assert_eq!(s.artifact(ao).time, 0);
    assert_eq!(s.rule(ca).state, RuleState::Processed);
    assert!(s.rule(ca).diagnostics.is_failed());
    assert!(s.pick(&mut queue, 0, 4).is_empty());
    assert_eq!(queue, vec![link]);
}

#[test]
fn rebuild_after_full_build_schedules_only_phony() {
    let mut s = ArtifactStore::new();
    let a = source(&mut s, "a.c", 10);
    let ao = product(&mut s, "a.o");
    let all = goal(&mut s, "all");
    let ca = s.add_rule(vec![a], vec![ao]).unwrap();
    let top = s.add_rule(vec![ao], vec![all]).unwrap();
    build(&mut s, &vec![all], 1, 20);
    assert_eq!(s.schedule(&vec![all]), vec![top]);
    assert!(s.schedule(&vec![ao]).is_empty());
    let _ = ca;
}

#[test]
fn goal_order_does_not_matter() {
    let mut s = ArtifactStore::new();
    let a = source(&mut s, "a.c", 10);
    let b = source(&mut s, "b.c", 10);
    let ao = product(&mut s, "a.o");
    let bo = product(&mut s, "b.o");
    let ga = goal(&mut s, "ga");
    let gb = goal(&mut s, "gb");
    s.add_rule(vec![a], vec![ao]).unwrap();
    s.add_rule(vec![b], vec![bo]).unwrap();
    s.add_rule(vec![ao], vec![ga]).unwrap();
    s.add_rule(vec![bo, ao], vec![gb]).unwrap();
    let mut one = s.schedule(&vec![ga, gb]);
    let mut two = s.schedule(&vec![gb, ga, gb]);
    one.sort();
    two.sort();
    assert_eq!(one, two);
}

#[test]
fn names_of_states_and_kinds() {
    assert_eq!(RuleState::Scheduled.as_str(), "scheduled");
    assert_eq!(RuleState::default(), RuleState::Processed);
    assert_eq!(ArtifactKind::Phony.as_str(), "phony");
    assert_eq!(ArtifactType::Product.as_str(), "product");
}

#[test]
fn pick_makes_one_pass() {
    let mut s = ArtifactStore::new();
    let a = source(&mut s, "a.c", 10);
    let b = source(&mut s, "b.c", 10);
    let ao = product(&mut s, "a.o");
    let bo = product(&mut s, "b.o");
    let x = product(&mut s, "x");
    let y = product(&mut s, "y");
    let ca = s.add_rule(vec![a], vec![ao]).unwrap();
    let cb = s.add_rule(vec![b], vec![bo]).unwrap();
    let lx = s.add_rule(vec![ao], vec![x]).unwrap();
    let ly = s.add_rule(vec![bo], vec![y]).unwrap();
    let mut queue = vec![lx, ca, ly, cb];
    let picked = s.pick(&mut queue, 0, 1);
    assert_eq!(picked, vec![ca]);
    assert_eq!(queue, vec![ly, cb, lx]);
    let picked = s.pick(&mut queue, 1, 3);
    assert_eq!(picked, vec![cb]);
    assert_eq!(queue, vec![ly, lx]);
}

#[test]
fn inputs_of_artifacts() {
    let mut s = ArtifactStore::new();
    let a = source(&mut s, "a.c", 1);
    let h = source(&mut s, "a.h", 1);
    let o = product(&mut s, "a.o");
    s.add_rule(vec![a, h], vec![o]).unwrap();
    assert_eq!(s.inputs_of(o), vec![a, h]);
    assert!(s.inputs_of(a).is_empty());
}
