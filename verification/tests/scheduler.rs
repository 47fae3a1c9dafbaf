use workload_sched::build_workload;
use workload_sched::check;
use workload_sched::plan;
use workload_sched::resolve_order;
use workload_sched::BatchInfo;
use workload_sched::Conflict;
use workload_sched::Mutability;
use workload_sched::SchedulingError;
use workload_sched::SystemId;
use workload_sched::SystemInfo;
use workload_sched::TypeInfo;
use workload_sched::WorkloadsInfo;

fn store(name: &str, excl: bool, id: u64, safe: bool) -> TypeInfo {
    TypeInfo {
        name: name.to_string(),
        mutability: if excl { Mutability::Exclusive } else { Mutability::Shared },
        storage_id: id,
        thread_safe: safe,
    }
}

fn unit(name: &str, id: u64, borrow: Vec<TypeInfo>) -> SystemInfo {
    SystemInfo {
        name: name.to_string(),
        type_id: id,
        borrow,
        conflict: None,
        before: Vec::new(),
        after: Vec::new(),
    }
}

#[test]
fn exclusive_vs_shared_splits_batches() {
    let u1 = unit("u1", 1, vec![store("A", true, 10, true)]);
    let u2 = unit("u2", 2, vec![store("A", false, 10, true)]);
    let batches = plan(vec![u1, u2]);
    assert_eq!(batches.len(), 2);
    assert_eq!(batches[0].systems.0, None);
    assert_eq!(batches[0].systems.1.len(), 1);
    assert_eq!(batches[0].systems.1[0].name, "u1");
    assert_eq!(batches[0].systems.1[0].conflict, None);
    assert_eq!(batches[1].systems.0, None);
    assert_eq!(batches[1].systems.1.len(), 1);
    assert_eq!(batches[1].systems.1[0].name, "u2");
    assert_eq!(
        batches[1].systems.1[0].conflict,
        Some(Conflict::Borrow {
            type_info: Some(store("A", false, 10, true)),
            other_system: SystemId { name: "u1".to_string(), type_id: 1 },
            other_type_info: store("A", true, 10, true),
        })
    );
}

#[test]
fn shared_with_shared_stays_in_one_batch() {
    let u1 = unit("u1", 1, vec![store("A", false, 10, true)]);
    let u2 = unit("u2", 2, vec![store("A", false, 10, true)]);
    let batches = plan(vec![u1, u2]);
    assert_eq!(batches.len(), 1);
    assert_eq!(batches[0].systems.0, None);
    assert_eq!(batches[0].systems.1.len(), 2);
    assert_eq!(batches[0].systems.1[0].name, "u1");
    assert_eq!(batches[0].systems.1[1].name, "u2");
    assert_eq!(batches[0].systems.1[0].conflict, None);
    assert_eq!(batches[0].systems.1[1].conflict, None);
}

#[test]
fn thread_immobile_unit_runs_solo_first() {
    let u1 = unit("u1", 1, vec![store("B", false, 20, false)]);
    let u2 = unit("u2", 2, Vec::new());
    let batches = plan(vec![u1, u2]);
    assert_eq!(batches.len(), 2);
    let solo = batches[0].systems.0.as_ref().expect("u1 must be solo");
    assert_eq!(solo.name, "u1");
    assert_eq!(solo.conflict, Some(Conflict::NotSendSync(store("B", false, 20, false))));
    assert!(batches[0].systems.1.is_empty());
    assert_eq!(batches[1].systems.0, None);
    assert_eq!(batches[1].systems.1.len(), 1);
    assert_eq!(batches[1].systems.1[0].name, "u2");
}

#[test]
fn thread_immobile_unit_runs_solo_second() {
    let u1 = unit("u1", 1, vec![store("B", false, 20, false)]);
    let u2 = unit("u2", 2, Vec::new());
    let batches = plan(vec![u2, u1]);
    assert_eq!(batches.len(), 2);
    assert_eq!(batches[0].systems.0, None);
    assert_eq!(batches[0].systems.1.len(), 1);
    assert_eq!(batches[0].systems.1[0].name, "u2");
    let solo = batches[1].systems.0.as_ref().expect("u1 must be solo");
    assert_eq!(solo.name, "u1");
    assert!(batches[1].systems.1.is_empty());
}

#[test]
fn open_batch_with_immobile_member_admits_nobody() {
    let u1 = unit("u1", 1, vec![store("B", false, 20, false)]);
    let u2 = unit("u2", 2, Vec::new());
    let placed = vec![u1];
    let r = check(&u2, &placed);
    assert_eq!(
        r,
        Err(Conflict::OtherNotSendSync {
            system: SystemId { name: "u1".to_string(), type_id: 1 },
            type_info: store("B", false, 20, false),
        })
    );
}

#[test]
fn check_against_empty_batch_succeeds() {
    let u = unit("u", 1, vec![store("A", true, 10, true)]);
    assert_eq!(check(&u, &Vec::new()), Ok(()));
}

#[test]
fn check_reports_first_conflict_in_scan_order() {
    let u1 = unit("u1", 1, vec![store("A", true, 10, true), store("B", true, 20, true)]);
    let u2 = unit("u2", 2, vec![store("B", true, 20, true), store("A", true, 10, true)]);
    let placed = vec![u1];
    let r = check(&u2, &placed);
    // u2's own accesses are scanned in declared order: B is cited, not A.
    assert_eq!(
        r,
        Err(Conflict::Borrow {
            type_info: Some(store("B", true, 20, true)),
            other_system: SystemId { name: "u1".to_string(), type_id: 1 },
            other_type_info: store("B", true, 20, true),
        })
    );
}

#[test]
fn zero_access_unit_always_joins() {
    let u1 = unit("u1", 1, vec![store("A", true, 10, true)]);
    let u2 = unit("u2", 2, Vec::new());
    let batches = plan(vec![u1, u2]);
    assert_eq!(batches.len(), 1);
    assert_eq!(batches[0].systems.1.len(), 2);
}

#[test]
fn empty_workload_plans_no_batches() {
    let batches = plan(Vec::new());
    assert!(batches.is_empty());
}

#[test]
fn replanning_is_reproducible() {
    let build = || {
        vec![
            unit("u1", 1, vec![store("A", true, 10, true)]),
            unit("u2", 2, vec![store("A", false, 10, true)]),
            unit("u3", 3, vec![store("B", false, 20, false)]),
        ]
    };
    let r1 = build_workload("w".to_string(), build()).expect("no cycle declared");
    let r2 = build_workload("w".to_string(), build()).expect("no cycle declared");
    assert_eq!(r1, r2);
    // and planning the already-annotated units changes nothing
    let mut annotated = Vec::new();
    for b in &r1.batch_info {
        for s in b.systems() {
            annotated.push(s);
        }
    }
    let replanned = plan(annotated);
    assert_eq!(replanned, r1.batch_info);
}

#[test]
fn constraint_cycle_fails_construction() {
    let mut a = unit("a", 1, Vec::new());
    a.before = vec!["b".to_string()];
    let mut b = unit("b", 2, Vec::new());
    b.before = vec!["a".to_string()];
    let r = build_workload("w".to_string(), vec![a, b]);
    match r {
        Err(SchedulingError::ConstraintCycle { units }) => {
            assert_eq!(units, vec!["a".to_string(), "b".to_string()]);
        },
        Ok(_) => panic!("a mutual before-constraint must fail construction"),
    }
}

#[test]
fn after_constraint_reorders_units() {
    let u1 = unit("u1", 1, vec![store("A", true, 10, true)]);
    let mut u2 = unit("u2", 2, vec![store("B", true, 20, true)]);
    u2.after = vec!["u1".to_string()];
    let order = resolve_order(vec![u2, u1]).expect("no cycle declared");
    assert_eq!(order.len(), 2);
    assert_eq!(order[0].name, "u1");
    assert_eq!(order[1].name, "u2");
}

#[test]
fn before_constraint_is_honored_by_build() {
    let mut u1 = unit("u1", 1, vec![store("A", true, 10, true)]);
    u1.before = vec!["u2".to_string()];
    let u2 = unit("u2", 2, vec![store("A", true, 10, true)]);
    let w = build_workload("w".to_string(), vec![u2, u1]).expect("no cycle declared");
    assert_eq!(w.name, "w");
    // both write A, so two batches, u1 first
    assert_eq!(w.batch_info.len(), 2);
    assert_eq!(w.batch_info[0].systems.1[0].name, "u1");
    assert_eq!(w.batch_info[1].systems.1[0].name, "u2");
}

#[test]
fn batch_members_lists_solo_then_parallel() {
    let u1 = unit("u1", 1, Vec::new());
    let batch = BatchInfo { systems: (Some(u1), Vec::new()) };
    let members = batch.systems();
    assert_eq!(members.len(), 1);
    assert_eq!(members[0].name, "u1");
    let batch2 = BatchInfo {
        systems: (None, vec![unit("u2", 2, Vec::new()), unit("u3", 3, Vec::new())]),
    };
    let members2 = batch2.systems();
    assert_eq!(members2.len(), 2);
    assert_eq!(members2[0].name, "u2");
    assert_eq!(members2[1].name, "u3");
}

#[test]
fn type_info_identity_ignores_cosmetics() {
    let a = store("One", true, 10, true);
    let b = store("Other", true, 10, false);
    assert_eq!(a, b);
    let c = store("One", false, 10, true);
    assert_ne!(a, c);
    let d = store("One", true, 11, true);
    assert_ne!(a, d);
}

#[test]
fn type_info_orders_by_storage_then_mode() {
    let a = store("A", false, 10, true);
    let b = store("B", true, 10, true);
    let c = store("C", false, 11, true);
    assert_eq!(a.cmp(&b), std::cmp::Ordering::Less);
    assert_eq!(b.cmp(&a), std::cmp::Ordering::Greater);
    assert_eq!(b.cmp(&c), std::cmp::Ordering::Less);
    assert_eq!(a.partial_cmp(&a), Some(std::cmp::Ordering::Equal));
    assert!(a < b);
}

#[test]
fn system_id_identity_is_the_type_id() {
    let a = SystemId { name: "x".to_string(), type_id: 7 };
    let b = SystemId { name: "y".to_string(), type_id: 7 };
    let c = SystemId { name: "x".to_string(), type_id: 8 };
    assert_eq!(a, b);
    assert_ne!(a, c);
}

#[test]
fn workloads_info_starts_empty() {
    let w = WorkloadsInfo::new();
    assert!(w.0.is_empty());
    let d = WorkloadsInfo::default();
    assert_eq!(w, d);
}

#[test]
fn duplicate_copies_every_field() {
    let mut u = unit("u1", 1, vec![store("A", true, 10, false)]);
    u.before = vec!["x".to_string()];
    u.after = vec!["y".to_string()];
    u.conflict = Some(Conflict::NotSendSync(store("A", true, 10, false)));
    let d = u.duplicate();
    assert_eq!(d, u);
    assert_eq!(d.name, "u1");
    assert_eq!(d.before, vec!["x".to_string()]);
    assert_eq!(d.after, vec!["y".to_string()]);
    assert_eq!(u.id(), SystemId { name: "u1".to_string(), type_id: 1 });
}
