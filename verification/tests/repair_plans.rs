use atomic_repository::selective_repair::{
    evaluate_selective_repair_plan, isolation_lookups, OrderedChange, PathEvidence, PlanDefect, Replacement,
    SelectiveRepairEvaluation, SelectiveRepairPhase, SelectiveRepairPlan,
    SelectiveRepairTimestamps, StructuralBlocker, SELECTIVE_REPAIR_PLAN_VERSION,
};
use atomic_repository::types::ContentHash;

fn hash(byte: u8) -> ContentHash {
    let mut half: u128 = 0;
    for _ in 0..16 {
        half = (half << 8) | byte as u128;
    }
    ContentHash { hi: half, lo: half }
}

fn plan() -> SelectiveRepairPlan {
    let target = hash(1);
    let blocker = hash(2);
    let commuting = hash(3);
    let target_replacement = hash(11);
    let blocker_replacement = hash(12);
    SelectiveRepairPlan {
        version: SELECTIVE_REPAIR_PLAN_VERSION,
        plan_id: "repair-1".to_string(),
        generation: 0,
        phase: SelectiveRepairPhase::ReadyToPublish,
        view: "dev".to_string(),
        original_state: hash(9),
        original_order: vec![
            OrderedChange { change: target, order: 1 },
            OrderedChange { change: blocker, order: 2 },
            OrderedChange { change: commuting, order: 3 },
        ],
        target,
        blockers: vec![StructuralBlocker { change: blocker, references: vec![target] }],
        commuting: vec![commuting],
        replacements: vec![
            (
                target,
                Replacement {
                    original: target,
                    replacement: target_replacement,
                    patch_relink: Some(hash(20)),
                    provenance_relinks: vec![hash(21)],
                },
            ),
            (
                blocker,
                Replacement {
                    original: blocker,
                    replacement: blocker_replacement,
                    patch_relink: Some(hash(23)),
                    provenance_relinks: vec![hash(22)],
                },
            ),
        ],
        replacement_order: vec![
            OrderedChange { change: target_replacement, order: 1 },
            OrderedChange { change: blocker_replacement, order: 2 },
        ],
        original_provenance: vec![(target, vec![hash(31)]), (blocker, vec![hash(32)])],
        evaluation: None,
        timestamps: SelectiveRepairTimestamps {
            created_at: "2026-09-10T00:00:00Z".into(),
            updated_at: "2026-09-10T00:00:00Z".into(),
            completed_at: None,
        },
    }
}

#[test]
fn valid_ready_plan_passes_validation() {
    assert!(plan().validate().is_ok());
}

#[test]
fn rejects_unaccounted_later_change() {
    let mut plan = plan();
    plan.commuting.clear();
    assert!(plan.validate().is_err());
}

#[test]
fn evaluated_plan_requires_complete_candidate_partition() {
    let mut plan = plan();
    plan.phase = SelectiveRepairPhase::Evaluated;
    plan.evaluation = Some(SelectiveRepairEvaluation {
        confirmed_blockers: vec![hash(2)],
        context_only: Vec::new(),
        surviving_paths: Vec::new(),
    });
    assert!(plan.validate().is_ok());
    plan.evaluation.as_mut().unwrap().confirmed_blockers.clear();
    assert!(plan.validate().is_err());
}

#[test]
fn rejects_incomplete_ready_plan() {
    let mut plan = plan();
    plan.replacements.retain(|(key, _)| *key != hash(2));
    plan.replacement_order.pop();

    assert!(plan.validate().is_err());
}

#[test]
fn each_defect_is_found() {
    let mut p = plan();
    p.version = 99;
    assert_eq!(p.find_defect(), Some(PlanDefect::UnsupportedVersion));
    let mut p = plan();
    p.plan_id = "  ".to_string();
    assert_eq!(p.find_defect(), Some(PlanDefect::BlankIdentity));
    let mut p = plan();
    p.timestamps.updated_at = String::new();
    assert_eq!(p.find_defect(), Some(PlanDefect::BlankTimestamps));
    let mut p = plan();
    p.original_order[1].order = 1;
    assert_eq!(p.find_defect(), Some(PlanDefect::OriginalOrder));
    let mut p = plan();
    p.target = hash(40);
    assert_eq!(p.find_defect(), Some(PlanDefect::TargetNotOnce));
    let mut p = plan();
    p.blockers[0].references.clear();
    assert_eq!(p.find_defect(), Some(PlanDefect::BlockerWithoutReference));
    assert_eq!(plan().find_defect(), None);
}

#[test]
fn evaluation_confirms_blockers_whose_paths_change() {
    let mut planned = plan();
    planned.phase = SelectiveRepairPhase::Planned;
    let evidence = vec![vec![PathEvidence {
        path: "file.txt".to_string(),
        with_candidate: Some(Some(b"with".to_vec())),
        without_candidate: Some(Some(b"without".to_vec())),
    }]];
    let evaluated = evaluate_selective_repair_plan(
        Some(planned),
        hash(9),
        "dev",
        &evidence,
        "2026-09-11T00:00:00Z".to_string(),
    )
    .unwrap();
    assert_eq!(evaluated.phase, SelectiveRepairPhase::Evaluated);
    assert!(evaluated.validate().is_ok());
    let evaluation = evaluated.evaluation.as_ref().unwrap();
    assert_eq!(
        evaluation.confirmed_blockers.len() + evaluation.context_only.len(),
        1
    );
    assert_eq!(evaluated.timestamps.updated_at, "2026-09-11T00:00:00Z");
}

#[test]
fn evaluation_needs_a_plan() {
    let evaluated = evaluate_selective_repair_plan(
        None,
        hash(9),
        "dev",
        &Vec::new(),
        "2026-09-11T00:00:00Z".to_string(),
    );
    assert!(evaluated.is_err());
}

#[test]
fn isolation_is_judged_path_by_path() {
    let paths = vec!["b.txt".to_string(), "a.txt".to_string(), "b.txt".to_string()];
    let asked = isolation_lookups(&plan(), 0, &paths);
    assert_eq!(
        asked,
        vec![
            ("a.txt".to_string(), vec![hash(1)], vec![hash(1), hash(2)]),
            ("b.txt".to_string(), vec![hash(1)], vec![hash(1), hash(2)]),
        ]
    );
    assert!(isolation_lookups(&plan(), 0, &Vec::new()).is_empty());
}
