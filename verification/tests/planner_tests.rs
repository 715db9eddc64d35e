use aether::planner::{AetherPlan, PlanStatus, PlanStepStatus, PlannerManager, template_plan};
use aether::refs::{AetherError, Ref};

fn new_plan(planner: &PlannerManager) -> AetherPlan {
    planner.create_plan("Promote AETHER Multimedia Engine", None, Vec::new(), 1_000).unwrap()
}

#[test]
fn test_planner_lifecycle() {
    let planner = PlannerManager::new("/tmp/aether_planner_project".to_string());

    let plan = new_plan(&planner);
    assert_eq!(plan.status, PlanStatus::Pending);
    assert_eq!(plan.steps.len(), 6);
    assert_eq!(plan.steps[0].id, "S1");
    assert_eq!(plan.steps[0].status, PlanStepStatus::Ready);
    assert_eq!(plan.steps[1].status, PlanStepStatus::Pending);
    assert_eq!(plan.plan_id.len(), 36);

    let evidence_ref = "@v1".parse::<Ref>().ok();
    let plan = planner.check_step(plan, "S1", evidence_ref, 2_000).unwrap();
    assert_eq!(plan.steps[0].status, PlanStepStatus::Done);
    assert_eq!(plan.steps[1].status, PlanStepStatus::Ready);

    let res = planner.check_step(plan.clone(), "S3", None, 3_000);
    assert!(res.is_err());

    let plan = planner.check_step(plan, "S2", None, 4_000).unwrap();
    assert_eq!(plan.steps[1].status, PlanStepStatus::Done);
    assert_eq!(plan.steps[2].status, PlanStepStatus::Ready);
    assert_eq!(plan.steps[3].status, PlanStepStatus::Ready);

    let plan = planner.uncheck_step(plan, "S2", 5_000);
    assert_eq!(plan.steps[1].status, PlanStepStatus::Ready);
    assert_eq!(plan.steps[2].status, PlanStepStatus::Pending);
    assert_eq!(plan.steps[3].status, PlanStepStatus::Pending);

    let plan = planner.revise_plan(plan, "Please use 24fps vertical video", 6_000);
    assert_eq!(plan.steps[0].command, "init 24.0 1920x1080 srgb".to_string());
}

#[test]
fn checking_unknown_step_is_refused() {
    let planner = PlannerManager::new("p".to_string());
    let plan = new_plan(&planner);
    assert_eq!(
        planner.check_step(plan, "S9", None, 1).err(),
        Some(AetherError::OperationFailed("Step 'S9' not found in plan".to_string()))
    );
}

#[test]
fn blocked_step_names_its_dependency() {
    let planner = PlannerManager::new("p".to_string());
    let plan = new_plan(&planner);
    assert_eq!(
        planner.check_step(plan, "S5", None, 1).err(),
        Some(AetherError::OperationFailed("Cannot check step 'S5': Dependency 'S3' is not complete".to_string()))
    );
}

#[test]
fn checking_every_step_finishes_the_plan() {
    let planner = PlannerManager::new("p".to_string());
    let mut plan = new_plan(&planner);
    for id in ["S1", "S2", "S3", "S4", "S5", "S6"] {
        plan = planner.check_step(plan, id, None, 7).unwrap();
    }
    assert_eq!(plan.status, PlanStatus::Done);
    assert_eq!(planner.next_step(&plan).map(|s| s.id), None);
    assert_eq!(plan.updated_at_ms, 7);
}

#[test]
fn unchecking_resets_transitive_dependents() {
    let planner = PlannerManager::new("p".to_string());
    let mut plan = new_plan(&planner);
    for id in ["S1", "S2", "S3", "S4", "S5"] {
        plan = planner.check_step(plan, id, None, 7).unwrap();
    }
    let plan = planner.uncheck_step(plan, "S2", 8);
    assert_eq!(plan.steps[0].status, PlanStepStatus::Done);
    assert_eq!(plan.steps[1].status, PlanStepStatus::Ready);
    for i in 2..6 {
        assert_eq!(plan.steps[i].status, PlanStepStatus::Pending);
        assert!(plan.steps[i].evidence.is_none());
    }
    assert_eq!(plan.status, PlanStatus::Running);
    assert_eq!(planner.next_step(&plan).unwrap().id, "S2");
}

#[test]
fn revision_without_hint_needs_revision() {
    let planner = PlannerManager::new("p".to_string());
    let plan = planner.revise_plan(new_plan(&planner), "shorter please", 9);
    assert_eq!(plan.status, PlanStatus::NeedsRevision);
    assert_eq!(plan.assumptions.last().unwrap(), "Revision Instruction: shorter please");
    let plan = planner.revise_plan(plan, "make it 9:16", 10);
    assert_eq!(plan.status, PlanStatus::Running);
    assert_eq!(plan.steps[0].command, "init 30.0 1080x1920 srgb");
    assert_eq!(plan.steps[0].validation, "snapshot settings fps=30.0 width=1080 height=1920");
}

#[test]
fn template_commands_mention_objective() {
    let plan = template_plan("Spring sale", "id-1".to_string(), vec!["note".to_string()], 3);
    assert_eq!(plan.steps[1].command, "generate storyboard-scratch \"Commercial sequence for Spring sale\"");
    assert_eq!(plan.assumptions.len(), 3);
    assert_eq!(plan.assumptions[2], "note");
    assert_eq!(plan.steps[4].depends_on, vec!["S3".to_string(), "S4".to_string()]);
}

#[test]
fn plan_path_and_active_project() {
    let planner = PlannerManager::new("/work/proj".to_string());
    assert_eq!(planner.plan_path("abc"), "/work/proj/.aether/plans/abc.json");
    assert!(PlannerManager::load_active(Ok("/x".to_string())).is_ok());
    assert_eq!(
        PlannerManager::load_active(Err(AetherError::OperationFailed("x".to_string()))).err(),
        Some(AetherError::OperationFailed("No active AETHER project found".to_string()))
    );
}

#[test]
fn parse_error_of_supplied_plan_is_reported() {
    let planner = PlannerManager::new("p".to_string());
    assert_eq!(
        planner.create_plan("o", Some(Err("expected value".to_string())), Vec::new(), 0).err(),
        Some(AetherError::OperationFailed("Failed to parse plan JSON: expected value".to_string()))
    );
}

#[test]
fn unchecking_a_just_checked_step_restores_the_plan() {
    let planner = PlannerManager::new("p".to_string());
    let plan = new_plan(&planner);
    let plan = planner.check_step(plan, "S1", None, 2).unwrap();
    let before: Vec<(PlanStepStatus, bool)> = plan.steps.iter().map(|s| (s.status, s.evidence.is_some())).collect();
    let checked = planner.check_step(plan, "S2", None, 3).unwrap();
    assert_eq!(checked.steps[1].status, PlanStepStatus::Done);
    let unchecked = planner.uncheck_step(checked, "S2", 4);
    let after: Vec<(PlanStepStatus, bool)> = unchecked.steps.iter().map(|s| (s.status, s.evidence.is_some())).collect();
    assert_eq!(before, after);
}

#[test]
fn plan_ids_are_hyphenated_v4_uuids() {
    let planner = PlannerManager::new("p".to_string());
    let plan = new_plan(&planner);
    let cs: Vec<char> = plan.plan_id.chars().collect();
    assert_eq!(cs.len(), 36);
    for (i, c) in cs.iter().enumerate() {
        if i == 8 || i == 13 || i == 18 || i == 23 {
            assert_eq!(*c, '-');
        } else {
            assert!(c.is_ascii_digit() || ('a'..='f').contains(c));
        }
    }
    assert_eq!(cs[14], '4');
    assert!(['8', '9', 'a', 'b'].contains(&cs[19]));
}
