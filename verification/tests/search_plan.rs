use htknow::api::search::{advanced_plan_step, PlanAction, PlanEvent, PlanState, PlanStepKind};

fn step(state: PlanState, event: PlanEvent) -> (PlanState, PlanAction) {
    advanced_plan_step(state, event)
}

#[test]
fn plan_run_asks_planner_with_at_least_one_sub_query() {
    let (s, a) = step(PlanState::Idle, PlanEvent::Begin { max_sub_queries: 0 });
    assert_eq!(a, PlanAction::CallPlanner { limit: 1 });
    assert!(matches!(s, PlanState::AwaitingPlan));
    let (_, a) = step(PlanState::Idle, PlanEvent::Begin { max_sub_queries: 4 });
    assert_eq!(a, PlanAction::CallPlanner { limit: 4 });
}

#[test]
fn plan_run_empty_plan_finishes_with_nothing() {
    let (s, a) = step(PlanState::AwaitingPlan, PlanEvent::Planned(vec![]));
    assert_eq!(a, PlanAction::Finish { selected: false });
    assert!(matches!(s, PlanState::Finished { selected: false }));
    let (s, a) = step(s, PlanEvent::Continue);
    assert_eq!(a, PlanAction::Ignore);
    assert!(matches!(s, PlanState::Finished { selected: false }));
}

#[test]
fn plan_run_planner_not_asked_twice() {
    let (s, _) = step(PlanState::Idle, PlanEvent::Begin { max_sub_queries: 3 });
    let (s, a) = step(s, PlanEvent::Begin { max_sub_queries: 3 });
    assert_eq!(a, PlanAction::Ignore);
    assert!(matches!(s, PlanState::AwaitingPlan));
}

#[test]
fn plan_run_full_flow_stops_at_selection() {
    let steps = vec![
        PlanStepKind::RecentDocuments,
        PlanStepKind::DocumentStructure,
        PlanStepKind::PageContent,
        PlanStepKind::PageContent,
    ];
    let (s, a) = step(PlanState::AwaitingPlan, PlanEvent::Planned(steps));
    assert_eq!(a, PlanAction::AnnouncePlan);
    let (s, a) = step(s, PlanEvent::Continue);
    assert_eq!(a, PlanAction::CollectCandidates { step: 0 });
    let (s, a) = step(s, PlanEvent::Candidates(3));
    assert_eq!(a, PlanAction::CompleteCollection { step: 0, count: 3 });
    let (s, a) = step(s, PlanEvent::Continue);
    assert_eq!(a, PlanAction::SkipStructure { step: 1 });
    let (s, a) = step(s, PlanEvent::Continue);
    assert_eq!(a, PlanAction::RunPageStep { step: 2 });
    let (s, a) = step(s, PlanEvent::PageOutcome(true));
    assert_eq!(a, PlanAction::Finish { selected: true });
    let (_, a) = step(s, PlanEvent::Continue);
    assert_eq!(a, PlanAction::Ignore);
}

#[test]
fn plan_run_page_step_refills_then_skips_when_still_empty() {
    let steps = vec![PlanStepKind::PageContent, PlanStepKind::PageContent];
    let (s, _) = step(PlanState::AwaitingPlan, PlanEvent::Planned(steps));
    let (s, a) = step(s, PlanEvent::Continue);
    assert_eq!(a, PlanAction::CollectCandidates { step: 0 });
    let (s, a) = step(s, PlanEvent::Candidates(0));
    assert_eq!(a, PlanAction::SkipNoSlices { step: 0 });
    let (s, a) = step(s, PlanEvent::Continue);
    assert_eq!(a, PlanAction::CollectCandidates { step: 1 });
    let (s, a) = step(s, PlanEvent::Candidates(2));
    assert_eq!(a, PlanAction::RunPageStep { step: 1 });
    let (s, a) = step(s, PlanEvent::PageOutcome(false));
    assert_eq!(a, PlanAction::CompletePageStep { step: 1 });
    let (s, a) = step(s, PlanEvent::Continue);
    assert_eq!(a, PlanAction::Finish { selected: false });
    assert!(matches!(s, PlanState::Finished { selected: false }));
}

#[test]
fn plan_run_candidates_kept_after_unsuccessful_page_step() {
    let steps = vec![PlanStepKind::RecentDocuments, PlanStepKind::PageContent, PlanStepKind::PageContent];
    let (s, _) = step(PlanState::AwaitingPlan, PlanEvent::Planned(steps));
    let (s, _) = step(s, PlanEvent::Continue);
    let (s, _) = step(s, PlanEvent::Candidates(1));
    let (s, a) = step(s, PlanEvent::Continue);
    assert_eq!(a, PlanAction::RunPageStep { step: 1 });
    let (s, _) = step(s, PlanEvent::PageOutcome(false));
    let (_, a) = step(s, PlanEvent::Continue);
    assert_eq!(a, PlanAction::RunPageStep { step: 2 });
}
