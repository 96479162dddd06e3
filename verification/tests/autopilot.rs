use smart_brain::autopilot::{
    advance_waypoints, lookahead_index, plan_step, stalled_outcome, stitch_segments, PlanStep,
    StallCounters, StepOutcome, Track,
};

#[test]
fn plan_refresh_rules() {
    assert_eq!(plan_step(true, true, true, true), PlanStep::FollowRewind);
    assert_eq!(plan_step(false, true, false, false), PlanStep::NewGoal);
    assert_eq!(plan_step(false, true, true, false), PlanStep::FinishGoal);
    assert_eq!(plan_step(false, true, true, true), PlanStep::HoldStation);
    assert_eq!(plan_step(false, false, true, true), PlanStep::AdvancePath);
}

#[test]
fn waypoints_passed_are_skipped() {
    assert_eq!(advance_waypoints(&[true, true, false, true], 0), 2);
    assert_eq!(advance_waypoints(&[true, true, false, true], 3), 4);
    assert_eq!(advance_waypoints(&[false, true], 0), 0);
    assert_eq!(advance_waypoints(&[], 0), 0);
    assert_eq!(advance_waypoints(&[true], 5), 5);
}

#[test]
fn lookahead_picks_first_far_waypoint_else_last() {
    assert_eq!(lookahead_index(&[false, false, true, true], 0), Some(2));
    assert_eq!(lookahead_index(&[false, false, false], 1), Some(2));
    assert_eq!(lookahead_index(&[true, false], 1), Some(1));
    assert_eq!(lookahead_index(&[true, true], 2), None);
    assert_eq!(lookahead_index(&[], 0), None);
}

#[test]
fn stalled_step_outcomes() {
    assert_eq!(stalled_outcome(true, false, false, true), StepOutcome::Backtracking);
    assert_eq!(stalled_outcome(false, false, false, true), StepOutcome::Done);
    assert_eq!(stalled_outcome(false, false, true, false), StepOutcome::Moving);
    assert_eq!(stalled_outcome(false, true, false, true), StepOutcome::Blocked);
    assert_eq!(stalled_outcome(false, true, false, false), StepOutcome::Stuck);
}

#[test]
fn stall_counters_trigger_rewind_at_threshold() {
    let mut c = StallCounters::new();
    let mut started = Vec::new();
    for _ in 0..9 {
        started.push(c.on_stalled(8, false));
    }
    assert_eq!(started.iter().filter(|b| **b).count(), 2);
    assert!(!started[6] && started[7] && started[8]);
    assert_eq!(c.stuck, 9);
    assert!(!c.on_stalled(8, true));
    c.on_rewind(true);
    c.on_rewind(false);
    c.on_blocked();
    assert_eq!(c.backtrack_events, 1);
    assert_eq!(c.blocked, 1);
    c.on_moved();
    assert_eq!(c, StallCounters { stuck: 0, blocked: 1, backtrack_events: 1 });
}

#[test]
fn track_cruises_leg_by_leg() {
    let mut t: Track<(i32, i32)> = Track::new();
    assert_eq!(t.advance(), None);
    assert_eq!(t.set(vec![(1, 1), (2, 2), (3, 3)]), Some((1, 1)));
    assert_eq!(t.advance(), Some((2, 2)));
    assert_eq!(t.advance(), Some((3, 3)));
    assert_eq!(t.advance(), None);
    assert_eq!(t.set(Vec::new()), None);
    assert_eq!(t.advance(), None);
}

#[test]
fn smoothed_segments_are_joined() {
    let segs = vec![Some(vec![0, 1, 2]), Some(vec![2, 3, 4]), None, Some(vec![5, 6])];
    assert_eq!(stitch_segments(0, &segs), vec![0, 1, 2, 3, 4, 6]);
    let failed_first: Vec<Option<Vec<i32>>> = vec![None, Some(vec![9, 10])];
    assert_eq!(stitch_segments(7, &failed_first), vec![7, 10]);
    assert_eq!(stitch_segments(1, &[Some(Vec::new()), Some(Vec::new())]), Vec::<i32>::new());
}
