use smart_brain::behavior::{
    battery_status, detect_status, takeoff_status, track_status, invert, selector_step, sequence_step, Cruise, Failsafe, GpsFixCheck, Land, LogNode,
    ReturnHome, Retry, RetryStep, Status, Step,
};

#[test]
fn status_semantics() {
    assert!(Status::Running.is_running());
    assert!(!Status::Success.is_running());
    assert!(!Status::Failure.is_running());
    assert_eq!(Status::Success, Status::Success);
}

#[test]
fn sequence_rule() {
    assert_eq!(sequence_step(0, 3, Status::Success), Step::Continue(1));
    assert_eq!(sequence_step(2, 3, Status::Success), Step::Return(Status::Success, 0));
    assert_eq!(sequence_step(1, 3, Status::Failure), Step::Return(Status::Failure, 0));
    assert_eq!(sequence_step(1, 3, Status::Running), Step::Return(Status::Running, 1));
}

#[test]
fn selector_rule() {
    assert_eq!(selector_step(0, 2, Status::Failure), Step::Continue(1));
    assert_eq!(selector_step(1, 2, Status::Failure), Step::Return(Status::Failure, 0));
    assert_eq!(selector_step(1, 2, Status::Success), Step::Return(Status::Success, 0));
    assert_eq!(selector_step(0, 2, Status::Running), Step::Return(Status::Running, 0));
}

#[test]
fn inverter_rule() {
    assert_eq!(invert(Status::Success), Status::Failure);
    assert_eq!(invert(Status::Failure), Status::Success);
    assert_eq!(invert(Status::Running), Status::Running);
}

#[test]
fn retry_gives_up_after_max_attempts() {
    // three retries: four tries in all
    let mut r = Retry::new(3);
    assert_eq!(r.on_child(Status::Failure), RetryStep::Retry);
    assert_eq!(r.on_child(Status::Failure), RetryStep::Retry);
    assert_eq!(r.on_child(Status::Failure), RetryStep::Retry);
    assert_eq!(r.on_child(Status::Failure), RetryStep::Return(Status::Failure));
    // the count starts over
    assert_eq!(r.on_child(Status::Failure), RetryStep::Retry);
    assert_eq!(r.on_child(Status::Success), RetryStep::Return(Status::Success));
    assert_eq!(r.on_child(Status::Running), RetryStep::Return(Status::Running));
    // one retry: the first failure is retried
    let mut one = Retry::new(1);
    assert_eq!(one.on_child(Status::Failure), RetryStep::Retry);
    assert_eq!(one.on_child(Status::Failure), RetryStep::Return(Status::Failure));
    // no retries: the first failure fails
    let mut none = Retry::new(0);
    assert_eq!(none.on_child(Status::Failure), RetryStep::Return(Status::Failure));
}

#[test]
fn gps_fix_check_success_failure_running() {
    let c = GpsFixCheck::new(6);
    assert_eq!(c.check(None), Status::Running);
    assert_eq!(c.check(Some((true, 8))), Status::Success);
    assert_eq!(c.check(Some((true, 4))), Status::Failure);
    assert_eq!(c.check(Some((false, 12))), Status::Failure);
}

#[test]
fn return_home_runs_then_succeeds() {
    let mut n = ReturnHome::new();
    assert_eq!(n.advance(), Status::Running);
    assert_eq!(n.advance(), Status::Success);
    n.reset();
    assert_eq!(n.advance(), Status::Running);
}

#[test]
fn land_succeeds_at_ground() {
    let mut n = Land::new();
    assert_eq!(n.advance(None), Status::Running);
    assert_eq!(n.advance(Some(false)), Status::Running);
    assert_eq!(n.advance(Some(true)), Status::Success);
    assert_eq!(n.advance(None), Status::Success);
    n.reset();
    assert_eq!(n.advance(None), Status::Running);
}

#[test]
fn cruise_advances_through_waypoints_then_succeeds() {
    let mut c = Cruise::new(vec!["a", "b"]);
    assert_eq!(c.advance(), (Some(0), Status::Running));
    assert_eq!(c.advance(), (Some(1), Status::Success));
    assert_eq!(c.advance(), (None, Status::Success));
    c.reset();
    assert_eq!(c.advance(), (Some(0), Status::Running));
}

#[test]
fn log_and_failsafe_notes() {
    assert_eq!(LogNode::new("hello").note(), "hello");
    assert_eq!(Failsafe::new("link lost").note(), "FAILSAFE: link lost");
}

#[test]
fn condition_and_action_statuses() {
    assert_eq!(takeoff_status(Some(true)), Status::Success);
    assert_eq!(takeoff_status(Some(false)), Status::Running);
    assert_eq!(takeoff_status(None), Status::Running);
    assert_eq!(detect_status(Some(true)), Status::Success);
    assert_eq!(detect_status(Some(false)), Status::Failure);
    assert_eq!(detect_status(None), Status::Failure);
    assert_eq!(track_status(true), Status::Success);
    assert_eq!(track_status(false), Status::Failure);
    assert_eq!(battery_status(None), Status::Running);
    assert_eq!(battery_status(Some(true)), Status::Success);
    assert_eq!(battery_status(Some(false)), Status::Failure);
}

#[test]
fn empty_composites() {
    assert_eq!(smart_brain::behavior::empty_composite(true), Status::Success);
    assert_eq!(smart_brain::behavior::empty_composite(false), Status::Failure);
}
