//! Behavior-tree decision rules: node status, the composite and decorator
//! rules (sequence, selector, inverter, retry) and the decisions of the
//! flight nodes.
//!
//! The tree walks its children and reads telemetry; each rule here decides,
//! from a node's state and what its child or the telemetry reported, the
//! node's next state and the status it returns.
use vstd::prelude::*;
use crate::text::{concat, owned};
use crate::types::IntoText;

verus! {

/// Node execution status.
#[derive(Debug, Clone, Copy, PartialEq, Eq, Structural)]
pub enum Status {
    /// Finished successfully.
    Success,
    /// Failed.
    Failure,
    /// Still running (needs further ticks).
    Running,
}

impl Status {
    pub fn is_running(&self) -> (b: bool)
        ensures
            b == (*self == Status::Running),
    {
        match self {
            Status::Running => true,
            _ => false,
        }
    }
}

/// What a composite does after one child has been ticked.
#[derive(Debug, Clone, Copy, PartialEq, Eq, Structural)]
pub enum Step {
    /// Tick the child at this index next, in the same tick.
    Continue(usize),
    /// Return this status; the cursor is now at the given index.
    Return(Status, usize),
}

/// Sequence rule: children run left to right; a success moves on, a failure
/// resets the cursor and fails, a running child keeps the cursor and runs; the
/// sequence succeeds (and resets) when the last child succeeds.
pub open spec fn sequence_spec(current: nat, n: nat, child: Status) -> Step {
    match child {
        Status::Success => if current + 1 < n {
            Step::Continue((current + 1) as usize)
        } else {
            Step::Return(Status::Success, 0)
        },
        Status::Failure => Step::Return(Status::Failure, 0),
        Status::Running => Step::Return(Status::Running, current as usize),
    }
}

/// Selector rule: children are tried left to right; a success resets the
/// cursor and succeeds, a failure moves on, a running child keeps the cursor
/// and runs; the selector fails (and resets) when the last child fails.
pub open spec fn selector_spec(current: nat, n: nat, child: Status) -> Step {
    match child {
        Status::Success => Step::Return(Status::Success, 0),
        Status::Failure => if current + 1 < n {
            Step::Continue((current + 1) as usize)
        } else {
            Step::Return(Status::Failure, 0)
        },
        Status::Running => Step::Return(Status::Running, current as usize),
    }
}

/// Decides a sequence's next move after the child at `current` (of `n`) reported `child`.
pub fn sequence_step(current: usize, n: usize, child: Status) -> (s: Step)
    requires
        current < n,
    ensures
        s == sequence_spec(current as nat, n as nat, child),
{
    match child {
        Status::Success => if current + 1 < n {
            Step::Continue(current + 1)
        } else {
            Step::Return(Status::Success, 0)
        },
        Status::Failure => Step::Return(Status::Failure, 0),
        Status::Running => Step::Return(Status::Running, current),
    }
}

/// Decides a selector's next move after the child at `current` (of `n`) reported `child`.
pub fn selector_step(current: usize, n: usize, child: Status) -> (s: Step)
    requires
        current < n,
    ensures
        s == selector_spec(current as nat, n as nat, child),
{
    match child {
        Status::Success => Step::Return(Status::Success, 0),
        Status::Failure => if current + 1 < n {
            Step::Continue(current + 1)
        } else {
            Step::Return(Status::Failure, 0)
        },
        Status::Running => Step::Return(Status::Running, current),
    }
}

/// The status a composite with no child left to run returns: a sequence
/// succeeds, a selector fails.
pub fn empty_composite(is_sequence: bool) -> (s: Status)
    ensures
        s == (if is_sequence {
            Status::Success
        } else {
            Status::Failure
        }),
{
    if is_sequence {
        Status::Success
    } else {
        Status::Failure
    }
}

/// Inverter rule: success and failure swap, running stays.
pub open spec fn invert_spec(s: Status) -> Status {
    match s {
        Status::Success => Status::Failure,
        Status::Failure => Status::Success,
        Status::Running => Status::Running,
    }
}

/// The status an inverter returns for its child's status.
pub fn invert(s: Status) -> (r: Status)
    ensures
        r == invert_spec(s),
{
    match s {
        Status::Success => Status::Failure,
        Status::Failure => Status::Success,
        Status::Running => Status::Running,
    }
}

/// What a retry decorator does after its child reported a status.
#[derive(Debug, Clone, Copy, PartialEq, Eq, Structural)]
pub enum RetryStep {
    /// Reset the child and tick it again in the same tick.
    Retry,
    /// Return this status.
    Return(Status),
}

/// The decision of a retry decorator that has spent `spent` of its `max`
/// retries, after its child reported `child`, and the retries spent after it.
pub open spec fn retry_next(spent: nat, max: nat, child: Status) -> (RetryStep, nat) {
    match child {
        Status::Success => (RetryStep::Return(Status::Success), 0),
        Status::Running => (RetryStep::Return(Status::Running), spent),
        Status::Failure => if spent < max {
            (RetryStep::Retry, spent + 1)
        } else {
            (RetryStep::Return(Status::Failure), 0)
        },
    }
}

/// The decisions of a retry decorator that has spent `spent` of its `max`
/// retries, over `n` failures of its child in a row.
pub open spec fn failure_run(spent: nat, max: nat, n: nat) -> Seq<RetryStep>
    decreases n,
{
    if n == 0 {
        Seq::empty()
    } else {
        let (s, next) = retry_next(spent, max, Status::Failure);
        seq![s] + failure_run(next, max, (n - 1) as nat)
    }
}

/// A failing child is retried `max - spent` more times, then the decorator fails.
proof fn lemma_failure_run(spent: nat, max: nat)
    requires
        spent <= max,
    ensures
        failure_run(spent, max, (max - spent + 1) as nat) == Seq::new(
            (max - spent) as nat,
            |i: int| RetryStep::Retry,
        ).push(RetryStep::Return(Status::Failure)),
    decreases max - spent,
{
    if spent < max {
        lemma_failure_run(spent + 1, max);
        assert(failure_run(spent, max, (max - spent + 1) as nat) =~= Seq::new(
            (max - spent) as nat,
            |i: int| RetryStep::Retry,
        ).push(RetryStep::Return(Status::Failure)));
    } else {
        assert(failure_run(0, max, 0) =~= Seq::<RetryStep>::empty());
        assert(failure_run(spent, max, 1) =~= Seq::new(0, |i: int| RetryStep::Retry).push(
            RetryStep::Return(Status::Failure),
        ));
    }
}

/// A fresh retry decorator over a child that keeps failing retries it `max`
/// times and then fails: the child is tried `max + 1` times in all.
pub proof fn law_retry_tries_max_plus_one(max: nat)
    ensures
        failure_run(0, max, max + 1) == Seq::new(max, |i: int| RetryStep::Retry).push(
            RetryStep::Return(Status::Failure),
        ),
{
    lemma_failure_run(0, max);
}

/// Retry decorator state: the child's consecutive failures so far.
pub struct Retry {
    max_attempts: u32,
    attempts: u32,
}

impl Retry {
    /// The retries spent never exceed the limit.
    #[verifier::type_invariant]
    spec fn retries_within_limit(self) -> bool {
        self.attempts <= self.max_attempts
    }

    pub closed spec fn spec_max_attempts(&self) -> u32 {
        self.max_attempts
    }

    /// Retries spent on the current run of failures.
    pub closed spec fn spec_attempts(&self) -> u32 {
        self.attempts
    }

    /// A retry decorator that retries a failing child up to `max_attempts`
    /// times (so at most `max_attempts + 1` tries in all).
    pub fn new(max_attempts: u32) -> (r: Self)
        ensures
            r.spec_max_attempts() == max_attempts,
            r.spec_attempts() == 0,
    {
        Retry { max_attempts, attempts: 0 }
    }

    /// Counts the child's outcome: a success resets the count and succeeds, a
    /// running child runs; a failure is retried (after a reset of the child)
    /// while fewer than `max_attempts` retries have been spent, and otherwise
    /// resets the count and fails.
    pub fn on_child(&mut self, child: Status) -> (s: RetryStep)
        ensures
            final(self).spec_max_attempts() == old(self).spec_max_attempts(),
            (s, final(self).spec_attempts() as nat) == retry_next(
                old(self).spec_attempts() as nat,
                old(self).spec_max_attempts() as nat,
                child,
            ),
            ({
                let before = old(self).spec_attempts();
                let max = old(self).spec_max_attempts();
                let after = final(self).spec_attempts();
                &&& child == Status::Success ==> s == RetryStep::Return(Status::Success) && after
                    == 0
                &&& child == Status::Running ==> s == RetryStep::Return(Status::Running) && after
                    == before
                &&& (child == Status::Failure && before < max) ==> s == RetryStep::Retry && after
                    == before + 1
                &&& (child == Status::Failure && before >= max) ==> s == RetryStep::Return(
                    Status::Failure,
                ) && after == 0
                &&& after <= max
            }),
    {
        proof {
            use_type_invariant(&*self);
        }
        match child {
            Status::Success => {
                self.attempts = 0;
                RetryStep::Return(Status::Success)
            },
            Status::Failure => {
                if self.attempts < self.max_attempts {
                    self.attempts = self.attempts + 1;
                    RetryStep::Retry
                } else {
                    self.attempts = 0;
                    RetryStep::Return(Status::Failure)
                }
            },
            Status::Running => RetryStep::Return(Status::Running),
        }
    }
}

/// Condition: is there a 3D GPS fix with enough satellites?
pub struct GpsFixCheck {
    min_satellites: u8,
}

impl GpsFixCheck {
    pub closed spec fn spec_min_satellites(&self) -> u8 {
        self.min_satellites
    }

    pub fn new(min_satellites: u8) -> (c: Self)
        ensures
            c.spec_min_satellites() == min_satellites,
    {
        GpsFixCheck { min_satellites }
    }

    /// Decides from the latest GPS reading, `(has 3D fix, satellites)`; no
    /// reading yet means running.
    pub fn check(&self, gps: Option<(bool, u8)>) -> (s: Status)
        ensures
            s == (match gps {
                None => Status::Running,
                Some((fix3d, sats)) => if fix3d && sats >= self.spec_min_satellites() {
                    Status::Success
                } else {
                    Status::Failure
                },
            }),
    {
        match gps {
            Some((fix3d, sats)) => if fix3d && sats >= self.min_satellites {
                Status::Success
            } else {
                Status::Failure
            },
            None => Status::Running,
        }
    }
}

/// Action: return home (running on the first tick, then succeeded).
pub struct ReturnHome {
    done: bool,
}

impl ReturnHome {
    pub closed spec fn spec_done(&self) -> bool {
        self.done
    }

    pub fn new() -> (r: Self)
        ensures
            !r.spec_done(),
    {
        ReturnHome { done: false }
    }

    /// One tick: runs once, succeeds from then on.
    pub fn advance(&mut self) -> (s: Status)
        ensures
            final(self).spec_done(),
            s == (if old(self).spec_done() {
                Status::Success
            } else {
                Status::Running
            }),
    {
        if self.done {
            Status::Success
        } else {
            self.done = true;
            Status::Running
        }
    }

    /// Starts over.
    pub fn reset(&mut self)
        ensures
            !final(self).spec_done(),
    {
        self.done = false;
    }
}

/// Action: land, succeeding once the ground has been reached.
pub struct Land {
    reached: bool,
}

impl Land {
    pub closed spec fn spec_reached(&self) -> bool {
        self.reached
    }

    pub fn new() -> (l: Self)
        ensures
            !l.spec_reached(),
    {
        Land { reached: false }
    }

    /// One tick, given whether the latest telemetry shows the vehicle at the
    /// ground (`None`: no telemetry). Once reached, landing stays succeeded.
    pub fn advance(&mut self, at_ground: Option<bool>) -> (s: Status)
        ensures
            final(self).spec_reached() == (old(self).spec_reached() || at_ground == Some(true)),
            s == (if final(self).spec_reached() {
                Status::Success
            } else {
                Status::Running
            }),
    {
        match at_ground {
            Some(true) => {
                self.reached = true;
                Status::Success
            },
            _ => if self.reached {
                Status::Success
            } else {
                Status::Running
            },
        }
    }

    /// Starts over.
    pub fn reset(&mut self)
        ensures
            !final(self).spec_reached(),
    {
        self.reached = false;
    }
}

/// Takeoff: succeeds once the latest telemetry shows the target altitude
/// reached (`Some(true)`); running otherwise, and without telemetry.
pub fn takeoff_status(reached: Option<bool>) -> (s: Status)
    ensures
        s == (if reached == Some(true) {
            Status::Success
        } else {
            Status::Running
        }),
{
    match reached {
        Some(true) => Status::Success,
        _ => Status::Running,
    }
}

/// Target detection: succeeds when the latest detection is confident enough
/// (`Some(true)`); fails on a weak detection and when nothing was detected.
pub fn detect_status(confident: Option<bool>) -> (s: Status)
    ensures
        s == (if confident == Some(true) {
            Status::Success
        } else {
            Status::Failure
        }),
{
    match confident {
        Some(true) => Status::Success,
        _ => Status::Failure,
    }
}

/// Target tracking: succeeds while a target is seen; fails when it is lost
/// (the caller loiters).
pub fn track_status(target_seen: bool) -> (s: Status)
    ensures
        s == (if target_seen {
            Status::Success
        } else {
            Status::Failure
        }),
{
    if target_seen {
        Status::Success
    } else {
        Status::Failure
    }
}

/// Battery check: running without telemetry; succeeds when the remaining
/// charge is at least the minimum (`Some(true)`), fails when it is below.
pub fn battery_status(sufficient: Option<bool>) -> (s: Status)
    ensures
        s == (match sufficient {
            None => Status::Running,
            Some(true) => Status::Success,
            Some(false) => Status::Failure,
        }),
{
    match sufficient {
        None => Status::Running,
        Some(true) => Status::Success,
        Some(false) => Status::Failure,
    }
}

/// Action: log a message and succeed.
pub struct LogNode {
    message: String,
}

impl LogNode {
    pub closed spec fn spec_message(&self) -> Seq<char> {
        self.message@
    }

    pub fn new<S: IntoText>(message: S) -> (n: Self)
        ensures
            n.spec_message() == message.text_view(),
    {
        LogNode { message: message.into_text() }
    }

    /// The note the node writes (its message).
    pub fn note(&self) -> (s: String)
        ensures
            s@ == self.spec_message(),
    {
        self.message.clone()
    }
}

/// Action: fail-safe, forcing a loiter.
pub struct Failsafe {
    message: String,
}

impl Failsafe {
    pub closed spec fn spec_message(&self) -> Seq<char> {
        self.message@
    }

    pub fn new<S: IntoText>(message: S) -> (f: Self)
        ensures
            f.spec_message() == message.text_view(),
    {
        Failsafe { message: message.into_text() }
    }

    /// The note the node writes: `FAILSAFE: <message>`.
    pub fn note(&self) -> (s: String)
        ensures
            s@ == "FAILSAFE: "@ + self.spec_message(),
    {
        concat(owned("FAILSAFE: "), self.message.as_str())
    }
}

/// Action: cruise through waypoints, one per tick.
pub struct Cruise<W> {
    waypoints: Vec<W>,
    idx: usize,
}

impl<W> Cruise<W> {
    pub closed spec fn spec_waypoints(&self) -> Seq<W> {
        self.waypoints@
    }

    pub closed spec fn spec_index(&self) -> nat {
        self.idx as nat
    }

    pub fn new(waypoints: Vec<W>) -> (c: Self)
        ensures
            c.spec_waypoints() == waypoints@,
            c.spec_index() == 0,
    {
        Cruise { waypoints, idx: 0 }
    }

    /// One tick: the waypoint to fly to now (its index) and the status; the
    /// cruise succeeds when the last waypoint has been handed out.
    pub fn advance(&mut self) -> (r: (Option<usize>, Status))
        ensures
            final(self).spec_waypoints() == old(self).spec_waypoints(),
            old(self).spec_index() >= old(self).spec_waypoints().len() ==> r == (
                None::<usize>,
                Status::Success,
            ) && final(self).spec_index() == old(self).spec_index(),
            old(self).spec_index() < old(self).spec_waypoints().len() ==> {
                &&& r.0 == Some(old(self).spec_index() as usize)
                &&& final(self).spec_index() == old(self).spec_index() + 1
                &&& r.1 == (if final(self).spec_index() >= old(self).spec_waypoints().len() {
                    Status::Success
                } else {
                    Status::Running
                })
            },
    {
        if self.idx >= self.waypoints.len() {
            return (None, Status::Success);
        }
        let current = self.idx;
        self.idx = self.idx + 1;
        if self.idx >= self.waypoints.len() {
            (Some(current), Status::Success)
        } else {
            (Some(current), Status::Running)
        }
    }

    /// Starts over from the first waypoint.
    pub fn reset(&mut self)
        ensures
            final(self).spec_index() == 0,
            final(self).spec_waypoints() == old(self).spec_waypoints(),
    {
        self.idx = 0;
    }
}

/// The step a sequence ends with on one tick, starting at `current`, when
/// its `i`-th child reports `statuses[i]`.
pub open spec fn run_sequence(statuses: Seq<Status>, current: nat) -> Step
    decreases statuses.len() - current,
{
    if current >= statuses.len() {
        Step::Return(Status::Success, 0)
    } else {
        match sequence_spec(current, statuses.len(), statuses[current as int]) {
            Step::Continue(c) => if c > current {
                run_sequence(statuses, c as nat)
            } else {
                Step::Continue(c)
            },
            other => other,
        }
    }
}

/// The step a selector ends with on one tick, starting at `current`.
pub open spec fn run_selector(statuses: Seq<Status>, current: nat) -> Step
    decreases statuses.len() - current,
{
    if current >= statuses.len() {
        Step::Return(Status::Failure, 0)
    } else {
        match selector_spec(current, statuses.len(), statuses[current as int]) {
            Step::Continue(c) => if c > current {
                run_selector(statuses, c as nat)
            } else {
                Step::Continue(c)
            },
            other => other,
        }
    }
}

/// Over one tick, a sequence succeeds exactly when every child from its cursor
/// on succeeds, and a selector fails exactly when every such child fails.
pub proof fn law_composites_over_one_tick(statuses: Seq<Status>, current: nat)
    requires
        statuses.len() <= usize::MAX,
    ensures
        run_sequence(statuses, current) is Return,
        run_selector(statuses, current) is Return,
        (run_sequence(statuses, current) == Step::Return(Status::Success, 0)) <==> forall|i: int|
            current <= i < statuses.len() ==> #[trigger] statuses[i] == Status::Success,
        (run_selector(statuses, current) == Step::Return(Status::Failure, 0)) <==> forall|i: int|
            current <= i < statuses.len() ==> #[trigger] statuses[i] == Status::Failure,
    decreases statuses.len() - current,
{
    if current < statuses.len() {
        law_composites_over_one_tick(statuses, current + 1);
    }
}

/// Inverting twice gives the child's status back.
pub proof fn law_invert_involution(s: Status)
    ensures
        invert_spec(invert_spec(s)) == s,
{
}

/// A sequence and a selector treat a running child alike: they return running
/// and keep their cursor on it.
pub proof fn law_running_keeps_cursor(current: nat, n: nat)
    requires
        current < n,
        n <= usize::MAX,
    ensures
        sequence_spec(current, n, Status::Running) == Step::Return(
            Status::Running,
            current as usize,
        ),
        selector_spec(current, n, Status::Running) == Step::Return(
            Status::Running,
            current as usize,
        ),
{
}

/// Inverting changes a finished status and only a finished one: running
/// stays running, success and failure trade places.
pub proof fn law_invert_swaps_finished(s: Status)
    ensures
        invert_spec(s) == s <==> s == Status::Running,
        invert_spec(s) == Status::Running <==> s == Status::Running,
{
}

/// A composite step either moves on to the very next child, or returns the
/// status the child reported: a running child keeps the cursor where it is,
/// a finished one resets it. A sequence moves on only past a success, a
/// selector only past a failure, and neither past the last child.
pub proof fn law_composite_step_shape(current: nat, n: nat, child: Status)
    requires
        current < n,
        n <= usize::MAX,
    ensures
        sequence_spec(current, n, child) matches Step::Continue(k) ==> child == Status::Success
            && k == current + 1 && k < n,
        selector_spec(current, n, child) matches Step::Continue(k) ==> child == Status::Failure
            && k == current + 1 && k < n,
        sequence_spec(current, n, child) matches Step::Return(st, k) ==> st == child && k == (
        if child == Status::Running {
            current
        } else {
            0
        }),
        selector_spec(current, n, child) matches Step::Return(st, k) ==> st == child && k == (
        if child == Status::Running {
            current
        } else {
            0
        }),
        child == Status::Success && current + 1 < n ==> sequence_spec(current, n, child) is Continue,
        child == Status::Failure && current + 1 < n ==> selector_spec(current, n, child) is Continue,
{
}

} // verus!
