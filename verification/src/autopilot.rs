//! Decision core shared by the exploration, car and boat autopilots: what a
//! control step reports, when a stalled vehicle falls back on backtracking,
//! how the plan is refreshed, which waypoint is followed, and the waypoint
//! track of a cruise.
use vstd::prelude::*;

verus! {

/// Result of one control step.
#[derive(Debug, Clone, Copy, PartialEq, Eq, Structural)]
pub enum StepOutcome {
    /// Moving normally.
    Moving,
    /// No feasible velocity; holding still.
    Stuck,
    /// Backtracking along the recorded breadcrumbs.
    Backtracking,
    /// The command would hit an obstacle and was withheld (no collision).
    Blocked,
    /// Exploration finished / no target left.
    Done,
}

/// What refreshing the plan does at the start of a step.
#[derive(Debug, Clone, Copy, PartialEq, Eq, Structural)]
pub enum PlanStep {
    /// Drop the path and head for the next breadcrumb of the rewind.
    FollowRewind,
    /// Pick a new exploration target and plan a path to it.
    NewGoal,
    /// The fixed goal is reached: clear goal and path, navigation ends.
    FinishGoal,
    /// The fixed goal is reached and is held (station keeping).
    HoldStation,
    /// Skip the waypoints already passed on the current path.
    AdvancePath,
}

/// The plan refresh rule.
pub open spec fn plan_step_spec(
    rewinding: bool,
    goal_reached: bool,
    fixed_goal: bool,
    station_keep: bool,
) -> PlanStep {
    if rewinding {
        PlanStep::FollowRewind
    } else if goal_reached {
        if fixed_goal {
            if station_keep {
                PlanStep::HoldStation
            } else {
                PlanStep::FinishGoal
            }
        } else {
            PlanStep::NewGoal
        }
    } else {
        PlanStep::AdvancePath
    }
}

/// Decides how the plan is refreshed: a pending rewind comes first; a reached
/// (or absent) goal is either finished, held (fixed goal) or replaced by a new
/// exploration target; otherwise the path is advanced.
pub fn plan_step(rewinding: bool, goal_reached: bool, fixed_goal: bool, station_keep: bool) -> (s:
    PlanStep)
    ensures
        s == plan_step_spec(rewinding, goal_reached, fixed_goal, station_keep),
{
    if rewinding {
        PlanStep::FollowRewind
    } else if goal_reached {
        if fixed_goal {
            if station_keep {
                PlanStep::HoldStation
            } else {
                PlanStep::FinishGoal
            }
        } else {
            PlanStep::NewGoal
        }
    } else {
        PlanStep::AdvancePath
    }
}

/// The index of the first waypoint at or after `idx` not yet passed
/// (`passed.len()` when all are passed); `idx` itself when it is past the end.
pub open spec fn advance_spec(passed: Seq<bool>, idx: int) -> int
    decreases passed.len() - idx,
{
    if idx < passed.len() && passed[idx] {
        advance_spec(passed, idx + 1)
    } else {
        idx
    }
}

/// Skips the waypoints already passed, starting at `idx`.
pub fn advance_waypoints(passed: &[bool], idx: usize) -> (r: usize)
    ensures
        r == advance_spec(passed@, idx as int),
        idx <= r,
        idx < passed@.len() ==> r <= passed@.len(),
        forall|k: int| idx <= k < r ==> #[trigger] passed@[k],
        r < passed@.len() ==> !passed@[r as int],
{
    let mut i = idx;
    while i < passed.len() && passed[i]
        invariant
            idx <= i,
            idx < passed@.len() ==> i <= passed@.len(),
            forall|k: int| idx <= k < i ==> #[trigger] passed@[k],
            advance_spec(passed@, i as int) == advance_spec(passed@, idx as int),
        decreases passed@.len() - i,
    {
        i = i + 1;
    }
    i
}

/// The waypoint to steer for: the first at or after `idx` that is at least
/// the look-ahead distance away (`far`), else the last one of the path while
/// some remain; `None` (head for the goal) when the path is used up.
pub open spec fn lookahead_spec(far: Seq<bool>, idx: int) -> Option<int>
    decreases far.len() - idx,
{
    if idx >= far.len() {
        None
    } else if far[idx] {
        Some(idx)
    } else if idx + 1 < far.len() {
        lookahead_spec(far, idx + 1)
    } else {
        Some(far.len() - 1)
    }
}

/// Chooses the waypoint to steer for (pure pursuit).
pub fn lookahead_index(far: &[bool], idx: usize) -> (r: Option<usize>)
    ensures
        r == (match lookahead_spec(far@, idx as int) {
            Some(k) => Some(k as usize),
            None => None,
        }),
        r is None <==> idx >= far@.len(),
        r matches Some(k) ==> idx <= k < far@.len() && (far@[k as int] || k == far@.len() - 1),
        r matches Some(k) ==> forall|j: int| idx <= j < k ==> !#[trigger] far@[j],
{
    if idx >= far.len() {
        return None;
    }
    let mut i = idx;
    while i < far.len() - 1 && !far[i]
        invariant
            idx <= i < far@.len(),
            forall|j: int| idx <= j < i ==> !#[trigger] far@[j],
            lookahead_spec(far@, i as int) == lookahead_spec(far@, idx as int),
        decreases far@.len() - i,
    {
        i = i + 1;
    }
    Some(i)
}

/// The outcome of a step in which the vehicle did not move.
pub open spec fn stalled_outcome_spec(
    rewind_started: bool,
    has_goal: bool,
    next_leg: bool,
    had_command: bool,
) -> StepOutcome {
    if rewind_started {
        StepOutcome::Backtracking
    } else if !has_goal {
        if next_leg {
            StepOutcome::Moving
        } else {
            StepOutcome::Done
        }
    } else if had_command {
        StepOutcome::Blocked
    } else {
        StepOutcome::Stuck
    }
}

/// Reports a step without motion: backtracking when a rewind was just
/// started; with no goal left, moving on when a cruise has a next leg
/// (`next_leg`) and done otherwise; blocked when a command was withheld;
/// stuck when no command was found.
pub fn stalled_outcome(rewind_started: bool, has_goal: bool, next_leg: bool, had_command: bool) -> (o:
    StepOutcome)
    ensures
        o == stalled_outcome_spec(rewind_started, has_goal, next_leg, had_command),
{
    if rewind_started {
        StepOutcome::Backtracking
    } else if !has_goal {
        if next_leg {
            StepOutcome::Moving
        } else {
            StepOutcome::Done
        }
    } else if had_command {
        StepOutcome::Blocked
    } else {
        StepOutcome::Stuck
    }
}

/// The step counters of an autopilot.
#[derive(Debug, Clone, Copy, PartialEq, Eq, Structural)]
pub struct StallCounters {
    /// Consecutive steps without motion.
    pub stuck: usize,
    /// Commands withheld because they would hit an obstacle.
    pub blocked: usize,
    /// Rewinds started.
    pub backtrack_events: usize,
}

impl StallCounters {
    pub fn new() -> (c: Self)
        ensures
            c == (StallCounters { stuck: 0, blocked: 0, backtrack_events: 0 }),
    {
        StallCounters { stuck: 0, blocked: 0, backtrack_events: 0 }
    }

    /// The vehicle moved: the stall streak ends.
    pub fn on_moved(&mut self)
        ensures
            *final(self) == (StallCounters { stuck: 0, ..*old(self) }),
    {
        self.stuck = 0;
    }

    /// A command was withheld because it would hit an obstacle.
    pub fn on_blocked(&mut self)
        requires
            old(self).blocked < usize::MAX,
        ensures
            *final(self) == (StallCounters { blocked: (old(self).blocked + 1) as usize, ..*old(self) }),
    {
        self.blocked = self.blocked + 1;
    }

    /// The vehicle did not move this step: the streak grows; returns whether a
    /// rewind should start (the streak reached `threshold` and no rewind is
    /// under way).
    pub fn on_stalled(&mut self, threshold: usize, rewinding: bool) -> (start_rewind: bool)
        requires
            old(self).stuck < usize::MAX,
        ensures
            *final(self) == (StallCounters { stuck: (old(self).stuck + 1) as usize, ..*old(self) }),
            start_rewind == (old(self).stuck + 1 >= threshold && !rewinding),
    {
        self.stuck = self.stuck + 1;
        self.stuck >= threshold && !rewinding
    }

    /// A rewind was requested; it counts as an event only when it has
    /// breadcrumbs to follow.
    pub fn on_rewind(&mut self, started: bool)
        requires
            old(self).backtrack_events < usize::MAX,
        ensures
            *final(self) == (StallCounters {
                backtrack_events: (old(self).backtrack_events + if started {
                    1int
                } else {
                    0int
                }) as usize,
                ..*old(self)
            }),
    {
        if started {
            self.backtrack_events = self.backtrack_events + 1;
        }
    }
}

/// A multi-waypoint cruise: the waypoints and the index of the next leg.
pub struct Track<T> {
    waypoints: Vec<T>,
    next: usize,
}

impl<T: Copy> Track<T> {
    pub closed spec fn legs(&self) -> Seq<T> {
        self.waypoints@
    }

    pub closed spec fn next_leg(&self) -> int {
        self.next as int
    }

    /// Well-formedness: the next leg index never passes the end.
    pub closed spec fn wf(&self) -> bool {
        self.next <= self.waypoints@.len()
    }

    /// An empty track.
    pub fn new() -> (t: Self)
        ensures
            t.wf(),
            t.legs() == Seq::<T>::empty(),
            t.next_leg() == 0,
    {
        Track { waypoints: Vec::new(), next: 0 }
    }

    /// Replaces the track; returns its first waypoint (the first goal), after
    /// which the next leg is the second one.
    pub fn set(&mut self, waypoints: Vec<T>) -> (first: Option<T>)
        ensures
            final(self).wf(),
            final(self).legs() == waypoints@,
            first == (if waypoints@.len() > 0 {
                Some(waypoints@[0])
            } else {
                None
            }),
            final(self).next_leg() == (if waypoints@.len() > 0 {
                1int
            } else {
                0int
            }),
    {
        self.waypoints = waypoints;
        self.next = 0;
        if self.waypoints.len() > 0 {
            let f = self.waypoints[0];
            self.next = 1;
            Some(f)
        } else {
            None
        }
    }

    /// The next leg's waypoint, advancing past it; `None` at the end.
    pub fn advance(&mut self) -> (goal: Option<T>)
        requires
            old(self).wf(),
        ensures
            final(self).wf(),
            final(self).legs() == old(self).legs(),
            old(self).next_leg() < old(self).legs().len() ==> goal == Some(
                old(self).legs()[old(self).next_leg()],
            ) && final(self).next_leg() == old(self).next_leg() + 1,
            old(self).next_leg() >= old(self).legs().len() ==> goal is None
                && final(self).next_leg() == old(self).next_leg(),
    {
        if self.next < self.waypoints.len() {
            let g = self.waypoints[self.next];
            self.next = self.next + 1;
            Some(g)
        } else {
            None
        }
    }
}

/// The points that segment `k` contributes to a smoothed path: all of a
/// planned first segment, a planned later segment without its first point
/// (the previous segment's end), and the start of an unplanned first segment.
pub open spec fn segment_points<T>(start: T, seg: Option<Seq<T>>, k: int) -> Seq<T> {
    match seg {
        Some(p) => if k == 0 || p.len() == 0 {
            p
        } else {
            p.skip(1)
        },
        None => if k == 0 {
            seq![start]
        } else {
            Seq::empty()
        },
    }
}

/// The view of an optional segment.
pub open spec fn seg_view<T>(s: Option<Vec<T>>) -> Option<Seq<T>> {
    match s {
        Some(v) => Some(v@),
        None => None,
    }
}

/// The points of segments `0..n`, joined.
pub open spec fn stitched<T>(start: T, segs: Seq<Option<Vec<T>>>, n: int) -> Seq<T>
    decreases n,
{
    if n <= 0 {
        Seq::empty()
    } else {
        stitched(start, segs, n - 1) + segment_points(start, seg_view(segs[n - 1]), n - 1)
    }
}

/// Joins the smoothed segments between consecutive waypoints into one path
/// (`start` is the first waypoint).
pub fn stitch_segments<T: Copy>(start: T, segs: &[Option<Vec<T>>]) -> (out: Vec<T>)
    ensures
        out@ == stitched(start, segs@, segs@.len() as int),
{
    let mut out: Vec<T> = Vec::new();
    let mut k: usize = 0;
    while k < segs.len()
        invariant
            k <= segs@.len(),
            out@ == stitched(start, segs@, k as int),
        decreases segs@.len() - k,
    {
        let ghost before = out@;
        match &segs[k] {
            Some(pts) => {
                let first: usize = if k == 0 || pts.len() == 0 {
                    0
                } else {
                    1
                };
                let mut m: usize = first;
                while m < pts.len()
                    invariant
                        first == (if k == 0 || pts@.len() == 0 {
                            0usize
                        } else {
                            1usize
                        }),
                        first <= m <= pts@.len(),
                        out@ == before + pts@.subrange(first as int, m as int),
                    decreases pts@.len() - m,
                {
                    out.push(pts[m]);
                    proof {
                        assert(before + pts@.subrange(first as int, m + 1) =~= (before
                            + pts@.subrange(first as int, m as int)).push(pts@[m as int]));
                    }
                    m = m + 1;
                }
                proof {
                    if first == 0 {
                        assert(pts@.subrange(first as int, m as int) =~= pts@);
                    } else {
                        assert(pts@.subrange(first as int, m as int) =~= pts@.skip(1));
                    }
                }
            },
            None => {
                if k == 0 {
                    out.push(start);
                }
            },
        }
        k = k + 1;
    }
    out
}

/// Plan refresh: a pending rewind always comes first; without a fixed goal a
/// reached target is always replaced by a new one, whatever the station-keeping
/// setting; a goal is held or finished only when it is a fixed goal that was
/// reached, held exactly when station keeping is on; an unreached goal keeps
/// its path.
pub proof fn law_plan_refresh(rewinding: bool, goal_reached: bool, fixed_goal: bool, station_keep: bool)
    ensures
        rewinding <==> plan_step_spec(rewinding, goal_reached, fixed_goal, station_keep)
            == PlanStep::FollowRewind,
        !rewinding && goal_reached && !fixed_goal ==> plan_step_spec(
            rewinding,
            goal_reached,
            fixed_goal,
            station_keep,
        ) == PlanStep::NewGoal,
        plan_step_spec(rewinding, goal_reached, fixed_goal, station_keep) == PlanStep::HoldStation
            <==> !rewinding && goal_reached && fixed_goal && station_keep,
        plan_step_spec(rewinding, goal_reached, fixed_goal, station_keep) == PlanStep::FinishGoal
            <==> !rewinding && goal_reached && fixed_goal && !station_keep,
        plan_step_spec(rewinding, goal_reached, fixed_goal, station_keep) == PlanStep::AdvancePath
            <==> !rewinding && !goal_reached,
{
}

/// A step without motion: a rewind just started is reported as backtracking;
/// otherwise, with a goal, the step is blocked when a command was withheld and
/// stuck when none was found, whether or not a further leg exists; moving on
/// is reported only with no goal and a next leg, and done only with neither.
pub proof fn law_stalled_outcome(rewind_started: bool, has_goal: bool, next_leg: bool, had_command: bool)
    ensures
        rewind_started <==> stalled_outcome_spec(rewind_started, has_goal, next_leg, had_command)
            == StepOutcome::Backtracking,
        !rewind_started && has_goal ==> stalled_outcome_spec(
            rewind_started,
            has_goal,
            next_leg,
            had_command,
        ) == (if had_command {
            StepOutcome::Blocked
        } else {
            StepOutcome::Stuck
        }),
        stalled_outcome_spec(rewind_started, has_goal, next_leg, had_command) == StepOutcome::Moving
            <==> !rewind_started && !has_goal && next_leg,
        stalled_outcome_spec(rewind_started, has_goal, next_leg, had_command) == StepOutcome::Done
            <==> !rewind_started && !has_goal && !next_leg,
{
}

/// Stitching keeps the order of the segments: the path of the first `k`
/// segments begins the path of the first `n`; unplanned segments after the
/// first add nothing.
pub proof fn law_stitch_in_order<T>(start: T, segs: Seq<Option<Vec<T>>>, k: int, n: int)
    requires
        0 <= k <= n <= segs.len(),
    ensures
        stitched(start, segs, k).len() <= stitched(start, segs, n).len(),
        stitched(start, segs, n).subrange(0, stitched(start, segs, k).len() as int)
            == stitched(start, segs, k),
        (forall|j: int| k <= j < n && j > 0 ==> #[trigger] segs[j] is None) && k > 0 ==> stitched(
            start,
            segs,
            n,
        ) == stitched(start, segs, k),
    decreases n - k,
{
    if k < n {
        law_stitch_in_order(start, segs, k, n - 1);
        let a = stitched(start, segs, k);
        let m = stitched(start, segs, n - 1);
        assert(stitched(start, segs, n).subrange(0, a.len() as int) =~= m.subrange(
            0,
            a.len() as int,
        ));
        if (forall|j: int| k <= j < n && j > 0 ==> #[trigger] segs[j] is None) && k > 0 {
            assert(segs[n - 1] is None);
            assert(stitched(start, segs, n) =~= m);
        }
    }
}

/// The path starts with the whole first segment when it was planned, and at
/// `start` when it was not.
pub proof fn law_stitch_starts_with_first<T>(start: T, segs: Seq<Option<Vec<T>>>, n: int)
    requires
        1 <= n <= segs.len(),
    ensures
        segs[0] matches Some(p) ==> stitched(start, segs, n).subrange(0, p@.len() as int) == p@,
        segs[0] is None ==> stitched(start, segs, n)[0] == start,
{
    law_stitch_in_order(start, segs, 1, n);
    assert(stitched(start, segs, 0) == Seq::<T>::empty());
    assert(stitched(start, segs, 1) =~= segment_points(start, seg_view(segs[0]), 0));
    if segs[0] is None {
        let s1 = stitched(start, segs, 1);
        assert(stitched(start, segs, n).subrange(0, s1.len() as int)[0] == stitched(start, segs, n)[0]);
    }
}

} // verus!
