//! COLREGS (collision regulations) decision rules for surface vessels.
//!
//! Classifies a two-vessel encounter and recommends an action for own ship:
//! - head-on: both turn to starboard;
//! - crossing: give way (turn starboard) when the other vessel is on the
//!   starboard side; otherwise stand on, except that a power-driven vessel
//!   always gives way to a sailing vessel;
//! - overtaking: the overtaking vessel gives way;
//! - restricted visibility (Rule 19): no stand-on vessel; turn starboard when
//!   converging, otherwise proceed at a safe speed;
//! - far enough apart: no risk, no action.
//!
//! The geometric tests (distances and relative angles) are measured by the
//! caller and handed in as an [`EncounterGeometry`].
use vstd::prelude::*;

verus! {

/// Propulsion of a vessel (decides give-way duties when crossing).
#[derive(Debug, Clone, Copy, PartialEq, Eq, Structural)]
pub enum Propulsion {
    /// Power-driven: gives way to sailing vessels when crossing.
    PowerDriven,
    /// Sailing (under way, not power-driven): has right of way when crossing.
    Sailing,
}

/// Visibility conditions.
#[derive(Debug, Clone, Copy, PartialEq, Eq, Structural)]
pub enum Visibility {
    /// Vessels in sight of one another.
    Clear,
    /// Fog, haze, night (Rule 19: both vessels must act).
    Restricted,
}

/// Encounter classification.
#[derive(Debug, Clone, Copy, PartialEq, Eq, Structural)]
pub enum EncounterType {
    HeadOn,
    Crossing,
    Overtaking,
    /// Encounter in restricted visibility (both vessels must act).
    RestrictedVisibility,
    NoRisk,
}

/// Recommended action for own ship.
#[derive(Debug, Clone, Copy, PartialEq, Eq, Structural)]
pub enum ColregsAction {
    /// Turn to starboard and give way.
    GiveWayStarboard,
    /// Keep course and speed (the other vessel gives way).
    StandOn,
    /// Reduce speed.
    SlowDown,
    /// Restricted visibility: proceed at a safe speed (Rule 19).
    ProceedSafeSpeed,
    /// No action.
    NoAction,
}

/// The classification of one target in a multi-target assessment.
#[derive(Debug, Clone, Copy, PartialEq, Eq, Structural)]
pub struct Encounter {
    /// Index of the target in the input.
    pub target_index: usize,
    pub encounter: EncounterType,
    pub action: ColregsAction,
}

/// The geometric facts of an encounter, measured from own ship.
#[derive(Debug, Clone, Copy, PartialEq, Eq, Structural)]
pub struct EncounterGeometry {
    /// The other vessel is farther than the risk radius.
    pub far: bool,
    /// The two positions (nearly) coincide.
    pub coincident: bool,
    /// The other vessel is within the head-on tolerance of own bow.
    pub bow_within_headon_tol: bool,
    /// The relative course is within the head-on tolerance of a reciprocal course.
    pub reciprocal_course: bool,
    /// The relative course is within the overtaking tolerance (same direction).
    pub same_course: bool,
    /// The other vessel is within the overtaking tolerance of own bow.
    pub ahead: bool,
    /// The other vessel bears to starboard (positive relative bearing).
    pub on_starboard: bool,
}

/// The simplified COLREGS rule set.
pub struct Colregs;

/// The classification the rules give for an encounter.
pub open spec fn decide_spec(
    g: EncounterGeometry,
    visibility: Visibility,
    own: Propulsion,
    other: Propulsion,
) -> (EncounterType, ColregsAction) {
    if g.far {
        (EncounterType::NoRisk, ColregsAction::NoAction)
    } else if g.coincident {
        (EncounterType::Crossing, ColregsAction::GiveWayStarboard)
    } else if visibility == Visibility::Restricted {
        if g.bow_within_headon_tol || g.reciprocal_course {
            (EncounterType::RestrictedVisibility, ColregsAction::GiveWayStarboard)
        } else {
            (EncounterType::RestrictedVisibility, ColregsAction::ProceedSafeSpeed)
        }
    } else if g.same_course {
        if g.ahead {
            (EncounterType::Overtaking, ColregsAction::GiveWayStarboard)
        } else {
            (EncounterType::NoRisk, ColregsAction::NoAction)
        }
    } else if g.reciprocal_course {
        (EncounterType::HeadOn, ColregsAction::GiveWayStarboard)
    } else if g.on_starboard || (other == Propulsion::Sailing && own == Propulsion::PowerDriven) {
        (EncounterType::Crossing, ColregsAction::GiveWayStarboard)
    } else {
        (EncounterType::Crossing, ColregsAction::StandOn)
    }
}

/// The encounter recorded for target `i` (geometry and propulsion `t`).
pub open spec fn encounter_of(
    t: (EncounterGeometry, Propulsion),
    i: int,
    visibility: Visibility,
    own: Propulsion,
) -> Encounter {
    let d = decide_spec(t.0, visibility, own, t.1);
    Encounter { target_index: i as usize, encounter: d.0, action: d.1 }
}

/// Priority rank of an action when several targets are aggregated (lower wins).
pub open spec fn action_rank(a: ColregsAction) -> nat {
    match a {
        ColregsAction::GiveWayStarboard => 0,
        ColregsAction::ProceedSafeSpeed => 1,
        ColregsAction::StandOn => 2,
        ColregsAction::SlowDown => 3,
        ColregsAction::NoAction => 4,
    }
}

/// Whether some encounter recommends `a`.
pub open spec fn some_action(es: Seq<Encounter>, a: ColregsAction) -> bool {
    exists|i: int| 0 <= i < es.len() && #[trigger] es[i].action == a
}

/// The aggregate action: the highest-priority action any target asks for.
pub open spec fn aggregate_spec(es: Seq<Encounter>) -> ColregsAction {
    if some_action(es, ColregsAction::GiveWayStarboard) {
        ColregsAction::GiveWayStarboard
    } else if some_action(es, ColregsAction::ProceedSafeSpeed) {
        ColregsAction::ProceedSafeSpeed
    } else if some_action(es, ColregsAction::StandOn) {
        ColregsAction::StandOn
    } else if some_action(es, ColregsAction::SlowDown) {
        ColregsAction::SlowDown
    } else {
        ColregsAction::NoAction
    }
}

/// Whether some encounter recommends `a` (linear scan).
fn any_action(encounters: &[Encounter], a: ColregsAction) -> (b: bool)
    ensures
        b == some_action(encounters@, a),
{
    let mut i: usize = 0;
    while i < encounters.len()
        invariant
            i <= encounters@.len(),
            forall|j: int| 0 <= j < i ==> #[trigger] encounters@[j].action != a,
        decreases encounters@.len() - i,
    {
        if encounters[i].action == a {
            return true;
        }
        i = i + 1;
    }
    false
}

impl Colregs {
    /// Classifies an encounter from its measured geometry and recommends an
    /// action for own ship.
    pub fn decide(
        g: &EncounterGeometry,
        visibility: Visibility,
        own: Propulsion,
        other: Propulsion,
    ) -> (r: (EncounterType, ColregsAction))
        ensures
            r == decide_spec(*g, visibility, own, other),
    {
        if g.far {
            return (EncounterType::NoRisk, ColregsAction::NoAction);
        }
        if g.coincident {
            return (EncounterType::Crossing, ColregsAction::GiveWayStarboard);
        }
        if visibility == Visibility::Restricted {
            let converging = g.bow_within_headon_tol || g.reciprocal_course;
            return (
                EncounterType::RestrictedVisibility,
                if converging {
                    ColregsAction::GiveWayStarboard
                } else {
                    ColregsAction::ProceedSafeSpeed
                },
            );
        }
        if g.same_course {
            if g.ahead {
                return (EncounterType::Overtaking, ColregsAction::GiveWayStarboard);
            }
            return (EncounterType::NoRisk, ColregsAction::NoAction);
        }
        if g.reciprocal_course {
            return (EncounterType::HeadOn, ColregsAction::GiveWayStarboard);
        }
        let give_way = g.on_starboard || (other == Propulsion::Sailing && own
            == Propulsion::PowerDriven);
        if give_way {
            (EncounterType::Crossing, ColregsAction::GiveWayStarboard)
        } else {
            (EncounterType::Crossing, ColregsAction::StandOn)
        }
    }

    /// Classifies every target (its measured geometry and propulsion), in
    /// order, recording each target's index.
    pub fn decide_many(
        targets: &[(EncounterGeometry, Propulsion)],
        visibility: Visibility,
        own: Propulsion,
    ) -> (r: Vec<Encounter>)
        ensures
            r@.len() == targets@.len(),
            forall|i: int|
                0 <= i < targets@.len() ==> #[trigger] r@[i] == encounter_of(
                    targets@[i],
                    i,
                    visibility,
                    own,
                ),
    {
        let mut r: Vec<Encounter> = Vec::new();
        let mut i: usize = 0;
        while i < targets.len()
            invariant
                i <= targets@.len(),
                r@.len() == i,
                forall|j: int|
                    0 <= j < i ==> #[trigger] r@[j] == encounter_of(targets@[j], j, visibility, own),
            decreases targets@.len() - i,
        {
            let t = targets[i];
            let (encounter, action) = Colregs::decide(&t.0, visibility, own, t.1);
            r.push(Encounter { target_index: i, encounter, action });
            i = i + 1;
        }
        r
    }

    /// Aggregates multi-target actions by priority: give way, then safe speed,
    /// then stand on, then slow down, else no action.
    pub fn aggregate(encounters: &[Encounter]) -> (a: ColregsAction)
        ensures
            a == aggregate_spec(encounters@),
    {
        if any_action(encounters, ColregsAction::GiveWayStarboard) {
            return ColregsAction::GiveWayStarboard;
        }
        if any_action(encounters, ColregsAction::ProceedSafeSpeed) {
            return ColregsAction::ProceedSafeSpeed;
        }
        if any_action(encounters, ColregsAction::StandOn) {
            return ColregsAction::StandOn;
        }
        if any_action(encounters, ColregsAction::SlowDown) {
            return ColregsAction::SlowDown;
        }
        ColregsAction::NoAction
    }
}

/// The aggregate action is one that some target asked for, and no target asked
/// for an action of higher priority; with no targets it is `None`.
pub proof fn law_aggregate_is_highest_priority(es: Seq<Encounter>)
    ensures
        es.len() == 0 ==> aggregate_spec(es) == ColregsAction::NoAction,
        aggregate_spec(es) != ColregsAction::NoAction ==> some_action(es, aggregate_spec(es)),
        forall|i: int|
            0 <= i < es.len() ==> action_rank(aggregate_spec(es)) <= action_rank(
                #[trigger] es[i].action,
            ),
{
    assert forall|i: int|
        0 <= i < es.len() implies action_rank(aggregate_spec(es)) <= action_rank(
            #[trigger] es[i].action,
        ) by {
        let a = es[i].action;
        assert(some_action(es, a));
    }
}

/// Whenever any target requires own ship to give way, the aggregate is to give way.
pub proof fn law_give_way_dominates(es: Seq<Encounter>, i: int)
    requires
        0 <= i < es.len(),
        es[i].action == ColregsAction::GiveWayStarboard,
    ensures
        aggregate_spec(es) == ColregsAction::GiveWayStarboard,
{
    assert(some_action(es, es[i].action));
}

/// In restricted visibility no vessel is ever told to stand on, and every
/// encounter within the risk radius is classified as a restricted-visibility one.
pub proof fn law_restricted_visibility_never_stands_on(
    g: EncounterGeometry,
    own: Propulsion,
    other: Propulsion,
)
    ensures
        decide_spec(g, Visibility::Restricted, own, other).1 != ColregsAction::StandOn,
        !g.far && !g.coincident ==> decide_spec(g, Visibility::Restricted, own, other).0
            == EncounterType::RestrictedVisibility,
{
}

/// A power-driven vessel crossing a sailing vessel never stands on.
pub proof fn law_power_gives_way_to_sail(g: EncounterGeometry, visibility: Visibility)
    ensures
        decide_spec(g, visibility, Propulsion::PowerDriven, Propulsion::Sailing).1
            != ColregsAction::StandOn,
{
}

/// In a head-on encounter own ship always turns to starboard.
pub proof fn law_head_on_turns_starboard(
    g: EncounterGeometry,
    visibility: Visibility,
    own: Propulsion,
    other: Propulsion,
)
    ensures
        decide_spec(g, visibility, own, other).0 == EncounterType::HeadOn ==> decide_spec(
            g,
            visibility,
            own,
            other,
        ).1 == ColregsAction::GiveWayStarboard,
{
}

/// A crossing in clear visibility: own ship gives way to a vessel on its
/// starboard side, and a power-driven vessel gives way to a sailing one;
/// otherwise (the other vessel on the port side, and not sail meeting power)
/// own ship stands on. In particular a sailing vessel never gives way to a
/// crossing vessel on its port side.
pub proof fn law_crossing_give_way_or_stand_on(
    g: EncounterGeometry,
    own: Propulsion,
    other: Propulsion,
)
    requires
        !g.far,
        !g.coincident,
        decide_spec(g, Visibility::Clear, own, other).0 == EncounterType::Crossing,
    ensures
        decide_spec(g, Visibility::Clear, own, other).1 == ColregsAction::GiveWayStarboard
            <==> (g.on_starboard || (own == Propulsion::PowerDriven && other
            == Propulsion::Sailing)),
        decide_spec(g, Visibility::Clear, own, other).1 == ColregsAction::StandOn
            <==> !(g.on_starboard || (own == Propulsion::PowerDriven && other
            == Propulsion::Sailing)),
        own == Propulsion::Sailing && !g.on_starboard ==> decide_spec(
            g,
            Visibility::Clear,
            own,
            other,
        ).1 == ColregsAction::StandOn,
{
}

/// In clear visibility, a vessel within the risk radius that is on neither a
/// same nor a reciprocal course is a crossing vessel.
pub proof fn law_clear_crossing_classification(
    g: EncounterGeometry,
    own: Propulsion,
    other: Propulsion,
)
    requires
        !g.far,
        !g.coincident,
        !g.same_course,
        !g.reciprocal_course,
    ensures
        decide_spec(g, Visibility::Clear, own, other).0 == EncounterType::Crossing,
{
}

/// The aggregate over many targets follows a fixed order of precedence: give
/// way if any target calls for it; else proceed at a safe speed if any does;
/// else stand on if any does; else slow down if any does; else no action.
pub proof fn law_aggregate_precedence(es: Seq<Encounter>)
    ensures
        some_action(es, ColregsAction::GiveWayStarboard) ==> aggregate_spec(es)
            == ColregsAction::GiveWayStarboard,
        !some_action(es, ColregsAction::GiveWayStarboard) && some_action(
            es,
            ColregsAction::ProceedSafeSpeed,
        ) ==> aggregate_spec(es) == ColregsAction::ProceedSafeSpeed,
        !some_action(es, ColregsAction::GiveWayStarboard) && !some_action(
            es,
            ColregsAction::ProceedSafeSpeed,
        ) && some_action(es, ColregsAction::StandOn) ==> aggregate_spec(es)
            == ColregsAction::StandOn,
        !some_action(es, ColregsAction::GiveWayStarboard) && !some_action(
            es,
            ColregsAction::ProceedSafeSpeed,
        ) && !some_action(es, ColregsAction::StandOn) && some_action(es, ColregsAction::SlowDown)
            ==> aggregate_spec(es) == ColregsAction::SlowDown,
        (forall|i: int| 0 <= i < es.len() ==> #[trigger] es[i].action == ColregsAction::NoAction)
            ==> aggregate_spec(es) == ColregsAction::NoAction,
{
    if forall|i: int| 0 <= i < es.len() ==> #[trigger] es[i].action == ColregsAction::NoAction {
        assert(!some_action(es, ColregsAction::GiveWayStarboard));
        assert(!some_action(es, ColregsAction::ProceedSafeSpeed));
        assert(!some_action(es, ColregsAction::StandOn));
        assert(!some_action(es, ColregsAction::SlowDown));
    }
}

/// The encounter classes: a vessel beyond the risk radius is no risk; in
/// clear visibility, a vessel ahead on the same course is being overtaken
/// (give way), one on the same course not ahead is no risk, and one on a
/// reciprocal course is head-on (turn to starboard); in restricted visibility
/// a converging vessel (near the bow or on a reciprocal course) makes own ship
/// turn to starboard, any other one proceed at a safe speed.
pub proof fn law_encounter_classes(
    g: EncounterGeometry,
    visibility: Visibility,
    own: Propulsion,
    other: Propulsion,
)
    ensures
        g.far ==> decide_spec(g, visibility, own, other) == (
            EncounterType::NoRisk,
            ColregsAction::NoAction,
        ),
        !g.far && g.coincident ==> decide_spec(g, visibility, own, other).1
            == ColregsAction::GiveWayStarboard,
        !g.far && !g.coincident && visibility == Visibility::Clear && g.same_course ==> decide_spec(
            g,
            visibility,
            own,
            other,
        ) == (if g.ahead {
            (EncounterType::Overtaking, ColregsAction::GiveWayStarboard)
        } else {
            (EncounterType::NoRisk, ColregsAction::NoAction)
        }),
        !g.far && !g.coincident && visibility == Visibility::Clear && !g.same_course
            && g.reciprocal_course ==> decide_spec(g, visibility, own, other) == (
            EncounterType::HeadOn,
            ColregsAction::GiveWayStarboard,
        ),
        !g.far && !g.coincident && visibility == Visibility::Restricted ==> decide_spec(
            g,
            visibility,
            own,
            other,
        ).1 == (if g.bow_within_headon_tol || g.reciprocal_course {
            ColregsAction::GiveWayStarboard
        } else {
            ColregsAction::ProceedSafeSpeed
        }),
        decide_spec(g, visibility, own, other).1 == ColregsAction::NoAction <==> decide_spec(
            g,
            visibility,
            own,
            other,
        ).0 == EncounterType::NoRisk,
{
}

} // verus!
