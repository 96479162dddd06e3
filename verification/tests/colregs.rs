use smart_brain::colregs::{
    Colregs, ColregsAction, Encounter, EncounterGeometry, EncounterType, Propulsion, Visibility,
};

fn geometry() -> EncounterGeometry {
    EncounterGeometry {
        far: false,
        coincident: false,
        bow_within_headon_tol: false,
        reciprocal_course: false,
        same_course: false,
        ahead: false,
        on_starboard: false,
    }
}

#[test]
fn far_targets_pose_no_risk() {
    let g = EncounterGeometry { far: true, reciprocal_course: true, ..geometry() };
    assert_eq!(
        Colregs::decide(&g, Visibility::Clear, Propulsion::PowerDriven, Propulsion::PowerDriven),
        (EncounterType::NoRisk, ColregsAction::NoAction)
    );
}

#[test]
fn head_on_both_turn_starboard() {
    let g = EncounterGeometry { reciprocal_course: true, bow_within_headon_tol: true, ..geometry() };
    assert_eq!(
        Colregs::decide(&g, Visibility::Clear, Propulsion::PowerDriven, Propulsion::PowerDriven),
        (EncounterType::HeadOn, ColregsAction::GiveWayStarboard)
    );
}

#[test]
fn crossing_from_starboard_gives_way_from_port_stands_on() {
    let starboard = EncounterGeometry { on_starboard: true, ..geometry() };
    let port = geometry();
    assert_eq!(
        Colregs::decide(&starboard, Visibility::Clear, Propulsion::PowerDriven, Propulsion::PowerDriven),
        (EncounterType::Crossing, ColregsAction::GiveWayStarboard)
    );
    assert_eq!(
        Colregs::decide(&port, Visibility::Clear, Propulsion::PowerDriven, Propulsion::PowerDriven),
        (EncounterType::Crossing, ColregsAction::StandOn)
    );
}

#[test]
fn power_gives_way_to_sail() {
    let port = geometry();
    assert_eq!(
        Colregs::decide(&port, Visibility::Clear, Propulsion::PowerDriven, Propulsion::Sailing),
        (EncounterType::Crossing, ColregsAction::GiveWayStarboard)
    );
}

#[test]
fn overtaking_and_being_overtaken() {
    let ahead = EncounterGeometry { same_course: true, ahead: true, ..geometry() };
    let behind = EncounterGeometry { same_course: true, ..geometry() };
    assert_eq!(
        Colregs::decide(&ahead, Visibility::Clear, Propulsion::PowerDriven, Propulsion::PowerDriven),
        (EncounterType::Overtaking, ColregsAction::GiveWayStarboard)
    );
    assert_eq!(
        Colregs::decide(&behind, Visibility::Clear, Propulsion::PowerDriven, Propulsion::PowerDriven),
        (EncounterType::NoRisk, ColregsAction::NoAction)
    );
}

#[test]
fn restricted_visibility_slows_or_gives_way() {
    let converging = EncounterGeometry { bow_within_headon_tol: true, ..geometry() };
    let abeam = EncounterGeometry { on_starboard: true, ..geometry() };
    assert_eq!(
        Colregs::decide(&converging, Visibility::Restricted, Propulsion::PowerDriven, Propulsion::PowerDriven),
        (EncounterType::RestrictedVisibility, ColregsAction::GiveWayStarboard)
    );
    assert_eq!(
        Colregs::decide(&abeam, Visibility::Restricted, Propulsion::PowerDriven, Propulsion::PowerDriven),
        (EncounterType::RestrictedVisibility, ColregsAction::ProceedSafeSpeed)
    );
}

#[test]
fn coincident_positions_give_way() {
    let g = EncounterGeometry { coincident: true, ..geometry() };
    assert_eq!(
        Colregs::decide(&g, Visibility::Clear, Propulsion::Sailing, Propulsion::PowerDriven),
        (EncounterType::Crossing, ColregsAction::GiveWayStarboard)
    );
}

fn enc(i: usize, action: ColregsAction) -> Encounter {
    Encounter { target_index: i, encounter: EncounterType::Crossing, action }
}

#[test]
fn aggregate_takes_highest_priority() {
    assert_eq!(Colregs::aggregate(&[]), ColregsAction::NoAction);
    assert_eq!(
        Colregs::aggregate(&[enc(0, ColregsAction::StandOn), enc(1, ColregsAction::GiveWayStarboard)]),
        ColregsAction::GiveWayStarboard
    );
    assert_eq!(
        Colregs::aggregate(&[enc(0, ColregsAction::StandOn), enc(1, ColregsAction::ProceedSafeSpeed)]),
        ColregsAction::ProceedSafeSpeed
    );
    assert_eq!(
        Colregs::aggregate(&[enc(0, ColregsAction::NoAction), enc(1, ColregsAction::SlowDown)]),
        ColregsAction::SlowDown
    );
    assert_eq!(
        Colregs::aggregate(&[enc(0, ColregsAction::NoAction), enc(1, ColregsAction::StandOn)]),
        ColregsAction::StandOn
    );
}

#[test]
fn decide_many_keeps_target_order() {
    let targets = vec![
        (EncounterGeometry { far: true, ..geometry() }, Propulsion::PowerDriven),
        (EncounterGeometry { reciprocal_course: true, ..geometry() }, Propulsion::PowerDriven),
        (geometry(), Propulsion::Sailing),
        (geometry(), Propulsion::PowerDriven),
    ];
    let e = Colregs::decide_many(&targets, Visibility::Clear, Propulsion::PowerDriven);
    assert_eq!(e.len(), 4);
    assert_eq!(e[0], Encounter { target_index: 0, encounter: EncounterType::NoRisk, action: ColregsAction::NoAction });
    assert_eq!(e[1], Encounter { target_index: 1, encounter: EncounterType::HeadOn, action: ColregsAction::GiveWayStarboard });
    assert_eq!(e[2], Encounter { target_index: 2, encounter: EncounterType::Crossing, action: ColregsAction::GiveWayStarboard });
    assert_eq!(e[3], Encounter { target_index: 3, encounter: EncounterType::Crossing, action: ColregsAction::StandOn });
    assert_eq!(Colregs::aggregate(&e), ColregsAction::GiveWayStarboard);
    assert!(Colregs::decide_many(&[], Visibility::Restricted, Propulsion::Sailing).is_empty());
}
