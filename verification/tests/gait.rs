use smart_brain::gait::{all_stance, swing_count, GaitType};

#[test]
fn stand_has_no_swing() {
    let swing = [false, false, false, false];
    assert!(all_stance(&swing));
    assert_eq!(swing_count(&swing), 0);
}

#[test]
fn trot_diagonal_pair_swings() {
    let swing = [true, false, false, true];
    assert!(!all_stance(&swing));
    assert_eq!(swing_count(&swing), 2);
    assert_eq!(swing_count(&[]), 0);
    assert!(all_stance(&[]));
}

#[test]
fn gait_types_compare() {
    assert_eq!(GaitType::Trot, GaitType::Trot);
    assert_ne!(GaitType::Walk, GaitType::Run);
    let g = GaitType::Stand;
    let h = g;
    assert_eq!(g, h);
}
