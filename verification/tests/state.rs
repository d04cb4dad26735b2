use tqc_emu::anyon::{Anyon, TopoCharge};
use tqc_emu::error::Error;
use tqc_emu::fusion::FusionPair;
use tqc_emu::state::State;

fn three_anyons() -> State {
    let mut state = State::new();
    for name in ["a", "b", "c"] {
        assert!(state.add_anyon(Anyon::new(String::from(name), TopoCharge::Sigma, (0, 0))));
    }
    state
}

fn names(state: &State) -> Vec<String> {
    state.anyons().iter().map(|a| a.name().to_string()).collect()
}

#[test]
fn new_state_is_empty() {
    let state = State::new();
    assert_eq!(state.anyon_count(), 0);
    assert!(state.anyons().is_empty());
    assert!(state.fusion_ops().is_empty());
}

#[test]
fn fusion_ops_are_appended_in_order() {
    let mut state = three_anyons();
    assert!(state.add_fusion_op((1, FusionPair::new(0, 1))).is_ok());
    assert!(state.add_fusion_op((1, FusionPair::new(2, 2))).is_ok());
    assert!(state.add_fusion_op((4, FusionPair::new(0, 2))).is_ok());
    assert_eq!(
        state.fusion_ops(),
        vec![
            (1, FusionPair::new(0, 1)),
            (1, FusionPair::new(2, 2)),
            (4, FusionPair::new(0, 2)),
        ]
    );
}

#[test]
fn fusion_op_at_time_zero_is_refused() {
    let mut state = three_anyons();
    assert!(matches!(
        state.add_fusion_op((0, FusionPair::new(0, 1))),
        Err(Error::ConstructionError(_))
    ));
    assert!(state.fusion_ops().is_empty());
}

#[test]
fn fusion_op_back_in_time_is_refused() {
    let mut state = three_anyons();
    state.add_fusion_op((2, FusionPair::new(0, 1))).unwrap();
    assert!(matches!(
        state.add_fusion_op((1, FusionPair::new(0, 2))),
        Err(Error::ConstructionError(_))
    ));
    assert_eq!(state.fusion_ops(), vec![(2, FusionPair::new(0, 1))]);
}

#[test]
fn fusion_op_on_a_missing_anyon_is_refused() {
    let mut state = three_anyons();
    assert!(matches!(
        state.add_fusion_op((1, FusionPair::new(0, 3))),
        Err(Error::ConstructionError(_))
    ));
    assert!(matches!(
        state.add_fusion_op((1, FusionPair::new(3, 0))),
        Err(Error::ConstructionError(_))
    ));
    assert!(state.fusion_ops().is_empty());
}

#[test]
fn an_anyon_fuses_once_per_time_step() {
    let mut state = three_anyons();
    state.add_fusion_op((1, FusionPair::new(0, 1))).unwrap();
    assert!(matches!(
        state.add_fusion_op((1, FusionPair::new(1, 2))),
        Err(Error::ConstructionError(_))
    ));
    assert!(matches!(
        state.add_fusion_op((1, FusionPair::new(2, 0))),
        Err(Error::ConstructionError(_))
    ));
    // a later time step may fuse it again
    assert!(state.add_fusion_op((2, FusionPair::new(1, 2))).is_ok());
}

#[test]
fn swap_anyons_exchanges_two_positions() {
    let mut state = three_anyons();
    assert!(state.swap_anyons(0, 2).is_ok());
    assert_eq!(names(&state), vec!["c", "b", "a"]);
    assert!(state.swap_anyons(1, 1).is_ok());
    assert_eq!(names(&state), vec!["c", "b", "a"]);
    assert!(matches!(state.swap_anyons(0, 3), Err(Error::BraidingError(_))));
    assert!(matches!(state.swap_anyons(3, 0), Err(Error::BraidingError(_))));
    assert_eq!(names(&state), vec!["c", "b", "a"]);
}

#[test]
fn a_copy_of_a_state_equals_it() {
    let mut state = three_anyons();
    state.add_fusion_op((1, FusionPair::new(0, 1))).unwrap();
    let copy = state.clone();
    assert_eq!(copy, state);
    state.swap_anyons(0, 1).unwrap();
    assert_ne!(copy, state);
    assert_eq!(copy.anyons()[0], state.anyons()[1]);
}
