use taxi::doormax::effect::{ChangePassenger, ChangeTaxiX, ChangeTaxiY, Effect};
use taxi::doormax::effect_learner::EffectLearner;
use taxi::state::State;
use taxi::world::World;

/// The effects an experience shows, as a list of at most one.
fn effects_of<E: Effect>(old_state: &State, new_state: &State) -> Vec<E> {
    E::generate_effects(old_state, new_state).into_iter().collect()
}

#[test]
fn learns_taxi_x_east() {
    let source_world = "\
                        ┌───┬─────┐\n\
                        │R .│. . .│\n\
                        │   │     │\n\
                        │. .│G . .│\n\
                        │         │\n\
                        │. . . . .│\n\
                        │         │\n\
                        │.│Y .│B .│\n\
                        │ │   │   │\n\
                        │.│. .│. .│\n\
                        └─┴───┴───┘\n\
                        ";

    let w = World::build_from_str(source_world).unwrap();

    let old_state = State::build(&w, (1, 3), Some('R'), 'B').unwrap();
    let new_state = State::build(&w, (2, 3), Some('R'), 'B').unwrap();

    let mut learner = EffectLearner::new();
    let test_state = State::build(&w, (3, 3), Some('R'), 'B').unwrap();

    let predicted_0 = learner.predict(&w, &test_state).unwrap();
    assert_eq!(predicted_0, None);

    learner.apply_experience(&effects_of::<ChangeTaxiX>(&old_state, &new_state));

    let expected_1 = Some(State::build(&w, (4, 3), Some('R'), 'B').unwrap());
    let predicted_1 = learner.predict(&w, &test_state).unwrap();
    assert_eq!(predicted_1, expected_1);

    let test_failure = State::build(&w, (4, 3), Some('R'), 'B').unwrap();

    let predicted_failure = learner.predict(&w, &test_failure);
    assert!(predicted_failure.is_err());
}

#[test]
fn learns_taxi_x_west() {
    let source_world = "\
                        ┌───┬─────┐\n\
                        │R .│. . .│\n\
                        │   │     │\n\
                        │. .│G . .│\n\
                        │         │\n\
                        │. . . . .│\n\
                        │         │\n\
                        │.│Y .│B .│\n\
                        │ │   │   │\n\
                        │.│. .│. .│\n\
                        └─┴───┴───┘\n\
                        ";

    let w = World::build_from_str(source_world).unwrap();

    let old_state = State::build(&w, (2, 3), Some('R'), 'B').unwrap();
    let new_state = State::build(&w, (1, 3), Some('R'), 'B').unwrap();

    let mut learner = EffectLearner::new();
    let test_state = State::build(&w, (3, 3), Some('R'), 'B').unwrap();

    let predicted_0 = learner.predict(&w, &test_state).unwrap();
    assert_eq!(predicted_0, None);

    learner.apply_experience(&effects_of::<ChangeTaxiX>(&old_state, &new_state));

    let expected_1 = Some(State::build(&w, (2, 3), Some('R'), 'B').unwrap());
    let predicted_1 = learner.predict(&w, &test_state).unwrap();
    assert_eq!(predicted_1, expected_1);
}

#[test]
fn unlearns_taxi_x() {
    let source_world = "\
                        ┌───┬─────┐\n\
                        │R .│. . .│\n\
                        │   │     │\n\
                        │. .│G . .│\n\
                        │         │\n\
                        │. . . . .│\n\
                        │         │\n\
                        │.│Y .│B .│\n\
                        │ │   │   │\n\
                        │.│. .│. .│\n\
                        └─┴───┴───┘\n\
                        ";

    let w = World::build_from_str(source_world).unwrap();

    let old_state = State::build(&w, (1, 3), Some('R'), 'B').unwrap();
    let new_state = State::build(&w, (2, 3), Some('R'), 'B').unwrap();

    let mut learner = EffectLearner::new();

    learner.apply_experience(&effects_of::<ChangeTaxiX>(&old_state, &new_state));

    let test_state = State::build(&w, (3, 3), Some('R'), 'B').unwrap();

    let expected_0 = Some(State::build(&w, (4, 3), Some('R'), 'B').unwrap());
    let predicted_0 = learner.predict(&w, &test_state).unwrap();
    assert_eq!(predicted_0, expected_0);

    let conflicting_old = State::build(&w, (1, 2), Some('R'), 'B').unwrap();
    let conflicting_new = State::build(&w, (0, 2), Some('R'), 'B').unwrap();

    learner.apply_experience(&effects_of::<ChangeTaxiX>(&conflicting_old, &conflicting_new));

    let predicted_1 = learner.predict(&w, &test_state).unwrap();
    assert_eq!(predicted_1, None);
}

#[test]
fn learns_taxi_x_nothing() {
    let source_world = "\
                        ┌───┬─────┐\n\
                        │R .│. . .│\n\
                        │   │     │\n\
                        │. .│G . .│\n\
                        │         │\n\
                        │. . . . .│\n\
                        │         │\n\
                        │.│Y .│B .│\n\
                        │ │   │   │\n\
                        │.│. .│. .│\n\
                        └─┴───┴───┘\n\
                        ";

    let w = World::build_from_str(source_world).unwrap();

    let old_state = State::build(&w, (1, 3), Some('R'), 'B').unwrap();
    let new_state = State::build(&w, (1, 4), None, 'B').unwrap();

    let mut learner = EffectLearner::new();
    let test_state = State::build(&w, (3, 3), Some('R'), 'B').unwrap();

    let predicted_0 = learner.predict(&w, &test_state).unwrap();
    assert_eq!(predicted_0, None);

    learner.apply_experience(&effects_of::<ChangeTaxiX>(&old_state, &new_state));

    let predicted_1 = learner.predict(&w, &test_state).unwrap();
    assert_eq!(predicted_1, None);
}

#[test]
fn learns_taxi_y() {
    let source_world = "\
                        ┌───┬─────┐\n\
                        │R .│. . .│\n\
                        │   │     │\n\
                        │. .│G . .│\n\
                        │         │\n\
                        │. . . . .│\n\
                        │         │\n\
                        │.│Y .│B .│\n\
                        │ │   │   │\n\
                        │.│. .│. .│\n\
                        └─┴───┴───┘\n\
                        ";

    let w = World::build_from_str(source_world).unwrap();

    let old_state = State::build(&w, (2, 3), Some('R'), 'B').unwrap();
    let new_state = State::build(&w, (2, 2), Some('R'), 'B').unwrap();

    let mut learner = EffectLearner::new();
    let test_state = State::build(&w, (3, 3), Some('R'), 'B').unwrap();

    let predicted_0 = learner.predict(&w, &test_state).unwrap();
    assert_eq!(predicted_0, None);

    learner.apply_experience(&effects_of::<ChangeTaxiY>(&old_state, &new_state));

    let expected_1 = Some(State::build(&w, (3, 2), Some('R'), 'B').unwrap());
    let predicted_1 = learner.predict(&w, &test_state).unwrap();
    assert_eq!(predicted_1, expected_1);
}

#[test]
fn learns_passenger_pickup() {
    let source_world = "\
                        ┌───┬─────┐\n\
                        │R .│. . .│\n\
                        │   │     │\n\
                        │. .│G . .│\n\
                        │         │\n\
                        │. . . . .│\n\
                        │         │\n\
                        │.│Y .│B .│\n\
                        │ │   │   │\n\
                        │.│. .│. .│\n\
                        └─┴───┴───┘\n\
                        ";

    let w = World::build_from_str(source_world).unwrap();

    let old_state = State::build(&w, (2, 3), Some('R'), 'B').unwrap();
    let new_state = State::build(&w, (2, 2), None, 'B').unwrap();

    let mut learner = EffectLearner::new();
    let test_state = State::build(&w, (3, 3), Some('Y'), 'B').unwrap();

    let predicted_0 = learner.predict(&w, &test_state)
        .unwrap();
    assert_eq!(predicted_0, None);

    learner.apply_experience(&effects_of::<ChangePassenger>(&old_state, &new_state));

    let expected_1 = Some(State::build(&w, (3, 3), None, 'B').unwrap());
    let predicted_1 = learner.predict(&w, &test_state)
        .unwrap();
    assert_eq!(predicted_1, expected_1);
}
