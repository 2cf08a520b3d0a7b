use taxi::position::Position;
use taxi::actions::Actions;
use taxi::doormax::condition::Condition;
use taxi::doormax::condition_learner::ConditionLearner;
use taxi::doormax::effect::{ChangeTaxiX, Effect};
use taxi::doormax::hypothesis::{Hypothesis, Require};
use taxi::doormax::mcelearner::{CELearner, MCELearner};
use taxi::state::State;
use taxi::world::World;

const SOURCE: &str = "\
                      ┌───┬─────┐\n\
                      │R .│. . .│\n\
                      │   │     │\n\
                      │. .│G . .│\n\
                      │         │\n\
                      │. . . . .│\n\
                      │         │\n\
                      │.│Y .│B .│\n\
                      │ │   │   │\n\
                      │.│. .│. .│\n\
                      └─┴───┴───┘\n\
                      ";

#[test]
fn every_condition_is_enumerated() {
    let w = World::build_from_str(SOURCE).unwrap();
    let all = Condition::enumerate_all();
    for x in 0..5 {
        for y in 0..5 {
            let s = State::build(&w, (x, y), None, 'B').unwrap();
            let c = Condition::new(&w, &s);
            assert_eq!(all.iter().filter(|d| **d == c).count(), 1);
        }
    }
}

#[test]
fn combined_hypothesis_still_holds() {
    let a = Condition([true, false, false, true, false, false, true]);
    let b = Condition([true, true, false, false, false, false, true]);
    let h = Hypothesis::from(a);
    assert!(h.matches_cond(&a));
    assert!(!h.matches_cond(&b));
    let g = h.combine_cond(&b);
    assert!(g.matches_cond(&a));
    assert!(g.matches_cond(&b));
    assert!(g.matches(&h));
    assert!(!h.matches(&g));
    assert_eq!(g.0, [Require::True, Require::Any, Require::False, Require::Any, Require::False, Require::False, Require::True]);
}

#[test]
fn condition_learner_learns_success() {
    let a = Condition([false, false, true, false, false, false, false]);
    let mut l = ConditionLearner::new();
    assert_eq!(l.predict(&a), None);
    l.apply_experience(&a, true);
    assert_eq!(l.predict(&a), Some(true));
    let mut other = ConditionLearner::new();
    assert!(!l.overlaps(&other));
    other.apply_experience(&a, true);
    assert!(l.overlaps(&other));
    let mut third = ConditionLearner::new();
    third.remove_overlap(&l);
    third.apply_experience(&a, true);
    assert_eq!(third.predict(&a), Some(true));
}

#[test]
fn learner_repeats_seen_effect() {
    let w = World::build_from_str(SOURCE).unwrap();
    let old_state = State::build(&w, (1, 3), Some('R'), 'B').unwrap();
    let new_state = old_state.apply_action(&w, Actions::East);
    let c = Condition::new(&w, &old_state);
    let mut learner: CELearner<ChangeTaxiX> = CELearner::new();
    assert_eq!(learner.predict(&w, &old_state, &c).unwrap(), None);
    learner.apply_experience(&c, &old_state, &new_state);
    assert_eq!(learner.predict(&w, &old_state, &c).unwrap(), Some(new_state));
    assert_eq!(ChangeTaxiX::generate_effects(&old_state, &new_state), Some(ChangeTaxiX::new(1)));
}

#[test]
fn fresh_action_learner_knows_nothing() {
    let w = World::build_from_str(SOURCE).unwrap();
    let learner = MCELearner::new();
    let s = State::build(&w, (1, 3), Some('R'), 'B').unwrap();
    for i in 0..Actions::NUM_ELEMENTS {
        let a = Actions::from_index(i).unwrap();
        assert_eq!(learner.predict(&w, &s, a).unwrap(), None);
    }
}

#[test]
fn action_learner_predicts_after_learning_every_attribute() {
    let w = World::build_from_str(SOURCE).unwrap();
    let mut learner = MCELearner::new();
    let s = State::build(&w, (1, 3), Some('R'), 'B').unwrap();
    let t = State::build(&w, (2, 3), Some('R'), 'B').unwrap();
    learner.apply_experience(&w, &s, Actions::East, &t);
    // The attributes that did not change are predicted not to change.
    assert_eq!(learner.predict(&w, &s, Actions::East).unwrap(), Some(t));
    let u = State::build(&w, (0, 3), Some('R'), 'B').unwrap();
    learner.apply_experience(&w, &u, Actions::East, &u);
    // An experience without change leaves the effect learner of x with no effect
    // seen every time, so the move itself is no longer known.
    assert_eq!(learner.predict(&w, &s, Actions::East).unwrap(), None);
    // Where the move was seen blocked, nothing changes.
    assert_eq!(learner.predict(&w, &u, Actions::East).unwrap(), Some(u));
}

#[test]
fn learns_taxi_east() {
    let source_world = "\
                        ┌───┬─────┐\n\
                        │R .│. . .│\n\
                        │   │     │\n\
                        │. .│G . .│\n\
                        │         │\n\
                        │. . . . .│\n\
                        │         │\n\
                        │.│Y .│B .│\n\
                        │ │   │   │\n\
                        │.│. .│. .│\n\
                        └─┴───┴───┘\n\
                        ";

    let w = World::build_from_str(source_world).unwrap();

    let old_state = State::build(&w, (1, 3), Some('R'), 'B').unwrap();
    let new_state = old_state.apply_action(&w, Actions::East);
    assert_eq!(*new_state.get_taxi(), Position::new(2, 3));

    let mut learner = MCELearner::new();
    learner.apply_experience(&w, &old_state, Actions::East, &new_state);

    let predicted_0 = learner.predict(&w, &old_state, Actions::East).unwrap();
    assert_eq!(predicted_0, Some(new_state));
}
