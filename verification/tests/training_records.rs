use rand_pcg::Mcg128Xsl64;

use taxi::configuration::{build_probes, Probe as ProbeConfig};
use taxi::position::Position;
use taxi::random_solver::RandomSolver;
use taxi::runner::{run_recorded_training_session, run_training_session, Error, Probe, Trial};
use taxi::state::{self, State};
use taxi::world::{FixedPosition, World};

const SOURCE: &str = "\
                      ┌───┬─────┐\n\
                      │R .│. . G│\n\
                      │   │     │\n\
                      │. .│. . .│\n\
                      │         │\n\
                      │. . . . .│\n\
                      │         │\n\
                      │.│. .│. .│\n\
                      │ │   │   │\n\
                      │Y│. .│B .│\n\
                      └─┴───┴───┘\n\
                      ";

#[test]
fn draws_give_the_state() {
    let w = World::build_from_str(SOURCE).unwrap();
    // Locations in reading order: R, G, Y, B.
    let s = State::state_from_draws(&w, 1, 2, 3, 2);
    assert_eq!(
        s,
        State {
            taxi: Position::new(1, 2),
            passenger: Some('B'),
            destination: 'G',
        }
    );
    let t = State::state_from_draws(&w, 0, 0, 0, 3);
    assert_eq!(t.passenger, Some('R'));
    assert_eq!(t.destination, 'B');
}

#[test]
fn session_total_adds_up_the_trials() {
    let w = World::build_from_str(SOURCE).unwrap();
    let mut rng = Mcg128Xsl64::new(42);
    let mut solver = RandomSolver::new();
    let mut trials: Vec<Trial> = Vec::new();
    let result = run_recorded_training_session(&w, &[], 4, 20, &mut solver, &mut rng, &mut trials).unwrap();
    // Without probes the first trial ends the session.
    assert_eq!(trials.len(), 1);
    assert!(trials[0].probes_solved);
    assert_eq!(result, Some(trials[0].learned.unwrap_or(20)));
}

#[test]
fn session_without_success_records_every_trial() {
    let w = World::build_from_str(SOURCE).unwrap();
    let mut rng = Mcg128Xsl64::new(7);
    let mut solver = RandomSolver::new();
    // No action sequence of length 0 delivers this passenger.
    let probe = Probe::new(State::build(&w, (2, 2), Some('R'), 'B').unwrap(), 0);
    let mut trials: Vec<Trial> = Vec::new();
    let result = run_recorded_training_session(&w, &[probe], 3, 10, &mut solver, &mut rng, &mut trials).unwrap();
    assert_eq!(result, None);
    assert_eq!(trials.len(), 3);
    assert!(trials.iter().all(|t| !t.probes_solved));
    assert!(trials.iter().all(|t| t.start.passenger.is_some()));
}

#[test]
fn session_error_carries_the_drawing() {
    let w = World::build_from_str("┌───┐\n│R .│\n└───┘\n").unwrap();
    let mut rng = Mcg128Xsl64::new(1);
    let mut solver = RandomSolver::new();
    let mut trials: Vec<Trial> = Vec::new();
    match run_recorded_training_session(&w, &[], 2, 10, &mut solver, &mut rng, &mut trials) {
        Err(Error::BuildRandomState(state::Error::TooFewFixedPositions {
            num_fixed_positions,
            world,
        })) => {
            assert_eq!(num_fixed_positions, 1);
            assert_eq!(world, w.display());
        }
        other => panic!("expected a refusal, got {:?}", other),
    }
    assert!(trials.is_empty());
    assert!(run_training_session(&w, &[], 0, 10, &mut solver, &mut rng).unwrap().is_none());
}

#[test]
fn first_unbuildable_probe_is_reported() {
    let w = World::build_from_str(SOURCE).unwrap();
    let probes = [
        ProbeConfig { taxi_pos: (1, 1), passenger_loc: Some('R'), destination_loc: 'B', max_steps: 30 },
        ProbeConfig { taxi_pos: (1, 1), passenger_loc: None, destination_loc: 'Q', max_steps: 30 },
        ProbeConfig { taxi_pos: (9, 1), passenger_loc: None, destination_loc: 'B', max_steps: 30 },
    ];
    match build_probes(&w, &probes) {
        Err(state::Error::InvalidDestination { id, world }) => {
            assert_eq!(id, 'Q');
            assert_eq!(world, w.display());
        }
        other => panic!("expected the destination to be refused, got {:?}", other.is_ok()),
    }
}

#[test]
fn locations_off_the_grid_are_not_drawn() {
    let mut w = World::build_from_str(SOURCE).unwrap();
    let shown = w.display();
    w.fixed_positions.push(FixedPosition { id: 'Z', position: Position::new(10, 10) });
    assert_eq!(w.display(), shown);
    assert_eq!(w.display_strings().len(), 11);
}

#[test]
fn refusal_comes_before_any_limit() {
    let w = World::build_from_str("┌───┐\n│R .│\n└───┘\n").unwrap();
    let mut rng = Mcg128Xsl64::new(3);
    let mut solver = RandomSolver::new();
    // With one location the session is refused at once, whatever the limits and
    // the probes.
    let far = Probe::new(
        State {
            taxi: Position::new(50, 50),
            passenger: Some('Q'),
            destination: 'Z',
        },
        3,
    );
    match run_training_session(&w, &[far], usize::MAX, usize::MAX, &mut solver, &mut rng) {
        Err(Error::BuildRandomState(state::Error::TooFewFixedPositions { num_fixed_positions, world })) => {
            assert_eq!(num_fixed_positions, 1);
            assert_eq!(world, w.display());
        }
        other => panic!("expected a refusal, got {:?}", other),
    }
}
