use taxi::actions::Actions;
use taxi::configuration::SolverChoice;
use taxi::replay::{build_frames, build_step_string, build_summary_string, trim_step};
use taxi::runner::Attempt;
use taxi::state::State;
use taxi::text::{decimal_chars, split_lines};
use taxi::world::World;

#[test]
fn summary_of_solved_attempt() {
    assert_eq!(
        build_summary_string(true, 12),
        "Solved in 12 steps.\n\nLeft/Right arrow to advance.\nEscape to exit.\n"
    );
}

#[test]
fn summary_of_failed_attempt() {
    assert_eq!(
        build_summary_string(false, 100),
        "Failed after 100 steps.\n\nLeft/Right arrow to advance.\nEscape to exit.\n"
    );
}

#[test]
fn step_text_centres_the_number() {
    let actions = [Actions::East, Actions::PickUp];
    assert_eq!(build_step_string(0, false, &actions), "Step  0 \nNext action: E");
    assert_eq!(build_step_string(1, false, &actions), "Step  1 \nNext action: P");
    assert_eq!(build_step_string(2, true, &actions), "Step  2 \nSucceeded");
    assert_eq!(build_step_string(2, false, &actions), "Step  2 \nFailed");
    assert_eq!(build_step_string(42, false, &[]), "Step 42 \nFailed");
    assert_eq!(build_step_string(1234, true, &[]), "Step 1234\nSucceeded");
}

#[test]
fn trim_keeps_step_in_range() {
    assert_eq!(trim_step(5, -1), 0);
    assert_eq!(trim_step(5, 0), 0);
    assert_eq!(trim_step(5, 3), 3);
    assert_eq!(trim_step(5, 5), 5);
    assert_eq!(trim_step(5, 6), 5);
}

#[test]
fn decimal_writing() {
    assert_eq!(decimal_chars(0), vec!['0']);
    assert_eq!(decimal_chars(7), vec!['7']);
    assert_eq!(decimal_chars(10), vec!['1', '0']);
    assert_eq!(decimal_chars(9075), vec!['9', '0', '7', '5']);
}

#[test]
fn lines_of_text() {
    let lines = split_lines("ab\r\ncd\n\nef\r");
    assert_eq!(lines, vec![vec!['a', 'b'], vec!['c', 'd'], vec![], vec!['e', 'f', '\r']]);
    assert_eq!(split_lines(""), Vec::<Vec<char>>::new());
    assert_eq!(split_lines("\n"), vec![Vec::<char>::new()]);
    assert_eq!(split_lines("x\n"), vec![vec!['x']]);
}

#[test]
fn solver_names() {
    assert_eq!(SolverChoice::Random.name(), "Random");
    assert_eq!(SolverChoice::QLearner.name(), "Q-Learner");
    assert_eq!(SolverChoice::RMax.name(), "RMax");
    assert_eq!(SolverChoice::FactoredRMax.name(), "FactoredRMax");
    assert_eq!(SolverChoice::MaxQ.name(), "MaxQ");
    assert_eq!(SolverChoice::DoorMax.name(), "DoorMax");
}

#[test]
fn frames_follow_the_actions() {
    let source = "\
                  ┌─────┐\n\
                  │R . G│\n\
                  └─────┘\n\
                  ";
    let w = World::build_from_str(source).unwrap();
    let s = State::build(&w, (1, 0), Some('R'), 'G').unwrap();
    let mut attempt = Attempt::new(s, 4);
    attempt.step(Actions::West);
    attempt.step(Actions::PickUp);
    attempt.step(Actions::East);
    let frames = build_frames(&w, &attempt);
    assert_eq!(frames.len(), 4);
    assert_eq!(frames[0], "┌─────┐\n│p t d│\n└─────┘\n");
    assert_eq!(frames[1], "┌─────┐\n│p . d│\n└─────┘\n");
    assert_eq!(frames[2], "┌─────┐\n│T . d│\n└─────┘\n");
    assert_eq!(frames[3], "┌─────┐\n│. T d│\n└─────┘\n");
}
