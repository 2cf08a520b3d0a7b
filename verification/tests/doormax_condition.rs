use taxi::doormax::condition::Condition;
use taxi::state::State;
use taxi::world::World;

#[test]
fn enumerates_all() {
    let all = Condition::enumerate_all();

    assert_eq!(all.len(), 2_usize.pow(7));

    for i in 0..all.len() {
        for j in (i + 1)..all.len() {
            assert!(all[i] != all[j]);
        }
    }
}

#[test]
fn can_build() {
    let source = "\
                  ┌───┬─────┐\n\
                  │. .│. . .│\n\
                  │   │     │\n\
                  │. .│. . .│\n\
                  │         │\n\
                  │. . . . .│\n\
                  │         │\n\
                  │.│R Y│. .│\n\
                  │ │   │   │\n\
                  │.│G .│. .│\n\
                  └─┴───┴───┘\n\
                  ";
    let w = World::build_from_str(source).unwrap();

    let state0 = State::build(&w, (1, 2), Some('R'), 'G').unwrap();
    let cond0 = Condition::new(&w, &state0);
    let expected_cond0 = Condition([false, false, false, false, false, false, false]);
    assert_eq!(cond0, expected_cond0);

    let state1 = State::build(&w, (1, 3), Some('R'), 'G').unwrap();
    let cond1 = Condition::new(&w, &state1);
    let expected_cond1 = Condition([false, false, false, true, true, false, false]);
    assert_eq!(cond1, expected_cond1);

    let state2 = State::build(&w, (1, 4), None, 'G').unwrap();
    let cond2 = Condition::new(&w, &state2);
    let expected_cond2 = Condition([false, true, false, true, false, true, true]);
    assert_eq!(cond2, expected_cond2);

    let state3 = State::build(&w, (4, 0), None, 'G').unwrap();
    let cond3 = Condition::new(&w, &state3);
    let expected_cond3 = Condition([true, false, true, false, false, false, true]);
    assert_eq!(cond3, expected_cond3);
}
