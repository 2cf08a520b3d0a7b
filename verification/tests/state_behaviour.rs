use rand_pcg::Mcg128Xsl64;

use taxi::actions::Actions;
use taxi::position::Position;
use taxi::state::State;
use taxi::world::World;

#[test]
fn build_correct() {
    let source_world = "\
    ┌───┬─────┐\n\
    │R .│. . .│\n\
    │   │     │\n\
    │. .│G . .│\n\
    │         │\n\
    │. . . . .│\n\
    │         │\n\
    │.│Y .│B .│\n\
    │ │   │   │\n\
    │.│. .│. .│\n\
    └─┴───┴───┘\n\
    ";

    let w = World::build_from_str(source_world).unwrap();
    let expected_state = State {
        taxi: Position::new(1, 3),
        passenger: Some('R'),
        destination: 'B',
    };

    let res_state = State::build(&w, (1, 3), Some('R'), 'B').unwrap();
    assert_eq!(res_state, expected_state);
}

#[test]
fn pickup_dropoff_does_nothing_off_fixedpoint() {

    let source_world = "\
    ┌───┬─────┐\n\
    │R .│. . .│\n\
    │   │     │\n\
    │. .│G . .│\n\
    │         │\n\
    │. . . . .│\n\
    │         │\n\
    │.│Y .│B .│\n\
    │ │   │   │\n\
    │.│. .│. .│\n\
    └─┴───┴───┘\n\
    ";

    let w = World::build_from_str(source_world).unwrap();

    let initial_state = State::build(&w, (2, 2), Some('R'), 'G').unwrap();

    let expected_initial = "\
    ┌───┬─────┐\n\
    │p .│. . .│\n\
    │   │     │\n\
    │. .│d . .│\n\
    │         │\n\
    │. . t . .│\n\
    │         │\n\
    │.│. .│. .│\n\
    │ │   │   │\n\
    │.│. .│. .│\n\
    └─┴───┴───┘\n\
    ";

    assert_eq!(expected_initial, initial_state.display(&w));

    let state0 = initial_state.apply_action(&w, Actions::PickUp);
    assert_eq!(expected_initial, state0.display(&w));

    let state1 = state0.apply_action(&w, Actions::DropOff);
    assert_eq!(expected_initial, state1.display(&w));
}

#[test]
fn pickup_dropoff_does_nothing_on_empty_fixedpoint() {

    let source_world = "\
    ┌───┬─────┐\n\
    │R .│. . .│\n\
    │   │     │\n\
    │. .│G . .│\n\
    │         │\n\
    │. . . . .│\n\
    │         │\n\
    │.│Y .│B .│\n\
    │ │   │   │\n\
    │.│. .│. .│\n\
    └─┴───┴───┘\n\
    ";

    let w = World::build_from_str(source_world).unwrap();

    let initial_state = State::build(&w, (1, 3), Some('R'), 'G').unwrap();

    let expected_initial = "\
    ┌───┬─────┐\n\
    │p .│. . .│\n\
    │   │     │\n\
    │. .│d . .│\n\
    │         │\n\
    │. . . . .│\n\
    │         │\n\
    │.│t .│. .│\n\
    │ │   │   │\n\
    │.│. .│. .│\n\
    └─┴───┴───┘\n\
    ";

    assert_eq!(expected_initial, initial_state.display(&w));

    let state0 = initial_state.apply_action(&w, Actions::PickUp);
    assert_eq!(expected_initial, state0.display(&w));

    let state1 = state0.apply_action(&w, Actions::DropOff);
    assert_eq!(expected_initial, state1.display(&w));
}

#[test]
fn passenger_dropoff_at_other_fixed_position() {
    let source = "\
    ┌───┬─────┐\n\
    │. .│. . .│\n\
    │   │     │\n\
    │. .│. . .│\n\
    │         │\n\
    │. . . . .│\n\
    │         │\n\
    │.│R Y│. .│\n\
    │ │   │   │\n\
    │.│G .│. .│\n\
    └─┴───┴───┘\n\
    ";

    let script = [
        (
            "\
    ┌───┬─────┐\n\
    │. .│. . .│\n\
    │   │     │\n\
    │. .│. . .│\n\
    │         │\n\
    │. t . . .│\n\
    │         │\n\
    │.│p .│. .│\n\
    │ │   │   │\n\
    │.│d .│. .│\n\
    └─┴───┴───┘\n\
    ",
            Some('R'),
            false,
            Actions::South,
        ),
        (
            "\
    ┌───┬─────┐\n\
    │. .│. . .│\n\
    │   │     │\n\
    │. .│. . .│\n\
    │         │\n\
    │. . . . .│\n\
    │         │\n\
    │.│p .│. .│\n\
    │ │   │   │\n\
    │.│d .│. .│\n\
    └─┴───┴───┘\n\
    ",
            Some('R'),
            false,
            Actions::PickUp,
        ),
        (
            "\
    ┌───┬─────┐\n\
    │. .│. . .│\n\
    │   │     │\n\
    │. .│. . .│\n\
    │         │\n\
    │. . . . .│\n\
    │         │\n\
    │.│T .│. .│\n\
    │ │   │   │\n\
    │.│d .│. .│\n\
    └─┴───┴───┘\n\
    ",
            None,
            false,
            Actions::East,
        ),
        (
            "\
    ┌───┬─────┐\n\
    │. .│. . .│\n\
    │   │     │\n\
    │. .│. . .│\n\
    │         │\n\
    │. . . . .│\n\
    │         │\n\
    │.│. T│. .│\n\
    │ │   │   │\n\
    │.│d .│. .│\n\
    └─┴───┴───┘\n\
    ",
            None,
            false,
            Actions::DropOff,
        ),
        (
            "\
    ┌───┬─────┐\n\
    │. .│. . .│\n\
    │   │     │\n\
    │. .│. . .│\n\
    │         │\n\
    │. . . . .│\n\
    │         │\n\
    │.│. p│. .│\n\
    │ │   │   │\n\
    │.│d .│. .│\n\
    └─┴───┴───┘\n\
    ",
            Some('Y'),
            false,
            Actions::North,
        ),
        (
            "\
    ┌───┬─────┐\n\
    │. .│. . .│\n\
    │   │     │\n\
    │. .│. . .│\n\
    │         │\n\
    │. . t . .│\n\
    │         │\n\
    │.│. p│. .│\n\
    │ │   │   │\n\
    │.│d .│. .│\n\
    └─┴───┴───┘\n\
    ",
            Some('Y'),
            false,
            Actions::North,
        ),
    ];

    let w = World::build_from_str(source).unwrap();

    let mut state = State::build(&w, (1, 2), Some('R'), 'G').unwrap();
    println!("");

    for &(expected_str, expected_passenger, expected_at_destination, next_action) in
        script.iter()
    {
        println!(
            "{} passenger = {:?} at_destination = {:?} next_action = {:?}",
            state.display(&w),
            state.passenger,
            state.at_destination(),
            next_action
        );

        assert_eq!(expected_passenger, state.passenger);
        assert_eq!(expected_at_destination, state.at_destination());
        assert_eq!(expected_str, state.display(&w));

        state = state.apply_action(&w, next_action);
    }
}

#[test]
fn taxi_full_cycle() {
    let source = "\
    ┌───┬─────┐\n\
    │. .│. . .│\n\
    │   │     │\n\
    │. .│. . .│\n\
    │         │\n\
    │. R . . .│\n\
    │         │\n\
    │.│. .│G .│\n\
    │ │   │   │\n\
    │.│. .│. .│\n\
    └─┴───┴───┘\n\
    ";

    let script = [
        (
            "\
    ┌───┬─────┐\n\
    │. .│. . .│\n\
    │   │     │\n\
    │. .│. . .│\n\
    │         │\n\
    │. p . . .│\n\
    │         │\n\
    │.│t .│d .│\n\
    │ │   │   │\n\
    │.│. .│. .│\n\
    └─┴───┴───┘\n\
    ",
            Some('R'),
            false,
            Actions::North,
        ),
        (
            "\
    ┌───┬─────┐\n\
    │. .│. . .│\n\
    │   │     │\n\
    │. .│. . .│\n\
    │         │\n\
    │. p . . .│\n\
    │         │\n\
    │.│. .│d .│\n\
    │ │   │   │\n\
    │.│. .│. .│\n\
    └─┴───┴───┘\n\
    ",
            Some('R'),
            false,
            Actions::PickUp,
        ),
        (
            "\
    ┌───┬─────┐\n\
    │. .│. . .│\n\
    │   │     │\n\
    │. .│. . .│\n\
    │         │\n\
    │. T . . .│\n\
    │         │\n\
    │.│. .│d .│\n\
    │ │   │   │\n\
    │.│. .│. .│\n\
    └─┴───┴───┘\n\
    ",
            None,
            false,
            Actions::East,
        ),
        (
            "\
    ┌───┬─────┐\n\
    │. .│. . .│\n\
    │   │     │\n\
    │. .│. . .│\n\
    │         │\n\
    │. . T . .│\n\
    │         │\n\
    │.│. .│d .│\n\
    │ │   │   │\n\
    │.│. .│. .│\n\
    └─┴───┴───┘\n\
    ",
            None,
            false,
            Actions::DropOff,
        ),
        (
            "\
    ┌───┬─────┐\n\
    │. .│. . .│\n\
    │   │     │\n\
    │. .│. . .│\n\
    │         │\n\
    │. . T . .│\n\
    │         │\n\
    │.│. .│d .│\n\
    │ │   │   │\n\
    │.│. .│. .│\n\
    └─┴───┴───┘\n\
    ",
            None,
            false,
            Actions::East,
        ),
        (
            "\
    ┌───┬─────┐\n\
    │. .│. . .│\n\
    │   │     │\n\
    │. .│. . .│\n\
    │         │\n\
    │. . . T .│\n\
    │         │\n\
    │.│. .│d .│\n\
    │ │   │   │\n\
    │.│. .│. .│\n\
    └─┴───┴───┘\n\
    ",
            None,
            false,
            Actions::PickUp,
        ),
        (
            "\
    ┌───┬─────┐\n\
    │. .│. . .│\n\
    │   │     │\n\
    │. .│. . .│\n\
    │         │\n\
    │. . . T .│\n\
    │         │\n\
    │.│. .│d .│\n\
    │ │   │   │\n\
    │.│. .│. .│\n\
    └─┴───┴───┘\n\
    ",
            None,
            false,
            Actions::South,
        ),
        (
            "\
    ┌───┬─────┐\n\
    │. .│. . .│\n\
    │   │     │\n\
    │. .│. . .│\n\
    │         │\n\
    │. . . . .│\n\
    │         │\n\
    │.│. .│d .│\n\
    │ │   │   │\n\
    │.│. .│. .│\n\
    └─┴───┴───┘\n\
    ",
            None,
            false,
            Actions::DropOff,
        ),
        (
            "\
    ┌───┬─────┐\n\
    │. .│. . .│\n\
    │   │     │\n\
    │. .│. . .│\n\
    │         │\n\
    │. . . . .│\n\
    │         │\n\
    │.│. .│D .│\n\
    │ │   │   │\n\
    │.│. .│. .│\n\
    └─┴───┴───┘\n\
    ",
            Some('G'),
            true,
            Actions::East,
        ),
        (
            "\
    ┌───┬─────┐\n\
    │. .│. . .│\n\
    │   │     │\n\
    │. .│. . .│\n\
    │         │\n\
    │. . . . .│\n\
    │         │\n\
    │.│. .│D t│\n\
    │ │   │   │\n\
    │.│. .│. .│\n\
    └─┴───┴───┘\n\
    ",
            Some('G'),
            true,
            Actions::South,
        ),
    ];

    let w = World::build_from_str(source).unwrap();

    let mut state = State::build(&w, (1, 3), Some('R'), 'G').unwrap();
    println!("");

    for &(expected_str, expected_passenger, expected_at_destination, next_action) in
        script.iter()
    {
        println!(
            "{} passenger = {:?} at_destination = {:?} next_action = {:?}",
            state.display(&w),
            state.passenger,
            state.at_destination(),
            next_action
        );

        assert_eq!(expected_passenger, state.passenger);
        assert_eq!(expected_at_destination, state.at_destination());
        assert_eq!(expected_str, state.display(&w));

        state = state.apply_action(&w, next_action);
    }
}

#[test]
fn build_random_state() {
    let source_world = "\
┌───┬─────┐\n\
│R .│. . G│\n\
│   │     │\n\
│. .│. . .│\n\
│         │\n\
│. . . . .│\n\
│         │\n\
│.│. .│. .│\n\
│ │   │   │\n\
│Y│. .│B .│\n\
└─┴───┴───┘\n\
";

    let w = World::build_from_str(source_world).unwrap();

    let mut rng = Mcg128Xsl64::new(0xcafe_f00d_d15e_a5e5);

    for _ in 0..20 {

        let state = State::build_random(&w, &mut rng).unwrap();

        println!("{:?}", state);
        assert!(state.taxi.x >= 0);
        assert!(state.taxi.x < w.width);
        assert!(state.taxi.y >= 0);
        assert!(state.taxi.y < w.height);

        let passenger_id = state.passenger.unwrap();

        let passenger_fp_position = w.fixed_positions.iter().position(
            |fp| fp.id == passenger_id,
        );

        assert_ne!(passenger_fp_position, None);

        let destination_fp_position = w.fixed_positions.iter().position(
            |fp| fp.id == state.destination,
        );

        assert_ne!(destination_fp_position, None);

        assert_ne!(passenger_fp_position, destination_fp_position);
    }
}
