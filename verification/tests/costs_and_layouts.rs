use taxi::actions::Actions;
use taxi::doormax::reward::fits_rewards;
use taxi::factoredrmax::{fits_layout, num_parents, total_transitions, TransitionLayout};
use taxi::maxq::qnode::fits_hierarchy;
use taxi::state_indexer::fits_numbering;
use taxi::state::{CostKind, State};
use taxi::world::World;

const SOURCE: &str = "\
                      ┌───┬─────┐\n\
                      │R .│. . G│\n\
                      │   │     │\n\
                      │. .│. . .│\n\
                      │         │\n\
                      │. . . . .│\n\
                      │         │\n\
                      │.│. .│. .│\n\
                      │ │   │   │\n\
                      │Y│. .│B .│\n\
                      └─┴───┴───┘\n\
                      ";

#[test]
fn moves_cost_movement() {
    let w = World::build_from_str(SOURCE).unwrap();
    let state = State::build(&w, (2, 2), Some('R'), 'B').unwrap();
    for action in [Actions::North, Actions::South, Actions::East, Actions::West] {
        assert_eq!(state.cost_kind(&w, action), CostKind::Movement);
    }
    // A move into a wall costs the same.
    let blocked = State::build(&w, (1, 0), Some('R'), 'B').unwrap();
    assert_eq!(blocked.cost_kind(&w, Actions::East), CostKind::Movement);
}

#[test]
fn pick_up_costs() {
    let w = World::build_from_str(SOURCE).unwrap();
    let at_passenger = State::build(&w, (0, 0), Some('R'), 'B').unwrap();
    assert_eq!(at_passenger.cost_kind(&w, Actions::PickUp), CostKind::Free);

    let elsewhere_location = State::build(&w, (0, 0), Some('G'), 'B').unwrap();
    assert_eq!(elsewhere_location.cost_kind(&w, Actions::PickUp), CostKind::MissPickup);

    let off_location = State::build(&w, (1, 1), Some('R'), 'B').unwrap();
    assert_eq!(off_location.cost_kind(&w, Actions::PickUp), CostKind::MissPickup);

    let riding = State::build(&w, (0, 0), None, 'B').unwrap();
    assert_eq!(riding.cost_kind(&w, Actions::PickUp), CostKind::MissPickup);
}

#[test]
fn drop_off_costs() {
    let w = World::build_from_str(SOURCE).unwrap();
    let at_destination = State::build(&w, (3, 4), None, 'B').unwrap();
    assert_eq!(at_destination.cost_kind(&w, Actions::DropOff), CostKind::Free);

    let wrong_location = State::build(&w, (3, 4), None, 'G').unwrap();
    assert_eq!(wrong_location.cost_kind(&w, Actions::DropOff), CostKind::MissDropoff);

    let off_location = State::build(&w, (2, 2), None, 'B').unwrap();
    assert_eq!(off_location.cost_kind(&w, Actions::DropOff), CostKind::MissDropoff);

    let empty_taxi = State::build(&w, (3, 4), Some('R'), 'B').unwrap();
    assert_eq!(empty_taxi.cost_kind(&w, Actions::DropOff), CostKind::EmptyDropoff);
}

#[test]
fn factored_parent_counts() {
    let w = World::build_from_str(SOURCE).unwrap();
    assert_eq!(num_parents(&w, Actions::North, 0), 5);
    assert_eq!(num_parents(&w, Actions::East, 0), 25);
    assert_eq!(num_parents(&w, Actions::West, 1), 5);
    assert_eq!(num_parents(&w, Actions::South, 2), 5);
    assert_eq!(num_parents(&w, Actions::PickUp, 2), 125);
    assert_eq!(num_parents(&w, Actions::DropOff, 2), 500);
    assert_eq!(num_parents(&w, Actions::DropOff, 3), 4);
}

#[test]
fn factored_layout_fills_slots() {
    let w = World::build_from_str(SOURCE).unwrap();
    let layout = TransitionLayout::new(&w);
    let expected_starts: [usize; 24] = [
        0, 5, 10, 15, 19, 24, 29, 34, 38, 63, 68, 73, 77, 102, 107, 112, 116, 121, 126, 251, 255, 260, 265, 765,
    ];
    assert_eq!(layout.parent_index_starts, expected_starts);
    assert_eq!(layout.transition_starts.len(), 769);
    assert_eq!(layout.transition_starts[0], 0);
    // The first y parent of North follows the five x parents of five values each.
    assert_eq!(layout.transition_starts[5], 25);
    assert_eq!(total_transitions(&w), 3821);
}

#[test]
fn factored_parent_indices() {
    let w = World::build_from_str(SOURCE).unwrap();
    let layout = TransitionLayout::new(&w);
    assert_eq!(layout.generate_x_parent_index(&w, Actions::North, 2, 3), 2);
    assert_eq!(layout.generate_x_parent_index(&w, Actions::East, 2, 3), 55);
    assert_eq!(layout.generate_y_parent_index(&w, Actions::South, 3), 27);
    assert_eq!(layout.generate_passenger_parent_index(&w, Actions::PickUp, 2, 3, 1, 0), 212);
    assert_eq!(layout.generate_passenger_parent_index(&w, Actions::DropOff, 2, 3, 2, 1), 612);
    assert_eq!(layout.generate_destination_parent_index(&w, Actions::West, 3), 115);
}

#[test]
fn sizes_of_small_worlds_fit() {
    let w = World::build_from_str(SOURCE).unwrap();
    assert!(fits_numbering(&w));
    assert!(fits_rewards(&w));
    assert!(fits_layout(&w));
    assert!(fits_hierarchy(&w));
}

#[test]
fn hierarchy_needs_distinct_names() {
    let source = "\
                  ┌─────┐\n\
                  │t . t│\n\
                  │     │\n\
                  │R . G│\n\
                  └─────┘\n\
                  ";
    let w = World::build_from_str(source).unwrap();
    assert_eq!(w.fixed_positions.len(), 4);
    assert!(!fits_hierarchy(&w));
    assert!(fits_numbering(&w));
}
