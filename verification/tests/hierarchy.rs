use taxi::actions::Actions;
use taxi::doormax::reward::{
    generate_destination_index, generate_passenger_index, generate_reward_parent_index,
    num_reward_parents, reward_starts, total_reward_parents,
};
use taxi::maxq::maxnode::{MaxNode, MaxNodeType};
use taxi::maxq::primitivenode::{get_value_index, num_values};
use taxi::maxq::qnode::{QChild, QNodeType};
use taxi::state::State;
use taxi::world::World;

const SOURCE: &str = "\
                      ┌───┬─────┐\n\
                      │R .│. . G│\n\
                      │   │     │\n\
                      │. .│. . .│\n\
                      │         │\n\
                      │. . . . .│\n\
                      │         │\n\
                      │.│. .│. .│\n\
                      │ │   │   │\n\
                      │Y│. .│B .│\n\
                      └─┴───┴───┘\n\
                      ";

#[test]
fn reward_situations_fill_the_table() {
    let w = World::build_from_str(SOURCE).unwrap();
    let starts = reward_starts(&w);
    assert_eq!(starts, [0, 25, 50, 75, 100, 225]);
    assert_eq!(num_reward_parents(&w, Actions::DropOff), 4 * 5 * 25);
    assert_eq!(total_reward_parents(&w), 225 + 500);
    assert_eq!(generate_reward_parent_index(&w, Actions::North, 3, 2, 0, 0), 13);
    assert_eq!(generate_reward_parent_index(&w, Actions::PickUp, 3, 2, 2, 0), (2 * 5 + 2) * 5 + 3);
    assert_eq!(generate_reward_parent_index(&w, Actions::DropOff, 4, 4, 4, 3), 499);
}

#[test]
fn passenger_and_destination_digits() {
    let w = World::build_from_str(SOURCE).unwrap();
    let riding = State::build(&w, (0, 0), None, 'Y').unwrap();
    assert_eq!(generate_passenger_index(&w, &riding), Some(0));
    assert_eq!(generate_destination_index(&w, &riding), Some(2));
    let waiting = State::build(&w, (0, 0), Some('B'), 'G').unwrap();
    assert_eq!(generate_passenger_index(&w, &waiting), Some(4));
    assert_eq!(generate_destination_index(&w, &waiting), Some(1));
}

#[test]
fn subtasks_are_where_their_index_says() {
    let w = World::build_from_str(SOURCE).unwrap();
    let nodes = MaxNode::build_nodes(&w);
    assert_eq!(nodes.len(), MaxNode::num_nodes(&w));
    for (i, node) in nodes.iter().enumerate() {
        assert_eq!(node.node_type().get_index(&w), i);
    }
    assert_eq!(nodes[0].qnode_index_iter(), &[0, 3]);
    assert_eq!(nodes[1].qnode_index_iter(), &[2, 1]);
    assert_eq!(nodes[4].node_type(), MaxNodeType::Navigate('G'));
    assert_eq!(nodes[4].qnode_index_iter(), &[7, 11, 15, 19]);
}

#[test]
fn choices_are_where_their_index_says() {
    let w = World::build_from_str(SOURCE).unwrap();
    let types = QNodeType::build_types(&w);
    assert_eq!(types.len(), 6 + 4 * 4);
    for (i, t) in types.iter().enumerate() {
        assert_eq!(t.get_index(&w), i);
    }
    assert_eq!(types[21], QNodeType::West('B'));
}

#[test]
fn choice_children_and_completions() {
    let w = World::build_from_str(SOURCE).unwrap();
    let s = State::build(&w, (2, 3), Some('Y'), 'G').unwrap();
    assert_eq!(QNodeType::NavigateForGet.get_child(&w, &s), Some(QChild::MaxNode(5)));
    assert_eq!(QNodeType::NavigateForPut.get_child(&w, &s), Some(QChild::MaxNode(4)));
    assert_eq!(QNodeType::East('R').get_child(&w, &s), Some(QChild::Primitive(2)));
    assert_eq!(QNodeType::Get.get_completion_index(&w, &s), Some(2 * 4 + 1));
    assert_eq!(QNodeType::PickUp.get_completion_index(&w, &s), Some(2 * 25 + 17));
    assert_eq!(QNodeType::Put.get_completion_index(&w, &s), None);
    assert_eq!(QNodeType::PickUp.num_completions(&w), 100);
    let riding = State::build(&w, (2, 3), None, 'G').unwrap();
    assert_eq!(QNodeType::NavigateForGet.get_child(&w, &riding), None);
    assert_eq!(QNodeType::Get.get_completion_index(&w, &riding), None);
}

#[test]
fn subtask_ends() {
    let w = World::build_from_str(SOURCE).unwrap();
    let nodes = MaxNode::build_nodes(&w);
    let s = State::build(&w, (4, 0), Some('R'), 'G').unwrap();
    assert!(!nodes[0].terminal_state(&w, &s));
    assert!(!nodes[1].terminal_state(&w, &s));
    assert!(nodes[2].terminal_state(&w, &s));
    assert!(nodes[4].terminal_state(&w, &s));
    assert!(!nodes[3].terminal_state(&w, &s));
}

#[test]
fn primitive_values() {
    let w = World::build_from_str(SOURCE).unwrap();
    assert_eq!(num_values(Actions::PickUp), 2);
    assert_eq!(num_values(Actions::West), 1);
    let on_passenger = State::build(&w, (0, 0), Some('R'), 'G').unwrap();
    assert_eq!(get_value_index(Actions::PickUp, &w, &on_passenger), 0);
    assert_eq!(get_value_index(Actions::DropOff, &w, &on_passenger), 1);
    let at_goal = State::build(&w, (4, 0), None, 'G').unwrap();
    assert_eq!(get_value_index(Actions::DropOff, &w, &at_goal), 0);
    assert_eq!(get_value_index(Actions::North, &w, &at_goal), 0);
}
