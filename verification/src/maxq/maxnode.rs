use vstd::prelude::*;

use crate::maxq::qnode::{distinct_ids, hierarchy_fits, spec_q_index, QNodeType};
use crate::state::{names, spec_at_destination, State};
use crate::text::push_char;
use crate::actions::Actions;
use crate::doormax::condition::spec_condition;
use crate::world::{
    distinct_locations, find_id, lemma_find_id, lemma_location_named_at, spec_affect, ActionAffect, World,
    WorldView,
};

verus! {

/// The subtasks of the taxi problem.
#[derive(Debug, Clone, Copy, PartialEq, Eq, Structural)]
pub enum MaxNodeType {
    Root,
    Get,
    Put,
    Navigate(char),
}

/// A subtask and the choice nodes it chooses among, by index.
#[derive(Debug, Clone)]
pub struct MaxNode {
    pub node_type: MaxNodeType,
    pub qnodes: Vec<usize>,
}

/// The position of a subtask in the node list.
pub open spec fn spec_max_index(t: MaxNodeType, v: WorldView) -> int {
    match t {
        MaxNodeType::Root => 0,
        MaxNodeType::Get => 1,
        MaxNodeType::Put => 2,
        MaxNodeType::Navigate(id) => 3 + match find_id(v.fixed, id) {
            Some(k) => k,
            None => 0,
        },
    }
}

/// The subtask is done in `s`: the passenger delivered for the whole task, the
/// passenger riding for getting it, the passenger out of the taxi for putting it, the
/// taxi at the location for navigating there.
pub open spec fn spec_terminal(t: MaxNodeType, v: WorldView, s: State) -> bool {
    match t {
        MaxNodeType::Root => spec_at_destination(s),
        MaxNodeType::Get => s.passenger is None,
        MaxNodeType::Put => s.passenger is Some,
        MaxNodeType::Navigate(id) => find_id(v.fixed, id) matches Some(k) && v.fixed[k].position == s.taxi,
    }
}

/// Navigating to `id` is done exactly when the taxi stands on the cell of the location
/// named `id`, both coordinates alike; where the passenger waits there, exactly when
/// the taxi stands on the passenger's location; and, in a world whose locations have
/// distinct names and cells, exactly when a pick-up would act at that location.
pub proof fn lemma_navigate_done(v: WorldView, s: State, id: char)
    ensures
        spec_terminal(MaxNodeType::Navigate(id), v, s) <==> (find_id(v.fixed, id) matches Some(k)
            && v.fixed[k].position.x == s.taxi.x && v.fixed[k].position.y == s.taxi.y),
        s.passenger == Some(id) ==> (spec_terminal(MaxNodeType::Navigate(id), v, s) <==> spec_condition(v, s)[4]),
        distinct_locations(v) ==> (spec_terminal(MaxNodeType::Navigate(id), v, s) <==> spec_affect(
            v,
            s.taxi,
            Actions::PickUp,
        ) == ActionAffect::PickUp(id)),
{
    if distinct_locations(v) {
        lemma_location_named_at(v, id, s.taxi);
    }
}

/// The subtask at position `i` of the node list, and the choices it has.
pub open spec fn spec_max_node_at(v: WorldView, i: int) -> (MaxNodeType, Seq<QNodeType>) {
    if i == 0 {
        (MaxNodeType::Root, seq![QNodeType::Get, QNodeType::Put])
    } else if i == 1 {
        (MaxNodeType::Get, seq![QNodeType::PickUp, QNodeType::NavigateForGet])
    } else if i == 2 {
        (MaxNodeType::Put, seq![QNodeType::DropOff, QNodeType::NavigateForPut])
    } else {
        let id = v.fixed[i - 3].id;
        (
            MaxNodeType::Navigate(id),
            seq![QNodeType::North(id), QNodeType::South(id), QNodeType::East(id), QNodeType::West(id)],
        )
    }
}

impl MaxNodeType {
    /// The position of the subtask in the node list.
    pub fn get_index(self, world: &World) -> (i: usize)
        requires
            world.wf(),
            hierarchy_fits(world@),
            self matches MaxNodeType::Navigate(id) ==> names(world@, id),
        ensures
            i == spec_max_index(self, world@),
            i < 3 + world@.fixed.len(),
    {
        match self {
            MaxNodeType::Root => 0,
            MaxNodeType::Get => 1,
            MaxNodeType::Put => 2,
            MaxNodeType::Navigate(id) => {
                proof {
                    lemma_find_id(world@.fixed, id);
                }
                let id_index = match world.get_fixed_index(id) {
                    Some(k) => k,
                    None => 0,
                };
                3 + id_index
            },
        }
    }
}

/// The name of a subtask, with the location it heads for where it has one.
pub open spec fn max_node_text(t: MaxNodeType) -> Seq<char> {
    match t {
        MaxNodeType::Root => "Root"@,
        MaxNodeType::Get => "Get"@,
        MaxNodeType::Put => "Put"@,
        MaxNodeType::Navigate(id) => "Navigate("@ + seq![id] + ")"@,
    }
}

impl MaxNode {
    /// The name of the subtask, such as `Navigate(R)`.
    pub fn to_string(&self) -> (s: String)
        ensures
            s@ == max_node_text(self.node_type),
    {
        let mut s = String::new();
        match self.node_type {
            MaxNodeType::Root => s.append("Root"),
            MaxNodeType::Get => s.append("Get"),
            MaxNodeType::Put => s.append("Put"),
            MaxNodeType::Navigate(id) => {
                s.append("Navigate(");
                push_char(&mut s, id);
                s.append(")");
            },
        }
        assert(s@ =~= max_node_text(self.node_type));
        s
    }

    pub fn node_type(&self) -> (t: MaxNodeType)
        ensures
            t == self.node_type,
    {
        self.node_type
    }

    /// Whether the subtask is done in `state`.
    pub fn terminal_state(&self, world: &World, state: &State) -> (b: bool)
        ensures
            b == spec_terminal(self.node_type, world@, *state),
    {
        match self.node_type {
            MaxNodeType::Root => state.at_destination(),
            MaxNodeType::Get => state.get_passenger().is_none(),
            MaxNodeType::Put => state.get_passenger().is_some(),
            MaxNodeType::Navigate(id) => {
                proof {
                    lemma_find_id(world@.fixed, id);
                }
                match world.get_fixed_position(id) {
                    Some(p) => *state.get_taxi() == *p,
                    None => false,
                }
            },
        }
    }

    /// The number of subtasks of `world`.
    pub fn num_nodes(world: &World) -> (n: usize)
        requires
            hierarchy_fits(world@),
        ensures
            n == 3 + world@.fixed.len(),
    {
        3 + world.num_fixed_positions()
    }

    /// The subtasks of `world`, in the order of the node list: each is at the position
    /// `get_index` gives it, and lists the positions of its choices.
    pub fn build_nodes(world: &World) -> (nodes: Vec<MaxNode>)
        requires
            world.wf(),
            hierarchy_fits(world@),
            distinct_ids(world@),
        ensures
            nodes.len() == 3 + world@.fixed.len(),
            forall|i: int|
                0 <= i < nodes.len() ==> {
                    let (t, qs) = spec_max_node_at(world@, i);
                    &&& (#[trigger] nodes[i]).node_type == t
                    &&& spec_max_index(t, world@) == i
                    &&& nodes[i].qnodes@.len() == qs.len()
                    &&& forall|j: int| 0 <= j < qs.len() ==> nodes[i].qnodes@[j] == spec_q_index(qs[j], world@)
                },
    {
        let ghost v = world@;
        let mut nodes: Vec<MaxNode> = Vec::new();
        let mut qnodes = Vec::new();
        qnodes.push(QNodeType::Get.get_index(world));
        qnodes.push(QNodeType::Put.get_index(world));
        nodes.push(MaxNode { node_type: MaxNodeType::Root, qnodes });
        let mut qnodes = Vec::new();
        qnodes.push(QNodeType::PickUp.get_index(world));
        qnodes.push(QNodeType::NavigateForGet.get_index(world));
        nodes.push(MaxNode { node_type: MaxNodeType::Get, qnodes });
        let mut qnodes = Vec::new();
        qnodes.push(QNodeType::DropOff.get_index(world));
        qnodes.push(QNodeType::NavigateForPut.get_index(world));
        nodes.push(MaxNode { node_type: MaxNodeType::Put, qnodes });
        let n = world.num_fixed_positions();
        let mut id_index: usize = 0;
        while id_index < n
            invariant
                world.wf(),
                v == world@,
                n == v.fixed.len(),
                hierarchy_fits(v),
                distinct_ids(v),
                id_index <= n,
                nodes.len() == 3 + id_index,
                forall|i: int|
                    0 <= i < nodes.len() ==> {
                        let (t, qs) = spec_max_node_at(v, i);
                        &&& (#[trigger] nodes[i]).node_type == t
                        &&& spec_max_index(t, v) == i
                        &&& nodes[i].qnodes@.len() == qs.len()
                        &&& forall|j: int| 0 <= j < qs.len() ==> nodes[i].qnodes@[j] == spec_q_index(qs[j], v)
                    },
            decreases n - id_index,
        {
            let id = match world.get_fixed_id_from_index(id_index) {
                Some(id) => id,
                None => ' ',
            };
            proof {
                lemma_find_id(v.fixed, id);
                assert(find_id(v.fixed, id) == Some(id_index as int)) by {
                    if let Some(k) = find_id(v.fixed, id) {
                        if k < id_index {
                            assert(v.fixed[k].id != v.fixed[id_index as int].id);
                        }
                    }
                }
            }
            let mut qnodes = Vec::new();
            qnodes.push(QNodeType::North(id).get_index(world));
            qnodes.push(QNodeType::South(id).get_index(world));
            qnodes.push(QNodeType::East(id).get_index(world));
            qnodes.push(QNodeType::West(id).get_index(world));
            let node = MaxNode { node_type: MaxNodeType::Navigate(id), qnodes };
            proof {
                let i = nodes.len() as int;
                let (t, qs) = spec_max_node_at(v, i);
                assert(t == node.node_type);
                assert(node.qnodes@.len() == qs.len());
                assert forall|j: int| 0 <= j < qs.len() implies node.qnodes@[j] == spec_q_index(qs[j], v) by {}
            }
            nodes.push(node);
            id_index = id_index + 1;
        }
        nodes
    }

    /// The positions of the choices of the subtask.
    pub fn qnode_index_iter(&self) -> (s: &[usize])
        ensures
            s@ == self.qnodes@,
    {
        self.qnodes.as_slice()
    }
}

} // verus!
