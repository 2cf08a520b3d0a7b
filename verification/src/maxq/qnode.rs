use vstd::prelude::*;

use crate::actions::Actions;
use crate::actions::spec_action_index;
use crate::maxq::maxnode::{spec_max_index, spec_max_node_at, MaxNodeType};
use crate::state::{names, State};
use crate::text::push_char;
use crate::world::{find_id, lemma_find_id, World, WorldView};

verus! {

/// The kinds of the nodes that choose a child in the task hierarchy.
#[derive(Debug, Clone, Copy, PartialEq, Eq, Structural)]
pub enum QNodeType {
    Get,
    NavigateForGet,
    PickUp,
    Put,
    NavigateForPut,
    DropOff,
    North(char),
    South(char),
    East(char),
    West(char),
}

/// The child of a choice node: a primitive action or a subtask, by index.
#[derive(Debug, Clone, Copy, PartialEq, Eq, Structural)]
pub enum QChild {
    Primitive(usize),
    MaxNode(usize),
}

/// The sizes the hierarchy of a world needs fit the machine.
pub open spec fn hierarchy_fits(v: WorldView) -> bool {
    &&& v.width * v.height <= i32::MAX
    &&& v.fixed.len() * v.fixed.len() <= usize::MAX
    &&& v.fixed.len() * (v.width * v.height) <= usize::MAX
    &&& 6 + 4 * v.fixed.len() <= usize::MAX
}

/// The locations have distinct names.
pub open spec fn distinct_ids(v: WorldView) -> bool {
    forall|j: int, k: int| 0 <= j < k < v.fixed.len() ==> #[trigger] v.fixed[j].id != #[trigger] v.fixed[k].id
}

/// Whether the hierarchy of `world` can be laid out: sizes that fit the machine and
/// locations with distinct names; checked without overflow.
pub fn fits_hierarchy(world: &World) -> (b: bool)
    requires
        world.wf(),
    ensures
        b == (hierarchy_fits(world@) && distinct_ids(world@)),
{
    let ghost v = world@;
    let w = world.width as u64;
    let h = world.height as u64;
    proof {
        assert(w * h <= 0xffff_ffff_ffff_ffffu64) by (nonlinear_arith)
            requires
                w <= 0x7fff_ffff,
                h <= 0x7fff_ffff,
        ;
    }
    let cells64 = w * h;
    if cells64 > 0x7fff_ffffu64 {
        return false;
    }
    let num_cells = cells64 as usize;
    let d = world.fixed_positions.len();
    let sizes_fit = match d.checked_mul(d) {
        None => false,
        Some(_) => match d.checked_mul(num_cells) {
            None => false,
            Some(_) => match d.checked_mul(4) {
                None => false,
                Some(x) => x.checked_add(6).is_some(),
            },
        },
    };
    if !sizes_fit {
        return false;
    }
    let mut k: usize = 0;
    while k < d
        invariant
            v == world@,
            d == v.fixed.len(),
            k <= d,
            forall|i: int, j: int| 0 <= i < j < k ==> #[trigger] v.fixed[i].id != #[trigger] v.fixed[j].id,
        decreases d - k,
    {
        let id = world.fixed_positions[k].id;
        let mut i: usize = 0;
        while i < k
            invariant
                v == world@,
                d == v.fixed.len(),
                i <= k < d,
                id == v.fixed[k as int].id,
                forall|j: int| 0 <= j < i ==> #[trigger] v.fixed[j].id != id,
            decreases k - i,
        {
            if world.fixed_positions[i].id == id {
                proof {
                    assert(v.fixed[i as int].id == v.fixed[k as int].id);
                }
                return false;
            }
            i = i + 1;
        }
        k = k + 1;
    }
    true
}

/// The location a node type refers to, for the directional ones.
pub open spec fn q_target(t: QNodeType) -> Option<char> {
    match t {
        QNodeType::North(id) | QNodeType::South(id) | QNodeType::East(id) | QNodeType::West(id) => Some(id),
        _ => None,
    }
}

/// The position of a choice node in the node list of a world with `d` locations,
/// the location of a directional node being at `k`.
pub open spec fn spec_q_index(t: QNodeType, v: WorldView) -> int {
    let d = v.fixed.len() as int;
    let k = match q_target(t) {
        Some(id) => match find_id(v.fixed, id) {
            Some(k) => k,
            None => 0,
        },
        None => 0,
    };
    match t {
        QNodeType::Get => 0,
        QNodeType::NavigateForGet => 1,
        QNodeType::PickUp => 2,
        QNodeType::Put => 3,
        QNodeType::NavigateForPut => 4,
        QNodeType::DropOff => 5,
        QNodeType::North(_) => 6 + k,
        QNodeType::South(_) => 6 + d + k,
        QNodeType::East(_) => 6 + 2 * d + k,
        QNodeType::West(_) => 6 + 3 * d + k,
    }
}

/// The node types in the order of the node list.
pub open spec fn spec_q_type_at(v: WorldView, i: int) -> QNodeType {
    let d = v.fixed.len() as int;
    if i == 0 {
        QNodeType::Get
    } else if i == 1 {
        QNodeType::NavigateForGet
    } else if i == 2 {
        QNodeType::PickUp
    } else if i == 3 {
        QNodeType::Put
    } else if i == 4 {
        QNodeType::NavigateForPut
    } else if i == 5 {
        QNodeType::DropOff
    } else if i < 6 + d {
        QNodeType::North(v.fixed[i - 6].id)
    } else if i < 6 + 2 * d {
        QNodeType::South(v.fixed[i - 6 - d].id)
    } else if i < 6 + 3 * d {
        QNodeType::East(v.fixed[i - 6 - 2 * d].id)
    } else {
        QNodeType::West(v.fixed[i - 6 - 3 * d].id)
    }
}

/// The number of completion values a choice node keeps.
pub open spec fn spec_num_completions(t: QNodeType, v: WorldView) -> int {
    let d = v.fixed.len() as int;
    let cells = v.width * v.height;
    match t {
        QNodeType::Get => d * d,
        QNodeType::NavigateForGet | QNodeType::NavigateForPut => d,
        QNodeType::PickUp | QNodeType::DropOff => d * cells,
        QNodeType::Put => 0,
        _ => cells,
    }
}

/// The cell number of the taxi.
pub open spec fn spec_taxi_cell(v: WorldView, s: State) -> int {
    s.taxi.y * v.width + s.taxi.x
}

/// The index of the waiting passenger's location.
pub open spec fn spec_passenger_slot(v: WorldView, s: State) -> Option<int> {
    match s.passenger {
        Some(id) => find_id(v.fixed, id),
        None => None,
    }
}

/// Which completion value of a choice node a state uses: it depends on what the node's
/// subtask can still change.
pub open spec fn spec_completion_index(t: QNodeType, v: WorldView, s: State) -> Option<int> {
    let d = v.fixed.len() as int;
    let cells = v.width * v.height;
    let dest = find_id(v.fixed, s.destination);
    match t {
        QNodeType::Get => match (spec_passenger_slot(v, s), dest) {
            (Some(p), Some(k)) => Some(p * d + k),
            _ => None,
        },
        QNodeType::NavigateForGet => spec_passenger_slot(v, s),
        QNodeType::PickUp => match spec_passenger_slot(v, s) {
            Some(p) => Some(p * cells + spec_taxi_cell(v, s)),
            None => None,
        },
        QNodeType::Put => None,
        QNodeType::NavigateForPut => dest,
        QNodeType::DropOff => match dest {
            Some(k) => Some(k * cells + spec_taxi_cell(v, s)),
            None => None,
        },
        _ => Some(spec_taxi_cell(v, s)),
    }
}

/// The child a choice node hands control to in a state.
pub open spec fn spec_child(t: QNodeType, v: WorldView, s: State) -> Option<QChild> {
    match t {
        QNodeType::Get => Some(QChild::MaxNode(1)),
        QNodeType::NavigateForGet => match s.passenger {
            Some(id) => Some(QChild::MaxNode(spec_max_index(MaxNodeType::Navigate(id), v) as usize)),
            None => None,
        },
        QNodeType::PickUp => Some(QChild::Primitive(4)),
        QNodeType::Put => Some(QChild::MaxNode(2)),
        QNodeType::NavigateForPut => Some(
            QChild::MaxNode(spec_max_index(MaxNodeType::Navigate(s.destination), v) as usize),
        ),
        QNodeType::DropOff => Some(QChild::Primitive(5)),
        QNodeType::North(_) => Some(QChild::Primitive(0)),
        QNodeType::South(_) => Some(QChild::Primitive(1)),
        QNodeType::East(_) => Some(QChild::Primitive(2)),
        QNodeType::West(_) => Some(QChild::Primitive(3)),
    }
}

/// The name of a choice node, with the location it heads for where it has one.
pub open spec fn q_node_text(t: QNodeType) -> Seq<char> {
    match t {
        QNodeType::Get => "Get"@,
        QNodeType::NavigateForGet => "NavigateForGet"@,
        QNodeType::PickUp => "Pickup"@,
        QNodeType::Put => "Put"@,
        QNodeType::NavigateForPut => "NavigateForPut"@,
        QNodeType::DropOff => "DropOff"@,
        QNodeType::North(id) => "North("@ + seq![id] + ")"@,
        QNodeType::South(id) => "South("@ + seq![id] + ")"@,
        QNodeType::East(id) => "East("@ + seq![id] + ")"@,
        QNodeType::West(id) => "West("@ + seq![id] + ")"@,
    }
}

impl QNodeType {
    /// The name of the node, such as `North(R)`.
    pub fn to_string(&self) -> (s: String)
        ensures
            s@ == q_node_text(*self),
    {
        let mut s = String::new();
        match *self {
            QNodeType::Get => s.append("Get"),
            QNodeType::NavigateForGet => s.append("NavigateForGet"),
            QNodeType::PickUp => s.append("Pickup"),
            QNodeType::Put => s.append("Put"),
            QNodeType::NavigateForPut => s.append("NavigateForPut"),
            QNodeType::DropOff => s.append("DropOff"),
            QNodeType::North(id) => {
                s.append("North(");
                push_char(&mut s, id);
                s.append(")");
            },
            QNodeType::South(id) => {
                s.append("South(");
                push_char(&mut s, id);
                s.append(")");
            },
            QNodeType::East(id) => {
                s.append("East(");
                push_char(&mut s, id);
                s.append(")");
            },
            QNodeType::West(id) => {
                s.append("West(");
                push_char(&mut s, id);
                s.append(")");
            },
        }
        assert(s@ =~= q_node_text(*self));
        s
    }
}

impl QNodeType {
    /// The position of the node in the node list.
    pub fn get_index(self, world: &World) -> (i: usize)
        requires
            world.wf(),
            hierarchy_fits(world@),
            q_target(self) matches Some(id) ==> names(world@, id),
        ensures
            i == spec_q_index(self, world@),
            i < 6 + 4 * world@.fixed.len(),
    {
        let d = world.num_fixed_positions();
        match self {
            QNodeType::Get => 0,
            QNodeType::NavigateForGet => 1,
            QNodeType::PickUp => 2,
            QNodeType::Put => 3,
            QNodeType::NavigateForPut => 4,
            QNodeType::DropOff => 5,
            QNodeType::North(id) | QNodeType::South(id) | QNodeType::East(id) | QNodeType::West(id) => {
                proof {
                    lemma_find_id(world@.fixed, id);
                }
                let id_index = match world.get_fixed_index(id) {
                    Some(k) => k,
                    None => 0,
                };
                match self {
                    QNodeType::North(_) => 6 + id_index,
                    QNodeType::South(_) => 6 + d + id_index,
                    QNodeType::East(_) => 6 + 2 * d + id_index,
                    _ => 6 + 3 * d + id_index,
                }
            },
        }
    }

    /// How many completion values the node keeps.
    pub fn num_completions(self, world: &World) -> (n: usize)
        requires
            world.wf(),
            hierarchy_fits(world@),
        ensures
            n == spec_num_completions(self, world@),
    {
        proof {
            assert(0 <= world.width * world.height) by (nonlinear_arith)
                requires
                    0 <= world.width,
                    0 <= world.height,
            ;
        }
        let num_taxi_states = (world.height as usize) * (world.width as usize);
        let num_fixed_positions = world.num_fixed_positions();
        proof {
            assert(num_taxi_states == world.width * world.height) by (nonlinear_arith)
                requires
                    num_taxi_states == world.height * world.width,
            ;
        }
        match self {
            QNodeType::Get => num_fixed_positions * num_fixed_positions,
            QNodeType::NavigateForGet | QNodeType::NavigateForPut => num_fixed_positions,
            QNodeType::PickUp | QNodeType::DropOff => num_fixed_positions * num_taxi_states,
            QNodeType::Put => 0,
            _ => num_taxi_states,
        }
    }

    /// Which completion value the node uses in `state`.
    pub fn get_completion_index(self, world: &World, state: &State) -> (r: Option<usize>)
        requires
            world.wf(),
            hierarchy_fits(world@),
            world@.in_bounds(state.taxi),
        ensures
            match r {
                Some(i) => spec_completion_index(self, world@, *state) == Some(i as int) && i
                    < spec_num_completions(self, world@),
                None => spec_completion_index(self, world@, *state) is None,
            },
    {
        let ghost v = world@;
        let ghost d = v.fixed.len() as int;
        let ghost cells = v.width * v.height;
        proof {
            lemma_find_id(v.fixed, state.destination);
            if let Some(id) = state.passenger {
                lemma_find_id(v.fixed, id);
            }
            assert(0 <= spec_taxi_cell(v, *state) < cells) by (nonlinear_arith)
                requires
                    0 <= state.taxi.x < v.width,
                    0 <= state.taxi.y < v.height,
                    cells == v.width * v.height,
            ;
        }
        let width = world.width as usize;
        let height = world.height as usize;
        let taxi = state.get_taxi();
        let taxi_index = (taxi.y as usize) * width + (taxi.x as usize);
        let passenger_index = match state.get_passenger() {
            Some(id) => world.get_fixed_index(id),
            None => None,
        };
        let destination_index = world.get_fixed_index(state.get_destination());
        let num_fixed = world.num_fixed_positions();
        match self {
            QNodeType::Get => match (passenger_index, destination_index) {
                (Some(p), Some(k)) => {
                    proof {
                        assert(p * d + k < d * d) by (nonlinear_arith)
                            requires
                                0 <= p < d,
                                0 <= k < d,
                        ;
                    }
                    Some(p * num_fixed + k)
                },
                _ => None,
            },
            QNodeType::NavigateForGet => passenger_index,
            QNodeType::PickUp => match passenger_index {
                Some(p) => {
                    proof {
                        assert(p * cells + spec_taxi_cell(v, *state) < d * cells) by (nonlinear_arith)
                            requires
                                0 <= p < d,
                                0 <= spec_taxi_cell(v, *state) < cells,
                        ;
                        assert(height * width == cells) by (nonlinear_arith)
                            requires
                                height == v.height,
                                width == v.width,
                                cells == v.width * v.height,
                        ;
                    }
                    Some(p * (height * width) + taxi_index)
                },
                None => None,
            },
            QNodeType::Put => None,
            QNodeType::NavigateForPut => destination_index,
            QNodeType::DropOff => match destination_index {
                Some(k) => {
                    proof {
                        assert(k * cells + spec_taxi_cell(v, *state) < d * cells) by (nonlinear_arith)
                            requires
                                0 <= k < d,
                                0 <= spec_taxi_cell(v, *state) < cells,
                        ;
                        assert(height * width == cells) by (nonlinear_arith)
                            requires
                                height == v.height,
                                width == v.width,
                                cells == v.width * v.height,
                        ;
                    }
                    Some(k * (height * width) + taxi_index)
                },
                None => None,
            },
            _ => Some(taxi_index),
        }
    }

    /// The child the node hands control to in `state`.
    pub fn get_child(self, world: &World, state: &State) -> (r: Option<QChild>)
        requires
            world.wf(),
            hierarchy_fits(world@),
            self == QNodeType::NavigateForGet ==> (state.passenger matches Some(id) ==> names(world@, id)),
            self == QNodeType::NavigateForPut ==> names(world@, state.destination),
        ensures
            r == spec_child(self, world@, *state),
    {
        match self {
            QNodeType::Get => Some(QChild::MaxNode(MaxNodeType::Get.get_index(world))),
            QNodeType::NavigateForGet => match state.get_passenger() {
                Some(id) => Some(QChild::MaxNode(MaxNodeType::Navigate(id).get_index(world))),
                None => None,
            },
            QNodeType::PickUp => Some(QChild::Primitive(Actions::PickUp.to_index())),
            QNodeType::Put => Some(QChild::MaxNode(MaxNodeType::Put.get_index(world))),
            QNodeType::NavigateForPut => Some(
                QChild::MaxNode(MaxNodeType::Navigate(state.get_destination()).get_index(world)),
            ),
            QNodeType::DropOff => Some(QChild::Primitive(Actions::DropOff.to_index())),
            QNodeType::North(_) => Some(QChild::Primitive(Actions::North.to_index())),
            QNodeType::South(_) => Some(QChild::Primitive(Actions::South.to_index())),
            QNodeType::East(_) => Some(QChild::Primitive(Actions::East.to_index())),
            QNodeType::West(_) => Some(QChild::Primitive(Actions::West.to_index())),
        }
    }

    /// The types of the choice nodes of `world`, in the order of the node list:
    /// each is at the position `get_index` gives it.
    pub fn build_types(world: &World) -> (types: Vec<QNodeType>)
        requires
            world.wf(),
            hierarchy_fits(world@),
            distinct_ids(world@),
        ensures
            types.len() == 6 + 4 * world@.fixed.len(),
            forall|i: int| 0 <= i < types.len() ==> #[trigger] types[i] == spec_q_type_at(world@, i),
            forall|i: int| 0 <= i < types.len() ==> spec_q_index(#[trigger] types[i], world@) == i,
    {
        let ghost v = world@;
        let ghost d = v.fixed.len() as int;
        let mut types: Vec<QNodeType> = Vec::new();
        types.push(QNodeType::Get);
        types.push(QNodeType::NavigateForGet);
        types.push(QNodeType::PickUp);
        types.push(QNodeType::Put);
        types.push(QNodeType::NavigateForPut);
        types.push(QNodeType::DropOff);
        let n = world.num_fixed_positions();
        let mut direction: usize = 0;
        while direction < 4
            invariant
                world.wf(),
                v == world@,
                d == v.fixed.len(),
                n == d,
                hierarchy_fits(v),
                distinct_ids(v),
                direction <= 4,
                types.len() == 6 + direction * d,
                forall|i: int| 0 <= i < types.len() ==> #[trigger] types[i] == spec_q_type_at(v, i),
                forall|i: int| 0 <= i < types.len() ==> spec_q_index(#[trigger] types[i], v) == i,
            decreases 4 - direction,
        {
            let mut id_index: usize = 0;
            while id_index < n
                invariant
                    world.wf(),
                    v == world@,
                    d == v.fixed.len(),
                    n == d,
                    hierarchy_fits(v),
                    distinct_ids(v),
                    direction < 4,
                    id_index <= n,
                    types.len() == 6 + direction * d + id_index,
                    forall|i: int| 0 <= i < types.len() ==> #[trigger] types[i] == spec_q_type_at(v, i),
                    forall|i: int| 0 <= i < types.len() ==> spec_q_index(#[trigger] types[i], v) == i,
                decreases n - id_index,
            {
                let id = match world.get_fixed_id_from_index(id_index) {
                    Some(id) => id,
                    None => ' ',
                };
                let t = if direction == 0 {
                    QNodeType::North(id)
                } else if direction == 1 {
                    QNodeType::South(id)
                } else if direction == 2 {
                    QNodeType::East(id)
                } else {
                    QNodeType::West(id)
                };
                proof {
                    lemma_find_id(v.fixed, id);
                    assert(find_id(v.fixed, id) == Some(id_index as int)) by {
                        if let Some(k) = find_id(v.fixed, id) {
                            if k < id_index {
                                assert(v.fixed[k].id != v.fixed[id_index as int].id);
                            }
                        }
                    }
                    let i = types.len() as int;
                    assert(i == 6 + direction * d + id_index);
                    assert(direction == 1 ==> i - 6 - d == id_index);
                    assert(direction == 2 ==> i - 6 - 2 * d == id_index);
                    assert(direction == 3 ==> i - 6 - 3 * d == id_index);
                    assert(t == spec_q_type_at(v, i));
                    assert(spec_q_index(t, v) == i);
                }
                types.push(t);
                id_index = id_index + 1;
            }
            proof {
                assert((direction + 1) * d == direction * d + d) by (nonlinear_arith);
            }
            direction = direction + 1;
        }
        types
    }
}

/// A choice node hands control to an existing node: a primitive action below six, or a
/// subtask of the node list.
pub proof fn lemma_child_in_range(t: QNodeType, v: WorldView, s: State)
    requires
        t == QNodeType::NavigateForGet ==> (s.passenger matches Some(id) ==> names(v, id)),
        t == QNodeType::NavigateForPut ==> names(v, s.destination),
    ensures
        match spec_child(t, v, s) {
            Some(QChild::Primitive(i)) => i < Actions::NUM_ELEMENTS,
            Some(QChild::MaxNode(i)) => i < 3 + v.fixed.len(),
            None => t == QNodeType::NavigateForGet && s.passenger is None,
        },
{
    lemma_find_id(v.fixed, s.destination);
    if let Some(id) = s.passenger {
        lemma_find_id(v.fixed, id);
    }
}


/// A choice node hands control to what its name says: a move, a pick-up or a drop-off
/// to the primitive action of that index; getting and putting to those subtasks;
/// navigating for the passenger to the subtask that navigates to the location where
/// the passenger waits, and navigating to put it down to the one that navigates to the
/// destination.
pub proof fn lemma_child_meaning(t: QNodeType, v: WorldView, s: State)
    requires
        hierarchy_fits(v),
    ensures
        t is North ==> spec_child(t, v, s) == Some(QChild::Primitive(spec_action_index(Actions::North) as usize)),
        t is South ==> spec_child(t, v, s) == Some(QChild::Primitive(spec_action_index(Actions::South) as usize)),
        t is East ==> spec_child(t, v, s) == Some(QChild::Primitive(spec_action_index(Actions::East) as usize)),
        t is West ==> spec_child(t, v, s) == Some(QChild::Primitive(spec_action_index(Actions::West) as usize)),
        t is PickUp ==> spec_child(t, v, s) == Some(QChild::Primitive(spec_action_index(Actions::PickUp) as usize)),
        t is DropOff ==> spec_child(t, v, s) == Some(QChild::Primitive(spec_action_index(Actions::DropOff) as usize)),
        t is Get ==> (spec_child(t, v, s) matches Some(QChild::MaxNode(i)) && spec_max_node_at(v, i as int).0
            == MaxNodeType::Get),
        t is Put ==> (spec_child(t, v, s) matches Some(QChild::MaxNode(i)) && spec_max_node_at(v, i as int).0
            == MaxNodeType::Put),
        (t is NavigateForGet && (s.passenger matches Some(id) && names(v, id))) ==> (spec_child(t, v, s) matches Some(
            QChild::MaxNode(i),
        ) && spec_max_node_at(v, i as int).0 == MaxNodeType::Navigate(s.passenger->0)),
        (t is NavigateForPut && names(v, s.destination)) ==> (spec_child(t, v, s) matches Some(QChild::MaxNode(i))
            && spec_max_node_at(v, i as int).0 == MaxNodeType::Navigate(s.destination)),
{
    lemma_find_id(v.fixed, s.destination);
    if let Some(id) = s.passenger {
        lemma_find_id(v.fixed, id);
    }
}

} // verus!
