use vstd::prelude::*;

use crate::actions::{spec_action_char, Actions};
use crate::runner::Attempt;
use crate::state::{lemma_apply_keeps_valid, spec_apply, state_text, valid_state, State};
use crate::text::{centered, decimal, push_centered_decimal, push_char, push_chars, decimal_chars};
use crate::world::{World, WorldView};

verus! {

/// The state reached from `s` by taking `actions` in order.
pub open spec fn run_actions(s: State, v: WorldView, actions: Seq<Actions>) -> State
    decreases actions.len(),
{
    if actions.len() == 0 {
        s
    } else {
        spec_apply(run_actions(s, v, actions.drop_last()), v, actions.last())
    }
}

/// Taking actions from a state of the world leads to a state of the world.
pub proof fn lemma_run_keeps_valid(s: State, v: WorldView, actions: Seq<Actions>)
    requires
        v.valid(),
        valid_state(v, s),
    ensures
        valid_state(v, run_actions(s, v, actions)),
    decreases actions.len(),
{
    if actions.len() > 0 {
        lemma_run_keeps_valid(s, v, actions.drop_last());
        lemma_apply_keeps_valid(v, run_actions(s, v, actions.drop_last()), actions.last());
    }
}

/// The text under the replay: the outcome and the keys.
pub open spec fn summary_text(solved: bool, num_steps: nat) -> Seq<char> {
    (if solved {
        "Solved in "@ + decimal(num_steps) + " steps."@
    } else {
        "Failed after "@ + decimal(num_steps) + " steps."@
    }) + "\n\nLeft/Right arrow to advance.\nEscape to exit.\n"@
}

/// The text that names a step of the replay and what comes next.
pub open spec fn step_text(step: nat, solved: bool, actions: Seq<Actions>) -> Seq<char> {
    "Step "@ + centered(decimal(step), 3) + if step < actions.len() {
        "\nNext action: "@ + seq![spec_action_char(actions[step as int])]
    } else if solved {
        "\nSucceeded"@
    } else {
        "\nFailed"@
    }
}

/// A step moved by the arrow keys, kept between the first and the last step.
pub open spec fn spec_trim_step(max_step: int, step: int) -> int {
    if step < 0 {
        0
    } else if step > max_step {
        max_step
    } else {
        step
    }
}

pub fn build_summary_string(solved: bool, num_steps: usize) -> (s: String)
    ensures
        s@ == summary_text(solved, num_steps as nat),
{
    let mut result = String::new();
    let digits = decimal_chars(num_steps);
    if solved {
        result.append("Solved in ");
        push_chars(&mut result, digits.as_slice());
        result.append(" steps.");
    } else {
        result.append("Failed after ");
        push_chars(&mut result, digits.as_slice());
        result.append(" steps.");
    }
    result.append("\n\nLeft/Right arrow to advance.\nEscape to exit.\n");
    assert(result@ =~= summary_text(solved, num_steps as nat));
    result
}

pub fn build_step_string(step: usize, solved: bool, actions: &[Actions]) -> (s: String)
    ensures
        s@ == step_text(step as nat, solved, actions@),
{
    let mut result = String::new();
    result.append("Step ");
    push_centered_decimal(&mut result, step, 3);
    let ghost head = result@;
    if step < actions.len() {
        result.append("\nNext action: ");
        push_char(&mut result, actions[step].to_char());
    } else if solved {
        result.append("\nSucceeded");
    } else {
        result.append("\nFailed");
    }
    assert(result@ =~= step_text(step as nat, solved, actions@));
    result
}

/// `step` kept between 0 and `max_step`.
pub fn trim_step(max_step: isize, step: isize) -> (r: isize)
    requires
        max_step >= 0,
    ensures
        r == spec_trim_step(max_step as int, step as int),
        0 <= r <= max_step,
{
    if step < 0 {
        0
    } else if step > max_step {
        max_step
    } else {
        step
    }
}

/// The drawings of the states of an attempt: the initial state, then the state after
/// each action.
pub fn build_frames(world: &World, attempt: &Attempt) -> (frames: Vec<String>)
    requires
        world.wf(),
        valid_state(world@, attempt.initial_state),
    ensures
        frames.len() == attempt.actions.len() + 1,
        forall|k: int|
            0 <= k < frames.len() ==> #[trigger] frames[k]@ == state_text(
                run_actions(attempt.initial_state, world@, attempt.actions@.take(k)),
                world@,
            ),
{
    let mut frames: Vec<String> = Vec::new();
    let mut state = attempt.initial_state;
    frames.push(state.display(world));
    proof {
        assert(attempt.actions@.take(0) =~= Seq::<Actions>::empty());
    }
    let mut k: usize = 0;
    while k < attempt.actions.len()
        invariant
            world.wf(),
            valid_state(world@, attempt.initial_state),
            k <= attempt.actions.len(),
            state == run_actions(attempt.initial_state, world@, attempt.actions@.take(k as int)),
            frames.len() == k + 1,
            forall|j: int|
                0 <= j < frames.len() ==> #[trigger] frames[j]@ == state_text(
                    run_actions(attempt.initial_state, world@, attempt.actions@.take(j)),
                    world@,
                ),
        decreases attempt.actions.len() - k,
    {
        let action = attempt.actions[k];
        proof {
            lemma_run_keeps_valid(attempt.initial_state, world@, attempt.actions@.take(k as int));
            lemma_apply_keeps_valid(world@, state, action);
            assert(attempt.actions@.take(k + 1).drop_last() =~= attempt.actions@.take(k as int));
        }
        state = state.apply_action(world, action);
        frames.push(state.display(world));
        k = k + 1;
    }
    frames
}

} // verus!
