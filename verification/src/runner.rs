use vstd::prelude::*;

use crate::actions::Actions;
use crate::random::Pcg;
use crate::state;
use crate::state::{state_error_text, valid_state, world_text, State};
use crate::world::{World, WorldView};

verus! {

/// A state that a trained runner must be able to solve, and in how many steps.
#[derive(Debug)]
pub struct Probe {
    pub state: State,
    pub maximum_steps: usize,
}

impl Probe {
    pub fn new(state: State, maximum_steps: usize) -> (p: Probe)
        ensures
            p.state == state,
            p.maximum_steps == maximum_steps,
    {
        Probe { state, maximum_steps }
    }
}

/// The record of one try at bringing the passenger to its destination: where it
/// started, the actions taken, and whether it succeeded.
pub struct Attempt {
    pub initial_state: State,
    pub actions: Vec<Actions>,
    pub success: bool,
}

impl Attempt {
    pub fn new(initial_state: State, max_steps: usize) -> (a: Attempt)
        ensures
            a.initial_state == initial_state,
            a.actions@ == Seq::<Actions>::empty(),
            !a.success,
    {
        Attempt { initial_state, actions: Vec::with_capacity(max_steps), success: false }
    }

    /// Records the next action taken.
    pub fn step(&mut self, next_action: Actions)
        ensures
            final(self).initial_state == old(self).initial_state,
            final(self).actions@ == old(self).actions@.push(next_action),
            final(self).success == old(self).success,
    {
        self.actions.push(next_action);
    }

    /// Records that the attempt reached the goal.
    pub fn succeeded(&mut self)
        ensures
            final(self).initial_state == old(self).initial_state,
            final(self).actions@ == old(self).actions@,
            final(self).success,
    {
        self.success = true;
    }
}

/// A way of learning to drive the taxi.
pub trait Runner {
    /// Learns from one trial that starts at `state`; the number of steps it took to
    /// reach the goal, at most `max_steps`, or `None` when it did not.
    fn learn(&mut self, world: &World, state: State, max_steps: usize, rng: &mut Pcg) -> (r: Option<
        usize,
    >)
        requires
            world.wf(),
            valid_state(world@, state),
        ensures
            r matches Some(n) ==> n <= max_steps,
    ;

    /// Drives the taxi from `state` with what was learnt, at most `max_steps` actions.
    fn attempt(&self, world: &World, state: State, max_steps: usize, rng: &mut Pcg) -> (a: Attempt)
        requires
            world.wf(),
            valid_state(world@, state),
        ensures
            a.initial_state == state,
            a.actions.len() <= max_steps,
    ;

    /// Whether what was learnt brings the passenger from `state` to its destination in
    /// at most `max_steps` actions.
    fn solves(&self, world: &World, state: State, max_steps: usize, rng: &mut Pcg) -> bool
        requires
            world.wf(),
            valid_state(world@, state),
    ;

    /// Reports on the training, for runners that have something to say.
    fn report_training_result(&self, world: &World, steps: Option<usize>) {
    }
}

/// Why a training session stopped.
#[derive(Debug)]
pub enum Error {
    BuildRandomState(state::Error),
}

impl Error {
    /// The explanation of the error, with that of the state that could not be drawn.
    pub fn to_string(&self) -> (s: String)
        ensures
            s@ == match self {
                Error::BuildRandomState(e) => "Failed to build random state:\n"@ + state_error_text(e),
            },
    {
        match self {
            Error::BuildRandomState(e) => {
                let mut s = String::new();
                s.append("Failed to build random state:\n");
                let explanation = e.to_string();
                s.append(explanation.as_str());
                s
            },
        }
    }
}

/// What one trial of a training session did: the state it started from, what the
/// runner's learning reported, how many probes, taken in order, the runner then solved
/// before the first it did not, and whether it solved every probe.
#[derive(Debug, Clone, Copy)]
pub struct Trial {
    pub start: State,
    pub learned: Option<usize>,
    pub solved_probes: usize,
    pub probes_solved: bool,
}

/// The probes of a trial were checked in order, up to the first one not solved: a
/// trial solved every probe exactly when it got through all `num_probes` of them.
pub open spec fn probes_checked(t: Trial, num_probes: int) -> bool {
    &&& t.solved_probes <= num_probes
    &&& t.probes_solved <==> t.solved_probes == num_probes
}

/// The steps a trial counts: those its learning reported, or `max_steps` when it did
/// not reach the goal.
pub open spec fn trial_steps(t: Trial, max_steps: usize) -> int {
    match t.learned {
        Some(n) => n as int,
        None => max_steps as int,
    }
}

/// The steps of all trials, added up.
pub open spec fn session_total(trials: Seq<Trial>, max_steps: usize) -> int
    decreases trials.len(),
{
    if trials.len() == 0 {
        0
    } else {
        session_total(trials.drop_last(), max_steps) + trial_steps(trials.last(), max_steps)
    }
}

/// The trials of a session that ran to its end: at most `max_trials`, none but the
/// last with every probe solved, and fewer than `max_trials` only when the last one
/// solved them.
pub open spec fn session_record(trials: Seq<Trial>, max_trials: usize) -> bool {
    &&& trials.len() <= max_trials
    &&& forall|i: int| 0 <= i < trials.len() - 1 ==> !(#[trigger] trials[i]).probes_solved
    &&& trials.len() < max_trials ==> trials.len() > 0 && trials.last().probes_solved
}

/// What a session with these trials gives: the total of its steps when its last
/// trial solved every probe, nothing otherwise.
pub open spec fn session_result(trials: Seq<Trial>, max_steps: usize) -> Option<usize> {
    if trials.len() > 0 && trials.last().probes_solved {
        Some(session_total(trials, max_steps) as usize)
    } else {
        None
    }
}

/// A trial started from a drawn state of the world, with the passenger waiting, and
/// its learning reported at most `max_steps` steps.
pub open spec fn trial_drawn(v: WorldView, t: Trial, max_steps: usize) -> bool {
    &&& valid_state(v, t.start)
    &&& t.start.passenger is Some
    &&& (t.learned matches Some(n) ==> n <= max_steps)
}

/// The error of a session in a world with fewer than two named locations.
pub open spec fn too_few_locations(world: &World, e: Error) -> bool {
    e matches Error::BuildRandomState(state::Error::TooFewFixedPositions { num_fixed_positions, world: text })
        && num_fixed_positions == world@.fixed.len() && text@ == world_text(world@)
}

/// Runs a training session as `run_training_session` does, and appends each trial to
/// `trials`. The result follows from the trials: their total when the last one solved
/// every probe, nothing when `max_trials` trials solved them never.
pub fn run_recorded_training_session<Rnr: Runner>(
    world: &World,
    probes: &[Probe],
    max_trials: usize,
    max_steps: usize,
    runner: &mut Rnr,
    rng: &mut Pcg,
    trials: &mut Vec<Trial>,
) -> (r: Result<Option<usize>, Error>)
    requires
        world.wf(),
        max_trials > 0 ==> world.width > 0 && world.height > 0,
        world@.fixed.len() >= 2 ==> max_trials * max_steps <= usize::MAX,
        world@.fixed.len() >= 2 ==> forall|k: int| 0 <= k < probes.len() ==> valid_state(world@, #[trigger] probes[k].state),
    ensures
        final(trials)@.len() >= old(trials)@.len(),
        final(trials)@.take(old(trials)@.len() as int) == old(trials)@,
        ({
            let recorded = final(trials)@.skip(old(trials)@.len() as int);
            &&& forall|i: int| 0 <= i < recorded.len() ==> trial_drawn(world@, #[trigger] recorded[i], max_steps)
            &&& forall|i: int| 0 <= i < recorded.len() ==> probes_checked(#[trigger] recorded[i], probes.len() as int)
            &&& match r {
                Ok(x) => session_record(recorded, max_trials) && x == session_result(recorded, max_steps),
                Err(e) => recorded.len() == 0 && too_few_locations(world, e),
            }
        }),
        r is Err <==> (max_trials > 0 && world@.fixed.len() < 2),
        r matches Ok(Some(total)) ==> total <= max_trials * max_steps,
{
    let ghost start = trials@.len() as int;
    let ghost before = trials@;
    let mut total_steps: usize = 0;
    let mut trial: usize = 0;
    proof {
        assert(trials@.skip(start) =~= Seq::<Trial>::empty());
        assert(trials@.take(start) =~= before);
    }
    while trial < max_trials
        invariant
            world.wf(),
            max_trials > 0 ==> world.width > 0 && world.height > 0,
            world@.fixed.len() >= 2 ==> max_trials * max_steps <= usize::MAX,
            world@.fixed.len() >= 2 ==> forall|k: int| 0 <= k < probes.len() ==> valid_state(world@, #[trigger] probes[k].state),
            trial <= max_trials,
            trial > 0 ==> world@.fixed.len() >= 2,
            start == before.len(),
            before == old(trials)@,
            trials@.len() == start + trial,
            trials@.take(start) == before,
            forall|i: int|
                0 <= i < trials@.skip(start).len() ==> trial_drawn(world@, #[trigger] trials@.skip(start)[i], max_steps),
            forall|i: int| 0 <= i < trials@.skip(start).len() ==> !(#[trigger] trials@.skip(start)[i]).probes_solved,
            forall|i: int|
                0 <= i < trials@.skip(start).len() ==> probes_checked(#[trigger] trials@.skip(start)[i], probes.len() as int),
            total_steps == session_total(trials@.skip(start), max_steps),
            total_steps <= trial * max_steps,
        decreases max_trials - trial,
    {
        let ghost rec = trials@.skip(start);
        let state = match State::build_random(world, rng) {
            Err(state_error) => {
                proof {
                    assert(trials@.skip(start) =~= Seq::<Trial>::empty());
                }
                return Err(Error::BuildRandomState(state_error));
            },
            Ok(state) => state,
        };
        proof {
            crate::world::lemma_find_id(world@.fixed, state.destination);
            crate::world::lemma_find_id(world@.fixed, state.passenger->0);
        }
        let learned = runner.learn(world, state, max_steps, rng);
        let steps = match learned {
            Some(num_steps) => num_steps,
            None => max_steps,
        };
        proof {
            assert((trial + 1) * max_steps == trial * max_steps + max_steps) by (nonlinear_arith);
            assert((trial + 1) * max_steps <= max_trials * max_steps) by (nonlinear_arith)
                requires
                    trial + 1 <= max_trials,
            ;
        }
        total_steps = total_steps + steps;
        let mut probes_passed = true;
        let mut k: usize = 0;
        while k < probes.len()
            invariant_except_break
                probes_passed,
            invariant
                world.wf(),
                forall|j: int| 0 <= j < probes.len() ==> valid_state(world@, #[trigger] probes[j].state),
                k <= probes.len(),
            ensures
                k <= probes.len(),
                probes_passed <==> k == probes.len(),
            decreases probes.len() - k,
        {
            if !runner.solves(world, probes[k].state, probes[k].maximum_steps, rng) {
                probes_passed = false;
                break;
            }
            k = k + 1;
        }
        let record = Trial { start: state, learned, solved_probes: k, probes_solved: probes_passed };
        trials.push(record);
        proof {
            let now = trials@.skip(start);
            assert(now =~= rec.push(record));
            assert(now.drop_last() =~= rec);
            assert(trials@.take(start) =~= before);
            assert forall|i: int| 0 <= i < now.len() implies trial_drawn(world@, #[trigger] now[i], max_steps) by {
                if i < rec.len() {
                    assert(now[i] == rec[i]);
                }
            }
            assert forall|i: int| 0 <= i < now.len() implies probes_checked(#[trigger] now[i], probes.len() as int) by {
                if i < rec.len() {
                    assert(now[i] == rec[i]);
                }
            }
        }
        trial = trial + 1;
        if probes_passed {
            proof {
                assert(trial * max_steps <= max_trials * max_steps) by (nonlinear_arith)
                    requires
                        trial <= max_trials,
                ;
                let now = trials@.skip(start);
                assert forall|i: int| 0 <= i < now.len() - 1 implies !(#[trigger] now[i]).probes_solved by {
                    assert(now[i] == rec[i]);
                }
            }
            return Ok(Some(total_steps));
        }
        proof {
            let now = trials@.skip(start);
            assert forall|i: int| 0 <= i < now.len() implies !(#[trigger] now[i]).probes_solved by {
                if i < rec.len() {
                    assert(now[i] == rec[i]);
                }
            }
        }
    }
    Ok(None)
}

/// A session whose trials were checked probe by probe gives a result exactly when its
/// last trial got through every probe, and no trial before it got through them all.
pub proof fn lemma_result_needs_every_probe(
    trials: Seq<Trial>,
    num_probes: int,
    max_trials: usize,
    max_steps: usize,
)
    requires
        session_record(trials, max_trials),
        forall|i: int| 0 <= i < trials.len() ==> probes_checked(#[trigger] trials[i], num_probes),
    ensures
        session_result(trials, max_steps) is Some <==> (trials.len() > 0 && trials.last().solved_probes
            == num_probes),
        forall|i: int| 0 <= i < trials.len() - 1 ==> (#[trigger] trials[i]).solved_probes < num_probes,
{
    if trials.len() > 0 {
        assert(probes_checked(trials[trials.len() - 1], num_probes));
    }
    assert forall|i: int| 0 <= i < trials.len() - 1 implies (#[trigger] trials[i]).solved_probes < num_probes by {
        assert(probes_checked(trials[i], num_probes));
    }
}

/// Trains `runner` on random states, one trial at a time, until it solves every probe
/// or `max_trials` trials are spent. Gives the total number of steps taken (a failed
/// trial counts `max_steps`), or `None` when the probes were never all solved. A world
/// with fewer than two named locations has no random state, and is refused with its
/// drawing.
pub fn run_training_session<Rnr: Runner>(
    world: &World,
    probes: &[Probe],
    max_trials: usize,
    max_steps: usize,
    runner: &mut Rnr,
    rng: &mut Pcg,
) -> (r: Result<Option<usize>, Error>)
    requires
        world.wf(),
        max_trials > 0 ==> world.width > 0 && world.height > 0,
        world@.fixed.len() >= 2 ==> max_trials * max_steps <= usize::MAX,
        world@.fixed.len() >= 2 ==> forall|k: int| 0 <= k < probes.len() ==> valid_state(world@, #[trigger] probes[k].state),
    ensures
        r is Err <==> (max_trials > 0 && world@.fixed.len() < 2),
        r matches Err(e) ==> too_few_locations(world, e),
        r matches Ok(x) ==> exists|trials: Seq<Trial>|
            #![trigger session_result(trials, max_steps)]
            session_record(trials, max_trials) && x == session_result(trials, max_steps) && (forall|i: int|
                0 <= i < trials.len() ==> trial_drawn(world@, #[trigger] trials[i], max_steps)) && forall|i: int|
                0 <= i < trials.len() ==> probes_checked(#[trigger] trials[i], probes.len() as int),
        r matches Ok(Some(total)) ==> total <= max_trials * max_steps,
        max_trials == 0 ==> r matches Ok(None),
{
    let mut trials: Vec<Trial> = Vec::new();
    let r = run_recorded_training_session(world, probes, max_trials, max_steps, runner, rng, &mut trials);
    proof {
        let recorded = trials@.skip(0);
        assert(recorded =~= trials@);
        if let Ok(x) = r {
            assert(session_result(recorded, max_steps) == x);
        }
    }
    r
}

} // verus!
