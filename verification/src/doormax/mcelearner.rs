use vstd::prelude::*;

use crate::actions::{spec_action_index, Actions};
use crate::doormax::condition::{spec_condition, Condition};
use crate::doormax::condition_learner::{
    all_conditions, consistent, lemma_learns_failure, lemma_learns_success, spec_learn, spec_predict,
    ConditionLearner, ConditionLearnerView,
};
use crate::doormax::effect;
use crate::doormax::effect::{ChangePassenger, ChangeTaxiX, ChangeTaxiY, Effect};
use crate::doormax::effect_learner::{fold_effects, spec_keep_effects, EffectFold, EffectLearner};
use crate::state::{spec_build, valid_state, State};
use crate::world::{World, WorldView};

verus! {

/// Learns both when an action changes one attribute and how.
#[derive(Debug, Clone)]
pub struct CELearner<E: Effect> {
    condition_learner: ConditionLearner,
    effect_learner: EffectLearner<E>,
}

/// What a learner of conditions and effects knows.
pub struct CELearnerView<E> {
    pub condition: ConditionLearnerView,
    pub effects: Seq<E>,
}

/// What a learner predicts for one state.
pub enum Prediction {
    /// Applying what was learnt leads off the world.
    Refused,
    /// Not enough is known.
    Unknown,
    /// The state the action leads to.
    Predicts(State),
}

/// The prediction of a learner for state `s` under condition `c`: no change where the
/// condition learner says the action does nothing, the learnt effects where it says
/// the action does something.
pub open spec fn ce_prediction<E: Effect>(l: CELearnerView<E>, v: WorldView, s: State, c: Seq<bool>) -> Prediction {
    match spec_predict(l.condition, c) {
        None => Prediction::Unknown,
        Some(false) => Prediction::Predicts(s),
        Some(true) => match fold_effects(v, l.effects, s) {
            EffectFold::Failed => Prediction::Refused,
            EffectFold::Conflict => Prediction::Unknown,
            EffectFold::Agreed(None) => Prediction::Unknown,
            EffectFold::Agreed(Some(p)) => Prediction::Predicts(p),
        },
    }
}

/// `r` reports prediction `p`.
pub open spec fn reports(r: Result<Option<State>, effect::Error>, p: Prediction) -> bool {
    match p {
        Prediction::Refused => r is Err,
        Prediction::Unknown => r matches Ok(None),
        Prediction::Predicts(s) => r matches Ok(Some(t)) && t == s,
    }
}

/// An optional effect as a list of at most one.
pub open spec fn effect_list<E>(e: Option<E>) -> Seq<E> {
    match e {
        Some(e) => seq![e],
        None => Seq::empty(),
    }
}

/// The learner after seeing the action lead from `old_state` to `new_state` under `c`.
pub open spec fn ce_learn<E: Effect>(l: CELearnerView<E>, c: Seq<bool>, old_state: State, new_state: State) -> CELearnerView<E> {
    let e = E::spec_generate(old_state, new_state);
    CELearnerView {
        condition: spec_learn(l.condition, c, e is Some),
        effects: spec_keep_effects(l.effects, effect_list(e)),
    }
}

/// Every learnt effect can be applied to `s`.
pub open spec fn ce_applicable<E: Effect>(l: CELearnerView<E>, s: State) -> bool {
    forall|k: int| 0 <= k < l.effects.len() ==> #[trigger] l.effects[k].spec_applicable(s)
}

/// A learner of conditions and effects that has seen nothing.
pub open spec fn ce_fresh<E>(l: CELearnerView<E>) -> bool {
    &&& l.condition.true_conditions == all_conditions()
    &&& l.condition.false_conditions == all_conditions()
    &&& l.condition.best is None
    &&& l.effects == Seq::<E>::empty()
}

impl<E: Effect> View for CELearner<E> {
    type V = CELearnerView<E>;

    closed spec fn view(&self) -> CELearnerView<E> {
        CELearnerView { condition: self.condition_learner@, effects: self.effect_learner@ }
    }
}

impl<E: Effect> CELearner<E> {
    pub fn new() -> (l: Self)
        ensures
            l@.condition.true_conditions == all_conditions(),
            l@.condition.false_conditions == all_conditions(),
            l@.condition.best is None,
            l@.effects == Seq::<E>::empty(),
    {
        CELearner { condition_learner: ConditionLearner::new(), effect_learner: EffectLearner::new() }
    }

    pub fn predict(&self, world: &World, state: &State, condition: &Condition) -> (r: Result<
        Option<State>,
        effect::Error,
    >)
        requires
            world.wf(),
            ce_applicable(self@, *state),
        ensures
            reports(r, ce_prediction(self@, world@, *state, condition.0@)),
    {
        let matches_condition = self.condition_learner.predict(condition);
        match matches_condition {
            None => Ok(None),
            Some(false) => Ok(Some(*state)),
            Some(true) => self.effect_learner.predict(world, state),
        }
    }

    pub fn apply_experience(&mut self, condition: &Condition, old_state: &State, new_state: &State)
        requires
            E::spec_generable(*old_state, *new_state),
        ensures
            final(self)@ == ce_learn(old(self)@, condition.0@, *old_state, *new_state),
    {
        let effects = E::generate_effects(old_state, new_state);
        let mut list: Vec<E> = Vec::new();
        match effects {
            Some(e) => {
                list.push(e);
            },
            None => {},
        }
        assert(list@ =~= effect_list(effects));
        self.condition_learner.apply_experience(condition, effects.is_some());
        self.effect_learner.apply_experience(list.as_slice());
    }
}

/// A learner that saw an action change its attribute once, under condition `c`,
/// predicts the same change the next time it sees `c`.
pub proof fn lemma_ce_learns_effect<E: Effect>(
    l: CELearnerView<E>,
    v: WorldView,
    c: Seq<bool>,
    old_state: State,
    new_state: State,
)
    requires
        l.condition.true_conditions == all_conditions(),
        l.condition.false_conditions == all_conditions(),
        l.condition.best is None,
        l.effects == Seq::<E>::empty(),
        c.len() == 7,
        E::spec_generate(old_state, new_state) is Some,
    ensures
        ({
            let e = E::spec_generate(old_state, new_state)->0;
            let t = e.spec_target(old_state);
            ce_prediction(ce_learn(l, c, old_state, new_state), v, old_state, c) == match spec_build(
                v,
                t.0,
                t.1,
                t.2,
            ) {
                Some(p) => Prediction::Predicts(p),
                None => Prediction::Refused,
            }
        }),
{
    let n = ce_learn(l, c, old_state, new_state);
    lemma_learns_success(l.condition, c);
    let e = E::spec_generate(old_state, new_state)->0;
    assert(n.effects == seq![e]);
    assert(seq![e].drop_last() =~= Seq::<E>::empty());
    assert(fold_effects(v, Seq::<E>::empty(), old_state) == EffectFold::Agreed(None));
    let t = e.spec_target(old_state);
    assert(fold_effects(v, seq![e], old_state) == match spec_build(v, t.0, t.1, t.2) {
        Some(m) => EffectFold::Agreed(Some(m)),
        None => EffectFold::Failed,
    });
    assert(spec_predict(n.condition, c) == Some(true));
}

/// A learner that has seen nothing, once it saw an action leave its attribute
/// unchanged under condition `c`, predicts no change the next time it sees `c`.
pub proof fn lemma_ce_learns_no_change<E: Effect>(
    l: CELearnerView<E>,
    v: WorldView,
    c: Seq<bool>,
    old_state: State,
    new_state: State,
)
    requires
        ce_fresh(l),
        c.len() == 7,
        E::spec_generate(old_state, new_state) is None,
    ensures
        ce_prediction(ce_learn(l, c, old_state, new_state), v, old_state, c) == Prediction::Predicts(old_state),
{
    crate::doormax::condition::lemma_enumerated_complete(c);
    let k = choose|k: int| 0 <= k < 128 && #[trigger] crate::doormax::condition::enumerated(k) == c;
    assert(all_conditions()[k] == c);
    assert(l.condition.false_conditions.contains(c));
    lemma_learns_failure(l.condition, c);
}

/// The action learners: one per action for the taxi's x, its y and the passenger.
#[derive(Debug, Clone)]
pub struct MCELearner {
    taxi_x_learners: Vec<CELearner<ChangeTaxiX>>,
    taxi_y_learners: Vec<CELearner<ChangeTaxiY>>,
    passenger_learners: Vec<CELearner<ChangePassenger>>,
}

/// What the action learners know, per action index.
pub struct MCELearnerView {
    pub taxi_x: Seq<CELearnerView<ChangeTaxiX>>,
    pub taxi_y: Seq<CELearnerView<ChangeTaxiY>>,
    pub passenger: Seq<CELearnerView<ChangePassenger>>,
}

/// The learners' views.
pub open spec fn ce_views<E: Effect>(s: Seq<CELearner<E>>) -> Seq<CELearnerView<E>> {
    Seq::new(s.len(), |i: int| s[i]@)
}

impl View for MCELearner {
    type V = MCELearnerView;

    closed spec fn view(&self) -> MCELearnerView {
        MCELearnerView {
            taxi_x: ce_views(self.taxi_x_learners@),
            taxi_y: ce_views(self.taxi_y_learners@),
            passenger: ce_views(self.passenger_learners@),
        }
    }
}

impl MCELearnerView {
    /// One learner of each kind per action.
    pub open spec fn wf(self) -> bool {
        &&& self.taxi_x.len() == Actions::NUM_ELEMENTS
        &&& self.taxi_y.len() == Actions::NUM_ELEMENTS
        &&& self.passenger.len() == Actions::NUM_ELEMENTS
    }
}

/// The prediction for `action` in state `s`: the x, the y and the passenger each
/// learnt separately, put together into one state of the world.
pub open spec fn mce_prediction(m: MCELearnerView, v: WorldView, s: State, action: Actions) -> Prediction {
    let c = spec_condition(v, s);
    let a = spec_action_index(action) as int;
    match ce_prediction(m.taxi_x[a], v, s, c) {
        Prediction::Refused => Prediction::Refused,
        Prediction::Unknown => Prediction::Unknown,
        Prediction::Predicts(px) => match ce_prediction(m.taxi_y[a], v, s, c) {
            Prediction::Refused => Prediction::Refused,
            Prediction::Unknown => Prediction::Unknown,
            Prediction::Predicts(py) => match ce_prediction(m.passenger[a], v, s, c) {
                Prediction::Refused => Prediction::Refused,
                Prediction::Unknown => Prediction::Unknown,
                Prediction::Predicts(pp) => match spec_build(
                    v,
                    (px.taxi.x, py.taxi.y),
                    pp.passenger,
                    s.destination,
                ) {
                    Some(p) => Prediction::Predicts(p),
                    None => Prediction::Refused,
                },
            },
        },
    }
}

/// Every learnt effect of `action` can be applied to `s`.
pub open spec fn mce_applicable(m: MCELearnerView, s: State, action: Actions) -> bool {
    let a = spec_action_index(action) as int;
    &&& ce_applicable(m.taxi_x[a], s)
    &&& ce_applicable(m.taxi_y[a], s)
    &&& ce_applicable(m.passenger[a], s)
}

/// The action learners after seeing `action` lead from `s` to `t`: each learner of the
/// action learns, under the condition of `s`, how its attribute changed.
pub open spec fn mce_learn(m: MCELearnerView, v: WorldView, s: State, action: Actions, t: State) -> MCELearnerView {
    let c = spec_condition(v, s);
    let a = spec_action_index(action) as int;
    MCELearnerView {
        taxi_x: m.taxi_x.update(a, ce_learn(m.taxi_x[a], c, s, t)),
        taxi_y: m.taxi_y.update(a, ce_learn(m.taxi_y[a], c, s, t)),
        passenger: m.passenger.update(a, ce_learn(m.passenger[a], c, s, t)),
    }
}

/// Learner `i` of `learners` after one experience.
fn learn_at<E: Effect>(
    learners: &mut Vec<CELearner<E>>,
    i: usize,
    condition: &Condition,
    old_state: &State,
    new_state: &State,
)
    requires
        i < old(learners).len(),
        E::spec_generable(*old_state, *new_state),
    ensures
        ce_views(final(learners)@) == ce_views(old(learners)@).update(
            i as int,
            ce_learn(old(learners)@[i as int]@, condition.0@, *old_state, *new_state),
        ),
{
    let mut learner = learners.remove(i);
    learner.apply_experience(condition, old_state, new_state);
    learners.insert(i, learner);
    assert(ce_views(learners@) =~= ce_views(old(learners)@).update(
        i as int,
        ce_learn(old(learners)@[i as int]@, condition.0@, *old_state, *new_state),
    ));
}

fn new_learners<E: Effect>() -> (v: Vec<CELearner<E>>)
    ensures
        v.len() == Actions::NUM_ELEMENTS,
        forall|i: int|
            0 <= i < v.len() ==> {
                &&& (#[trigger] v[i])@.condition.true_conditions == all_conditions()
                &&& v[i]@.condition.false_conditions == all_conditions()
                &&& v[i]@.condition.best is None
                &&& v[i]@.effects == Seq::<E>::empty()
            },
{
    let mut v: Vec<CELearner<E>> = Vec::new();
    let mut i: usize = 0;
    while i < Actions::NUM_ELEMENTS
        invariant
            i <= Actions::NUM_ELEMENTS,
            v.len() == i,
            forall|j: int|
                0 <= j < v.len() ==> {
                    &&& (#[trigger] v[j])@.condition.true_conditions == all_conditions()
                    &&& v[j]@.condition.false_conditions == all_conditions()
                    &&& v[j]@.condition.best is None
                    &&& v[j]@.effects == Seq::<E>::empty()
                },
        decreases Actions::NUM_ELEMENTS - i,
    {
        v.push(CELearner::new());
        i = i + 1;
    }
    v
}

impl MCELearner {
    pub fn new() -> (m: Self)
        ensures
            m@.wf(),
            forall|i: int|
                0 <= i < Actions::NUM_ELEMENTS ==> {
                    &&& (#[trigger] m@.taxi_x[i]).condition.best is None
                    &&& m@.taxi_x[i].condition.false_conditions == all_conditions()
                    &&& m@.taxi_y[i].condition.best is None
                    &&& m@.taxi_y[i].condition.false_conditions == all_conditions()
                    &&& m@.passenger[i].condition.best is None
                    &&& m@.passenger[i].condition.false_conditions == all_conditions()
                },
            forall|i: int|
                0 <= i < Actions::NUM_ELEMENTS ==> {
                    &&& ce_fresh(#[trigger] m@.taxi_x[i])
                    &&& ce_fresh(m@.taxi_y[i])
                    &&& ce_fresh(m@.passenger[i])
                },
    {
        MCELearner {
            taxi_x_learners: new_learners(),
            taxi_y_learners: new_learners(),
            passenger_learners: new_learners(),
        }
    }

    /// The state `action` leads to from `state`, as far as it was learnt.
    pub fn predict(&self, world: &World, state: &State, action: Actions) -> (r: Result<
        Option<State>,
        effect::Error,
    >)
        requires
            self@.wf(),
            world.wf(),
            world@.in_bounds(state.taxi),
            mce_applicable(self@, *state, action),
        ensures
            reports(r, mce_prediction(self@, world@, *state, action)),
    {
        let condition = Condition::new(world, state);
        let action_index = action.to_index();
        proof {
            assert(self.taxi_x_learners[action_index as int]@ == self@.taxi_x[action_index as int]);
            assert(self.taxi_y_learners[action_index as int]@ == self@.taxi_y[action_index as int]);
            assert(self.passenger_learners[action_index as int]@ == self@.passenger[action_index as int]);
        }
        let predicted_taxi_x = match self.taxi_x_learners[action_index].predict(world, state, &condition) {
            Err(e) => {
                return Err(e);
            },
            Ok(None) => {
                return Ok(None);
            },
            Ok(Some(p)) => p,
        };
        let predicted_taxi_y = match self.taxi_y_learners[action_index].predict(world, state, &condition) {
            Err(e) => {
                return Err(e);
            },
            Ok(None) => {
                return Ok(None);
            },
            Ok(Some(p)) => p,
        };
        let predicted_passenger = match self.passenger_learners[action_index].predict(
            world,
            state,
            &condition,
        ) {
            Err(e) => {
                return Err(e);
            },
            Ok(None) => {
                return Ok(None);
            },
            Ok(Some(p)) => p,
        };
        match State::build(
            world,
            (predicted_taxi_x.get_taxi().x, predicted_taxi_y.get_taxi().y),
            predicted_passenger.get_passenger(),
            state.get_destination(),
        ) {
            Ok(s) => Ok(Some(s)),
            Err(e) => Err(effect::Error::from(e)),
        }
    }

    /// Learns from the action leading from `state` to `new_state`.
    pub fn apply_experience(&mut self, world: &World, state: &State, action: Actions, new_state: &State)
        requires
            old(self)@.wf(),
            world.wf(),
            world@.in_bounds(state.taxi),
            ChangeTaxiX::spec_generable(*state, *new_state),
            ChangeTaxiY::spec_generable(*state, *new_state),
        ensures
            final(self)@ == mce_learn(old(self)@, world@, *state, action, *new_state),
    {
        let condition = Condition::new(world, state);
        let action_index = action.to_index();
        learn_at(&mut self.taxi_x_learners, action_index, &condition, state, new_state);
        learn_at(&mut self.taxi_y_learners, action_index, &condition, state, new_state);
        learn_at(&mut self.passenger_learners, action_index, &condition, state, new_state);
    }
}

/// An action learner that has seen nothing of `action`, once it saw `action` lead from
/// `s` to `t`, predicts `t` for `action` from `s`: the x as the x learner learnt it, the
/// y as the y learner learnt it, the passenger as the passenger learner learnt it.
/// Here `t` is a state of the world with the destination of `s`, in which the passenger
/// is as before, out of the taxi, or let out at the destination.
pub proof fn lemma_mce_learns_transition(m: MCELearnerView, v: WorldView, s: State, action: Actions, t: State)
    requires
        m.wf(),
        ce_fresh(m.taxi_x[spec_action_index(action) as int]),
        ce_fresh(m.taxi_y[spec_action_index(action) as int]),
        ce_fresh(m.passenger[spec_action_index(action) as int]),
        valid_state(v, s),
        valid_state(v, t),
        t.destination == s.destination,
        t.passenger == s.passenger || t.passenger is None || t.passenger == Some(s.destination),
    ensures
        mce_prediction(mce_learn(m, v, s, action, t), v, s, action) == Prediction::Predicts(t),
{
    let c = spec_condition(v, s);
    let a = spec_action_index(action) as int;
    crate::actions::lemma_index_round_trip(action);
    let n = mce_learn(m, v, s, action, t);
    assert(n.taxi_x[a] == ce_learn(m.taxi_x[a], c, s, t));
    assert(n.taxi_y[a] == ce_learn(m.taxi_y[a], c, s, t));
    assert(n.passenger[a] == ce_learn(m.passenger[a], c, s, t));
    if s.taxi.x != t.taxi.x {
        lemma_ce_learns_effect(m.taxi_x[a], v, c, s, t);
    } else {
        lemma_ce_learns_no_change(m.taxi_x[a], v, c, s, t);
    }
    if s.taxi.y != t.taxi.y {
        lemma_ce_learns_effect(m.taxi_y[a], v, c, s, t);
    } else {
        lemma_ce_learns_no_change(m.taxi_y[a], v, c, s, t);
    }
    if s.passenger != t.passenger {
        lemma_ce_learns_effect(m.passenger[a], v, c, s, t);
    } else {
        lemma_ce_learns_no_change(m.passenger[a], v, c, s, t);
    }
    assert(spec_build(v, (t.taxi.x, t.taxi.y), t.passenger, s.destination) == Some(t));
}

/// A learner that has seen nothing predicts nothing.
pub proof fn lemma_fresh_predicts_nothing(m: MCELearnerView, v: WorldView, s: State, action: Actions)
    requires
        m.wf(),
        forall|i: int|
            0 <= i < Actions::NUM_ELEMENTS ==> {
                &&& (#[trigger] m.taxi_x[i]).condition.best is None
                &&& m.taxi_x[i].condition.false_conditions == all_conditions()
                &&& m.taxi_x[i].condition.true_conditions == all_conditions()
            },
        spec_condition(v, s).len() == 7,
    ensures
        mce_prediction(m, v, s, action) == Prediction::Unknown,
{
    let c = spec_condition(v, s);
    let a = spec_action_index(action) as int;
    crate::doormax::condition::lemma_enumerated_complete(c);
    let k = choose|k: int| 0 <= k < 128 && #[trigger] crate::doormax::condition::enumerated(k) == c;
    assert(all_conditions()[k] == c);
    assert(m.taxi_x[a].condition.false_conditions.contains(c));
    assert(m.taxi_x[a].condition.true_conditions.contains(c));
}

} // verus!
