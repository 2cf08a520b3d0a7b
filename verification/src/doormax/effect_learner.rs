use vstd::prelude::*;

use crate::doormax::effect;
use crate::doormax::effect::Effect;
use crate::state::{spec_build, State};
use crate::world::{World, WorldView};

verus! {

/// Learns the effect an action has on one attribute: the effects seen every time it
/// had one.
#[derive(Debug, Clone)]
pub struct EffectLearner<E: Effect> {
    effects: Vec<E>,
}

/// How applying a list of effects to a state turns out, in order: one of them was
/// refused, two of them disagree, or all agree on one state (none for an empty list).
pub enum EffectFold {
    Failed,
    Conflict,
    Agreed(Option<State>),
}

/// The outcome of applying `effects` to `s`, one after the other, stopping at the
/// first refusal or disagreement.
pub open spec fn fold_effects<E: Effect>(v: WorldView, effects: Seq<E>, s: State) -> EffectFold
    decreases effects.len(),
{
    if effects.len() == 0 {
        EffectFold::Agreed(None)
    } else {
        match fold_effects(v, effects.drop_last(), s) {
            EffectFold::Failed => EffectFold::Failed,
            EffectFold::Conflict => EffectFold::Conflict,
            EffectFold::Agreed(p) => {
                let t = effects.last().spec_target(s);
                match spec_build(v, t.0, t.1, t.2) {
                    None => EffectFold::Failed,
                    Some(m) => match p {
                        None => EffectFold::Agreed(Some(m)),
                        Some(q) => if q == m {
                            EffectFold::Agreed(Some(q))
                        } else {
                            EffectFold::Conflict
                        },
                    },
                }
            },
        }
    }
}

/// The prediction of a learner whose effects are `effects`: refused, unknown, or one
/// state.
pub open spec fn predicted_by<E: Effect>(v: WorldView, effects: Seq<E>, s: State, r: Result<Option<State>, effect::Error>) -> bool {
    match r {
        Err(_) => fold_effects(v, effects, s) is Failed,
        Ok(None) => fold_effects(v, effects, s) is Conflict || fold_effects(v, effects, s) == EffectFold::Agreed(None),
        Ok(Some(p)) => fold_effects(v, effects, s) == EffectFold::Agreed(Some(p)),
    }
}

/// Keeps the effects found in `s`.
pub open spec fn found_in<E>(s: Seq<E>) -> spec_fn(E) -> bool {
    |e: E| s.contains(e)
}

/// The effects kept after an experience whose effects were `seen`: all of them for the
/// first experience, afterwards those seen every time.
pub open spec fn spec_keep_effects<E>(known: Seq<E>, seen: Seq<E>) -> Seq<E> {
    if known.len() == 0 {
        seen
    } else {
        known.filter(found_in(seen))
    }
}

impl<E: Effect> View for EffectLearner<E> {
    type V = Seq<E>;

    closed spec fn view(&self) -> Seq<E> {
        self.effects@
    }
}

fn contains_effect<E: Effect>(s: &[E], e: &E) -> (b: bool)
    ensures
        b == s@.contains(*e),
{
    let mut i: usize = 0;
    while i < s.len()
        invariant
            i <= s.len(),
            forall|j: int| 0 <= j < i ==> s@[j] != *e,
        decreases s.len() - i,
    {
        if s[i].same(e) {
            assert(s@[i as int] == *e);
            return true;
        }
        i = i + 1;
    }
    false
}

impl<E: Effect> EffectLearner<E> {
    pub fn new() -> (l: Self)
        ensures
            l@ == Seq::<E>::empty(),
    {
        EffectLearner { effects: Vec::new() }
    }

    /// The state every learnt effect leads `state` to: `None` when no effect was
    /// learnt or two of them disagree, an error when one of them is refused.
    pub fn predict(&self, world: &World, state: &State) -> (r: Result<Option<State>, effect::Error>)
        requires
            world.wf(),
            forall|k: int| 0 <= k < self@.len() ==> #[trigger] self@[k].spec_applicable(*state),
        ensures
            predicted_by(world@, self@, *state, r),
    {
        let mut predicted_state: Option<State> = None;
        let mut i: usize = 0;
        while i < self.effects.len()
            invariant
                world.wf(),
                forall|k: int| 0 <= k < self@.len() ==> #[trigger] self@[k].spec_applicable(*state),
                self@ == self.effects@,
                i <= self.effects.len(),
                fold_effects(world@, self@.take(i as int), *state) == EffectFold::Agreed(predicted_state),
            decreases self.effects.len() - i,
        {
            let e = self.effects[i];
            proof {
                assert(self@.take(i + 1).drop_last() =~= self@.take(i as int));
                assert(self@.take(i + 1).last() == e);
                assert(self@[i as int].spec_applicable(*state));
            }
            let modified_state = match e.apply(world, state) {
                Ok(s) => s,
                Err(error) => {
                    proof {
                        lemma_fold_stops(world@, self@, *state, i + 1);
                    }
                    return Err(error);
                },
            };
            match predicted_state {
                None => {
                    predicted_state = Some(modified_state);
                },
                Some(previous_prediction) => {
                    if previous_prediction != modified_state {
                        proof {
                            lemma_fold_stops(world@, self@, *state, i + 1);
                        }
                        return Ok(None);
                    }
                },
            }
            i = i + 1;
        }
        proof {
            assert(self@.take(self.effects.len() as int) =~= self@);
        }
        Ok(predicted_state)
    }

    /// Learns from the effects of one experience: the first one is taken whole,
    /// afterwards only the effects seen again are kept.
    pub fn apply_experience(&mut self, effects: &[E])
        ensures
            final(self)@ == spec_keep_effects(old(self)@, effects@),
    {
        if self.effects.len() == 0 {
            let mut copy: Vec<E> = Vec::new();
            let mut i: usize = 0;
            while i < effects.len()
                invariant
                    i <= effects.len(),
                    copy@ == effects@.take(i as int),
                decreases effects.len() - i,
            {
                copy.push(effects[i]);
                assert(effects@.take(i + 1) =~= effects@.take(i as int).push(effects@[i as int]));
                i = i + 1;
            }
            assert(effects@.take(effects.len() as int) =~= effects@);
            self.effects = copy;
        } else {
            let ghost known = self.effects@;
            let mut kept: Vec<E> = Vec::new();
            let mut i: usize = 0;
            while i < self.effects.len()
                invariant
                    i <= self.effects.len(),
                    known == self.effects@,
                    kept@ == known.take(i as int).filter(found_in(effects@)),
                decreases self.effects.len() - i,
            {
                let e = self.effects[i];
                if contains_effect(effects, &e) {
                    kept.push(e);
                }
                proof {
                    reveal(Seq::filter);
                    assert(known.take(i + 1).drop_last() =~= known.take(i as int));
                    assert(known.take(i + 1).last() == e);
                }
                i = i + 1;
            }
            assert(known.take(known.len() as int) =~= known);
            self.effects = kept;
        }
    }
}

/// Once applying effects has stopped, more effects do not change the outcome.
pub proof fn lemma_fold_stops<E: Effect>(v: WorldView, effects: Seq<E>, s: State, n: int)
    requires
        0 <= n <= effects.len(),
        !(fold_effects(v, effects.take(n), s) is Agreed),
    ensures
        fold_effects(v, effects, s) == fold_effects(v, effects.take(n), s),
    decreases effects.len() - n,
{
    if n < effects.len() {
        assert(effects.take(n + 1).drop_last() =~= effects.take(n));
        lemma_fold_stops(v, effects, s, n + 1);
    } else {
        assert(effects.take(n) =~= effects);
    }
}

} // verus!
