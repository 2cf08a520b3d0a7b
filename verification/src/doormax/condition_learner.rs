use vstd::prelude::*;

use crate::doormax::condition::{enumerated, Condition};
use crate::doormax::hypothesis::{
    hypothesis_of, hypothesis_text, lemma_combine_generalises, spec_combine, spec_from_condition, spec_matches,
    spec_matches_cond, Hypothesis, Require,
};

verus! {

/// Learns under which conditions something happens: the most specific hypothesis that
/// holds of every condition where it happened, the conditions not yet seen to fail,
/// and the conditions not yet ruled out as failures.
#[derive(Debug, Clone)]
pub struct ConditionLearner {
    true_conditions: Vec<Condition>,
    false_conditions: Vec<Condition>,
    best: Option<Hypothesis>,
}

/// What a condition learner knows.
pub struct ConditionLearnerView {
    /// Conditions never seen where it did not happen.
    pub true_conditions: Seq<Seq<bool>>,
    /// Conditions the best hypothesis does not hold of.
    pub false_conditions: Seq<Seq<bool>>,
    /// The most specific hypothesis that holds wherever it happened, once it has.
    pub best: Option<Seq<Require>>,
}

/// The terms of each condition.
pub open spec fn cond_views(s: Seq<Condition>) -> Seq<Seq<bool>> {
    Seq::new(s.len(), |i: int| s[i].0@)
}

/// Every condition, in the order of the enumeration.
pub open spec fn all_conditions() -> Seq<Seq<bool>> {
    Seq::new(128, |k: int| enumerated(k))
}

/// Keeps the conditions other than `c`.
pub open spec fn differs_from(c: Seq<bool>) -> spec_fn(Seq<bool>) -> bool {
    |d: Seq<bool>| d != c
}

/// Keeps the conditions that `h` does not hold of.
pub open spec fn unmatched_by(h: Seq<Require>) -> spec_fn(Seq<bool>) -> bool {
    |d: Seq<bool>| !spec_matches_cond(h, d)
}

/// What the learner predicts for `c`: that it happens where the best hypothesis (or,
/// before any success, anything) holds and `c` was not ruled out; that it does not
/// where the hypothesis does not hold (or, before any success, anywhere) and `c` is a
/// known failure never seen to succeed; nothing otherwise.
pub open spec fn spec_predict(l: ConditionLearnerView, c: Seq<bool>) -> Option<bool> {
    let has_failure = l.false_conditions.contains(c);
    let has_true = l.true_conditions.contains(c);
    match l.best {
        None => if !has_failure {
            Some(true)
        } else if !has_true {
            Some(false)
        } else {
            None
        },
        Some(h) => if spec_matches_cond(h, c) {
            if !has_failure {
                Some(true)
            } else {
                None
            }
        } else if has_failure && !has_true {
            Some(false)
        } else {
            None
        },
    }
}

/// The learner after seeing that it happened (`truth`) or not under `c`.
pub open spec fn spec_learn(l: ConditionLearnerView, c: Seq<bool>, truth: bool) -> ConditionLearnerView {
    if truth {
        let best = match l.best {
            None => spec_from_condition(c),
            Some(h) => spec_combine(h, c),
        };
        ConditionLearnerView {
            false_conditions: l.false_conditions.filter(unmatched_by(best)),
            best: Some(best),
            ..l
        }
    } else {
        ConditionLearnerView { true_conditions: l.true_conditions.filter(differs_from(c)), ..l }
    }
}

/// The best hypothesis holds of no known failure.
pub open spec fn consistent(l: ConditionLearnerView) -> bool {
    l.best matches Some(h) ==> forall|k: int|
        0 <= k < l.false_conditions.len() ==> !spec_matches_cond(h, #[trigger] l.false_conditions[k])
}

impl View for ConditionLearner {
    type V = ConditionLearnerView;

    closed spec fn view(&self) -> ConditionLearnerView {
        ConditionLearnerView {
            true_conditions: cond_views(self.true_conditions@),
            false_conditions: cond_views(self.false_conditions@),
            best: match self.best {
                Some(h) => Some(h.0@),
                None => None,
            },
        }
    }
}

/// What a learner has learnt, written as its best hypothesis, or `None`.
pub open spec fn learner_text(l: ConditionLearnerView) -> Seq<char> {
    match l.best {
        Some(h) => hypothesis_text(h),
        None => "None"@,
    }
}

impl ConditionLearner {
    /// The best hypothesis written out, or `None` before anything was learnt.
    pub fn to_string(&self) -> (s: String)
        ensures
            s@ == learner_text(self@),
    {
        match &self.best {
            Some(h) => h.to_string(),
            None => {
                let mut s = String::new();
                s.append("None");
                s
            },
        }
    }
}

/// Whether `c` is among `s`.
fn contains_condition(s: &Vec<Condition>, c: &Condition) -> (b: bool)
    ensures
        b == cond_views(s@).contains(c.0@),
{
    let mut i: usize = 0;
    while i < s.len()
        invariant
            i <= s.len(),
            forall|j: int| 0 <= j < i ==> cond_views(s@)[j] != c.0@,
        decreases s.len() - i,
    {
        if s[i] == *c {
            assert(cond_views(s@)[i as int] == c.0@);
            return true;
        }
        i = i + 1;
    }
    false
}

/// The conditions of `s` other than `c`, in order.
fn without(s: &Vec<Condition>, c: &Condition) -> (r: Vec<Condition>)
    ensures
        cond_views(r@) == cond_views(s@).filter(differs_from(c.0@)),
{
    let mut r: Vec<Condition> = Vec::new();
    let mut i: usize = 0;
    while i < s.len()
        invariant
            i <= s.len(),
            cond_views(r@) == cond_views(s@).take(i as int).filter(differs_from(c.0@)),
        decreases s.len() - i,
    {
        proof {
            let v = cond_views(s@);
            assert(v.take(i + 1).drop_last() =~= v.take(i as int));
            assert(v.take(i + 1).last() == s@[i as int].0@);
            assert(cond_views(r@.push(s[i as int])) =~= cond_views(r@).push(s@[i as int].0@));
        }
        if !(s[i] == *c) {
            r.push(s[i]);
        }
        proof {
            let v = cond_views(s@);
            let p = differs_from(c.0@);
            reveal(Seq::filter);
            assert(v.take(i + 1).filter(p) == (if p(v.take(i + 1).last()) {
                v.take(i + 1).drop_last().filter(p).push(v.take(i + 1).last())
            } else {
                v.take(i + 1).drop_last().filter(p)
            }));
        }
        i = i + 1;
    }
    proof {
        assert(cond_views(s@).take(s.len() as int) =~= cond_views(s@));
    }
    r
}

/// The conditions of `s` that `h` does not hold of, in order.
fn unmatched(s: &Vec<Condition>, h: &Hypothesis) -> (r: Vec<Condition>)
    ensures
        cond_views(r@) == cond_views(s@).filter(unmatched_by(h.0@)),
{
    let mut r: Vec<Condition> = Vec::new();
    let mut i: usize = 0;
    while i < s.len()
        invariant
            i <= s.len(),
            cond_views(r@) == cond_views(s@).take(i as int).filter(unmatched_by(h.0@)),
        decreases s.len() - i,
    {
        proof {
            let v = cond_views(s@);
            assert(v.take(i + 1).drop_last() =~= v.take(i as int));
            assert(v.take(i + 1).last() == s@[i as int].0@);
            assert(cond_views(r@.push(s[i as int])) =~= cond_views(r@).push(s@[i as int].0@));
        }
        if !h.matches_cond(&s[i]) {
            r.push(s[i]);
        }
        proof {
            let v = cond_views(s@);
            let p = unmatched_by(h.0@);
            reveal(Seq::filter);
            assert(v.take(i + 1).filter(p) == (if p(v.take(i + 1).last()) {
                v.take(i + 1).drop_last().filter(p).push(v.take(i + 1).last())
            } else {
                v.take(i + 1).drop_last().filter(p)
            }));
        }
        i = i + 1;
    }
    proof {
        assert(cond_views(s@).take(s.len() as int) =~= cond_views(s@));
    }
    r
}

impl ConditionLearner {
    /// A learner that has seen nothing: every condition is possible either way.
    pub fn new() -> (l: Self)
        ensures
            l@.true_conditions == all_conditions(),
            l@.false_conditions == all_conditions(),
            l@.best is None,
    {
        let true_conditions = Condition::enumerate_all();
        let false_conditions = Condition::enumerate_all();
        let l = ConditionLearner { true_conditions, false_conditions, best: None };
        assert(l@.true_conditions =~= all_conditions());
        assert(l@.false_conditions =~= all_conditions());
        l
    }

    pub fn predict(&self, condition: &Condition) -> (r: Option<bool>)
        ensures
            r == spec_predict(self@, condition.0@),
    {
        let has_failure = contains_condition(&self.false_conditions, condition);
        let has_true = contains_condition(&self.true_conditions, condition);
        match self.best {
            None => {
                if !has_failure {
                    Some(true)
                } else if !has_true {
                    Some(false)
                } else {
                    None
                }
            },
            Some(ref best_hypothesis) => {
                if best_hypothesis.matches_cond(condition) {
                    if !has_failure {
                        Some(true)
                    } else {
                        None
                    }
                } else {
                    if has_failure && !has_true {
                        Some(false)
                    } else {
                        None
                    }
                }
            },
        }
    }

    pub fn apply_experience(&mut self, condition: &Condition, truth: bool)
        ensures
            final(self)@ == spec_learn(old(self)@, condition.0@, truth),
    {
        if truth {
            let best_hypothesis = match self.best {
                None => hypothesis_of(*condition),
                Some(ref best_hypothesis) => best_hypothesis.combine_cond(condition),
            };
            self.best = Some(best_hypothesis);
            self.false_conditions = unmatched(&self.false_conditions, &best_hypothesis);
        } else {
            self.true_conditions = without(&self.true_conditions, condition);
        }
    }

    /// Forgets, as possible successes, the conditions that `other` has learnt to
    /// succeed under.
    pub fn remove_overlap(&mut self, other: &ConditionLearner)
        ensures
            final(self)@ == match other@.best {
                Some(h) => ConditionLearnerView {
                    true_conditions: old(self)@.true_conditions.filter(unmatched_by(h)),
                    ..old(self)@
                },
                None => old(self)@,
            },
    {
        if let Some(ref other_best) = other.best {
            self.true_conditions = unmatched(&self.true_conditions, other_best);
        }
    }

    /// Whether the best hypotheses of the two learners are comparable.
    pub fn overlaps(&self, other: &ConditionLearner) -> (b: bool)
        ensures
            b == match (self@.best, other@.best) {
                (Some(a), Some(o)) => spec_matches(a, o) || spec_matches(o, a),
                _ => false,
            },
    {
        match self.best {
            Some(ref best_hyp) => match other.best {
                Some(ref other_best_hyp) => best_hyp.matches(other_best_hyp) || other_best_hyp.matches(
                    best_hyp,
                ),
                None => false,
            },
            None => false,
        }
    }
}

/// A filtered sequence holds only elements that pass the filter.
proof fn lemma_filter_passes(s: Seq<Seq<bool>>, p: spec_fn(Seq<bool>) -> bool)
    ensures
        forall|k: int| 0 <= k < s.filter(p).len() ==> p(#[trigger] s.filter(p)[k]),
{
    assert forall|k: int| 0 <= k < s.filter(p).len() implies p(#[trigger] s.filter(p)[k]) by {
        s.lemma_filter_pred(p, k);
    }
}

/// Learning keeps the best hypothesis clear of the known failures.
pub proof fn lemma_learn_consistent(l: ConditionLearnerView, c: Seq<bool>, truth: bool)
    requires
        consistent(l),
    ensures
        consistent(spec_learn(l, c, truth)),
{
    if truth {
        let n = spec_learn(l, c, truth);
        lemma_filter_passes(l.false_conditions, unmatched_by(n.best->0));
    }
}

/// Where the best hypothesis of a consistent learner holds, it predicts success; in
/// particular right after learning a success.
pub proof fn lemma_predicts_success(l: ConditionLearnerView, c: Seq<bool>)
    requires
        consistent(l),
        l.best matches Some(h) && spec_matches_cond(h, c),
    ensures
        spec_predict(l, c) == Some(true),
{
    if l.false_conditions.contains(c) {
        let k = choose|k: int| 0 <= k < l.false_conditions.len() && l.false_conditions[k] == c;
        assert(!spec_matches_cond(l.best->0, l.false_conditions[k]));
    }
}

/// After learning that it happened under `c`, a consistent learner predicts that it
/// happens under `c`.
pub proof fn lemma_learns_success(l: ConditionLearnerView, c: Seq<bool>)
    requires
        consistent(l),
        c.len() == 7,
        l.best matches Some(h) ==> h.len() == 7,
    ensures
        spec_predict(spec_learn(l, c, true), c) == Some(true),
{
    let n = spec_learn(l, c, true);
    lemma_learn_consistent(l, c, true);
    match l.best {
        Some(h) => {
            lemma_combine_generalises(h, c, c);
        },
        None => {
            crate::doormax::hypothesis::lemma_from_condition_exact(c, c);
        },
    }
    lemma_predicts_success(n, c);
}

/// Before any success, a learner that sees it fail under `c` predicts that it does
/// not happen under `c`.
pub proof fn lemma_learns_failure(l: ConditionLearnerView, c: Seq<bool>)
    requires
        l.best is None,
        l.false_conditions.contains(c),
    ensures
        spec_predict(spec_learn(l, c, false), c) == Some(false),
{
    let n = spec_learn(l, c, false);
    lemma_filter_passes(l.true_conditions, differs_from(c));
    if n.true_conditions.contains(c) {
        let k = choose|k: int| 0 <= k < n.true_conditions.len() && n.true_conditions[k] == c;
        assert(differs_from(c)(n.true_conditions[k]));
    }
}

} // verus!
