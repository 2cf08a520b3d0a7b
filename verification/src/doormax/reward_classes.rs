use vstd::prelude::*;

use crate::doormax::condition::{enumerated, lemma_enumerated_complete, Condition};
use crate::doormax::condition_learner::{
    all_conditions, differs_from, lemma_learns_success, spec_learn, spec_predict, unmatched_by, ConditionLearner,
    ConditionLearnerView,
};
use crate::doormax::hypothesis::{
    lemma_from_condition_exact, spec_from_condition, spec_matches, spec_matches_cond, Require,
};

verus! {

/// Learns, for each class of reward, the condition under which an action earns it.
/// A class stands for one reward value; which value is the caller's business.
#[derive(Debug, Clone)]
pub struct RewardClasses {
    entries: Vec<(ConditionLearner, usize)>,
}

/// What each entry has learnt, with its class.
pub open spec fn entry_views(s: Seq<(ConditionLearner, usize)>) -> Seq<(ConditionLearnerView, usize)> {
    Seq::new(s.len(), |i: int| (s[i].0@, s[i].1))
}

impl View for RewardClasses {
    type V = Seq<(ConditionLearnerView, usize)>;

    closed spec fn view(&self) -> Seq<(ConditionLearnerView, usize)> {
        entry_views(self.entries@)
    }
}

/// Two learners overlap when the best hypothesis of one is at least as general as
/// that of the other.
pub open spec fn learners_overlap(a: ConditionLearnerView, b: ConditionLearnerView) -> bool {
    match (a.best, b.best) {
        (Some(x), Some(y)) => spec_matches(x, y) || spec_matches(y, x),
        _ => false,
    }
}

/// A learner that has seen nothing.
pub open spec fn fresh_learner() -> ConditionLearnerView {
    ConditionLearnerView { true_conditions: all_conditions(), false_conditions: all_conditions(), best: None }
}

/// `l` with the conditions that the best hypotheses of `others` hold of no longer
/// counted as never failing, taken in order.
pub open spec fn without_overlap(l: ConditionLearnerView, others: Seq<(ConditionLearnerView, usize)>) -> ConditionLearnerView
    decreases others.len(),
{
    if others.len() == 0 {
        l
    } else {
        let before = without_overlap(l, others.drop_last());
        match others.last().0.best {
            Some(h) => ConditionLearnerView { true_conditions: before.true_conditions.filter(unmatched_by(h)), ..before },
            None => before,
        }
    }
}

/// Every entry after learning that, under `c`, its class was earned or not.
pub open spec fn learn_all(entries: Seq<(ConditionLearnerView, usize)>, c: Seq<bool>, class: usize) -> Seq<
    (ConditionLearnerView, usize),
> {
    Seq::new(entries.len(), |i: int| (spec_learn(entries[i].0, c, entries[i].1 == class), entries[i].1))
}

/// Some two entries overlap.
pub open spec fn any_overlap(entries: Seq<(ConditionLearnerView, usize)>) -> bool {
    exists|i: int, j: int|
        0 <= i < j < entries.len() && learners_overlap(#[trigger] entries[i].0, #[trigger] entries[j].0)
}

/// The entries after earning `class` under `c`. Each entry learns whether its class
/// was earned. A class not seen before gets a new learner, cleared of what the others
/// hold; when it overlaps another, the others are forgotten. Otherwise, when two
/// entries overlap, all are forgotten.
pub open spec fn spec_reward_learn(entries: Seq<(ConditionLearnerView, usize)>, c: Seq<bool>, class: usize) -> Seq<
    (ConditionLearnerView, usize),
> {
    let learned = learn_all(entries, c, class);
    if exists|i: int| 0 <= i < entries.len() && (#[trigger] entries[i]).1 == class {
        if any_overlap(learned) {
            Seq::empty()
        } else {
            learned
        }
    } else {
        let fresh = without_overlap(spec_learn(fresh_learner(), c, true), learned);
        let kept = if exists|j: int| 0 <= j < learned.len() && learners_overlap(fresh, #[trigger] learned[j].0) {
            Seq::empty()
        } else {
            learned
        };
        kept.push((fresh, class))
    }
}

/// The prediction from the first `k` entries: `None` once an entry knows nothing or
/// two classes are both predicted, otherwise the class predicted so far, if any.
pub open spec fn predict_upto(entries: Seq<(ConditionLearnerView, usize)>, c: Seq<bool>, k: int) -> Option<
    Option<usize>,
>
    decreases k,
{
    if k <= 0 {
        Some(None)
    } else {
        match predict_upto(entries, c, k - 1) {
            None => None,
            Some(found) => match spec_predict(entries[k - 1].0, c) {
                None => None,
                Some(false) => Some(found),
                Some(true) => match found {
                    Some(x) => if x == entries[k - 1].1 {
                        Some(found)
                    } else {
                        None
                    },
                    None => Some(Some(entries[k - 1].1)),
                },
            },
        }
    }
}

/// The class predicted for `c`: the one class whose learner predicts it, when every
/// learner knows and no two classes are predicted.
pub open spec fn spec_class_predict(entries: Seq<(ConditionLearnerView, usize)>, c: Seq<bool>) -> Option<usize> {
    match predict_upto(entries, c, entries.len() as int) {
        Some(found) => found,
        None => None,
    }
}

impl RewardClasses {
    /// Classes that have learnt nothing.
    pub fn new() -> (r: Self)
        ensures
            r@ == Seq::<(ConditionLearnerView, usize)>::empty(),
    {
        let r = RewardClasses { entries: Vec::new() };
        assert(r@ =~= Seq::<(ConditionLearnerView, usize)>::empty());
        r
    }

    /// The class of reward predicted under `condition`, if it is known.
    pub fn predict(&self, condition: &Condition) -> (r: Option<usize>)
        ensures
            r == spec_class_predict(self@, condition.0@),
    {
        let ghost v = self@;
        let mut found: Option<usize> = None;
        let mut k: usize = 0;
        while k < self.entries.len()
            invariant
                v == self@,
                v == entry_views(self.entries@),
                k <= self.entries.len(),
                predict_upto(v, condition.0@, k as int) == Some(found),
            decreases self.entries.len() - k,
        {
            let learner = &self.entries[k].0;
            let class = self.entries[k].1;
            assert(v[k as int] == (learner@, class));
            match learner.predict(condition) {
                None => {
                    proof {
                        lemma_predict_stops(v, condition.0@, k as int + 1, v.len() as int);
                    }
                    return None;
                },
                Some(false) => {},
                Some(true) => {
                    match found {
                        Some(x) => {
                            if x != class {
                                proof {
                                    lemma_predict_stops(v, condition.0@, k as int + 1, v.len() as int);
                                }
                                return None;
                            }
                        },
                        None => {
                            found = Some(class);
                        },
                    }
                },
            }
            k = k + 1;
        }
        found
    }

    /// Learns that `class` was earned under `condition`.
    pub fn apply_experience(&mut self, condition: &Condition, class: usize)
        ensures
            final(self)@ == spec_reward_learn(old(self)@, condition.0@, class),
    {
        let ghost old_v = self@;
        let ghost c = condition.0@;
        let ghost learned = learn_all(old_v, c, class);
        let n = self.entries.len();
        let mut found = false;
        let mut i: usize = 0;
        while i < n
            invariant
                n == self.entries.len(),
                c == condition.0@,
                old_v.len() == n,
                learned == learn_all(old_v, c, class),
                i <= n,
                forall|j: int| 0 <= j < i ==> #[trigger] entry_views(self.entries@)[j] == learned[j],
                forall|j: int| i <= j < n ==> #[trigger] entry_views(self.entries@)[j] == old_v[j],
                found == exists|j: int| 0 <= j < i && (#[trigger] old_v[j]).1 == class,
            decreases n - i,
        {
            let ghost pre = self.entries@;
            proof {
                assert(entry_views(pre)[i as int] == old_v[i as int]);
            }
            let (mut learner, entry_class) = self.entries.remove(i);
            let ghost learner_before = learner@;
            proof {
                assert(old_v[i as int] == (learner_before, entry_class));
            }
            learner.apply_experience(condition, entry_class == class);
            let ghost learner_after = learner@;
            let ghost before = self.entries@;
            self.entries.insert(i, (learner, entry_class));
            proof {
                assert(learner_after == spec_learn(learner_before, c, entry_class == class));
                assert(self.entries@[i as int].0@ == learner_after);
                assert(self.entries@[i as int].1 == entry_class);
                assert(learned[i as int] == (spec_learn(old_v[i as int].0, c, old_v[i as int].1 == class), old_v[i as int].1));
                assert(entry_views(self.entries@)[i as int] == learned[i as int]);
                assert forall|j: int| 0 <= j < i + 1 implies #[trigger] entry_views(self.entries@)[j] == learned[j] by {
                    if j < i {
                        assert(self.entries@[j] == before[j]);
                        assert(before[j] == pre[j]);
                        assert(entry_views(pre)[j] == learned[j]);
                    }
                }
                assert forall|j: int| i + 1 <= j < n implies #[trigger] entry_views(self.entries@)[j] == old_v[j] by {
                    assert(self.entries@[j] == before[j - 1]);
                    assert(before[j - 1] == pre[j]);
                    assert(entry_views(pre)[j] == old_v[j]);
                }
            }
            if entry_class == class {
                found = true;
            }
            i = i + 1;
        }
        proof {
            assert(entry_views(self.entries@) =~= learned);
        }
        if !found {
            let mut fresh = ConditionLearner::new();
            fresh.apply_experience(condition, true);
            proof {
                assert(fresh@ == spec_learn(fresh_learner(), c, true)) by {
                    assert(fresh@.true_conditions == all_conditions());
                }
            }
            let mut j: usize = 0;
            while j < n
                invariant
                    n == self.entries.len(),
                    c == condition.0@,
                    entry_views(self.entries@) == learned,
                    j <= n,
                    fresh@ == without_overlap(spec_learn(fresh_learner(), c, true), learned.take(j as int)),
                decreases n - j,
            {
                fresh.remove_overlap(&self.entries[j].0);
                proof {
                    assert(learned.take(j + 1).drop_last() =~= learned.take(j as int));
                    assert(learned[j as int].0 == self.entries@[j as int].0@);
                }
                j = j + 1;
            }
            proof {
                assert(learned.take(n as int) =~= learned);
            }
            let mut conflict = false;
            let mut k: usize = 0;
            while k < n
                invariant
                    n == self.entries.len(),
                    entry_views(self.entries@) == learned,
                    k <= n,
                    conflict == exists|m: int| 0 <= m < k && learners_overlap(fresh@, #[trigger] learned[m].0),
                decreases n - k,
            {
                if fresh.overlaps(&self.entries[k].0) {
                    conflict = true;
                }
                proof {
                    assert(learned[k as int].0 == self.entries@[k as int].0@);
                }
                k = k + 1;
            }
            if conflict {
                self.entries = Vec::new();
            }
            let ghost kept = entry_views(self.entries@);
            self.entries.push((fresh, class));
            proof {
                assert(entry_views(self.entries@) =~= kept.push((fresh@, class)));
                assert(conflict ==> kept =~= Seq::<(ConditionLearnerView, usize)>::empty());
            }
        } else {
            let mut conflict = false;
            let mut a: usize = 0;
            while a < n
                invariant
                    n == self.entries.len(),
                    entry_views(self.entries@) == learned,
                    a <= n,
                    conflict == exists|x: int, y: int|
                        0 <= x < a && x < y < n && learners_overlap(#[trigger] learned[x].0, #[trigger] learned[y].0),
                decreases n - a,
            {
                let mut b: usize = a + 1;
                while b < n
                    invariant
                        n == self.entries.len(),
                        entry_views(self.entries@) == learned,
                        a < n,
                        a + 1 <= b <= n,
                        conflict == ((exists|x: int, y: int|
                            0 <= x < a && x < y < n && learners_overlap(#[trigger] learned[x].0, #[trigger] learned[y].0))
                            || (exists|y: int| a < y < b && learners_overlap(learned[a as int].0, #[trigger] learned[y].0))),
                    decreases n - b,
                {
                    if self.entries[a].0.overlaps(&self.entries[b].0) {
                        conflict = true;
                    }
                    proof {
                        assert(learned[a as int].0 == self.entries@[a as int].0@);
                        assert(learned[b as int].0 == self.entries@[b as int].0@);
                    }
                    b = b + 1;
                }
                proof {
                    assert(conflict == exists|x: int, y: int|
                        0 <= x < a + 1 && x < y < n && learners_overlap(#[trigger] learned[x].0, #[trigger] learned[y].0))
                        by {
                        if conflict {
                            if !(exists|x: int, y: int|
                                0 <= x < a && x < y < n && learners_overlap(#[trigger] learned[x].0, #[trigger] learned[y].0)) {
                                let y = choose|y: int| a < y < n && learners_overlap(learned[a as int].0, #[trigger] learned[y].0);
                                assert(learners_overlap(learned[a as int].0, learned[y].0));
                            }
                        } else {
                            assert forall|x: int, y: int| 0 <= x < a + 1 && x < y < n implies !learners_overlap(
                                #[trigger] learned[x].0,
                                #[trigger] learned[y].0,
                            ) by {
                                if x == a {
                                    assert(!learners_overlap(learned[a as int].0, learned[y].0));
                                }
                            }
                        }
                    }
                }
                a = a + 1;
            }
            proof {
                assert(conflict == any_overlap(learned));
            }
            if conflict {
                self.entries = Vec::new();
                assert(entry_views(self.entries@) =~= Seq::<(ConditionLearnerView, usize)>::empty());
            }
        }
    }
}

/// What the first `k` entries predict: nothing once one of them knows nothing; a class
/// only where every one of them knows, one of that class predicts it and none of
/// another class does; no class only where each of them predicts its class is not
/// earned.
proof fn lemma_predict_upto(entries: Seq<(ConditionLearnerView, usize)>, c: Seq<bool>, k: int)
    requires
        0 <= k <= entries.len(),
    ensures
        (exists|j: int| 0 <= j < k && (#[trigger] spec_predict(entries[j].0, c)) is None) ==> predict_upto(
            entries,
            c,
            k,
        ) is None,
        predict_upto(entries, c, k) matches Some(Some(x)) ==> {
            &&& forall|j: int| 0 <= j < k ==> (#[trigger] spec_predict(entries[j].0, c)) is Some
            &&& exists|j: int| 0 <= j < k && entries[j].1 == x && #[trigger] spec_predict(entries[j].0, c) == Some(true)
            &&& forall|j: int| 0 <= j < k && #[trigger] spec_predict(entries[j].0, c) == Some(true) ==> entries[j].1 == x
        },
        predict_upto(entries, c, k) == Some(None::<usize>) ==> forall|j: int|
            0 <= j < k ==> #[trigger] spec_predict(entries[j].0, c) == Some(false),
        predict_upto(entries, c, k) is None ==> (exists|j: int|
            0 <= j < k && (#[trigger] spec_predict(entries[j].0, c)) is None) || (exists|i: int, j: int|
            0 <= i < k && 0 <= j < k && #[trigger] spec_predict(entries[i].0, c) == Some(true)
                && #[trigger] spec_predict(entries[j].0, c) == Some(true) && entries[i].1 != entries[j].1),
    decreases k,
{
    if k > 0 {
        lemma_predict_upto(entries, c, k - 1);
        let p = spec_predict(entries[k - 1].0, c);
        if exists|j: int| 0 <= j < k && (#[trigger] spec_predict(entries[j].0, c)) is None {
            let j = choose|j: int| 0 <= j < k && (#[trigger] spec_predict(entries[j].0, c)) is None;
            if j < k - 1 {
                assert(predict_upto(entries, c, k - 1) is None);
            }
        }
        match predict_upto(entries, c, k - 1) {
            None => {},
            Some(found) => {
                match found {
                    Some(x) => {
                        let w = choose|j: int|
                            0 <= j < k - 1 && entries[j].1 == x && #[trigger] spec_predict(entries[j].0, c) == Some(true);
                        if p == Some(true) && entries[k - 1].1 != x {
                            assert(spec_predict(entries[w].0, c) == Some(true));
                        }
                    },
                    None => {},
                }
            },
        }
    }
}

/// The class predicted for `c` is `x` exactly when every entry knows whether its class
/// is earned under `c`, an entry of class `x` predicts that it is, and no entry of
/// another class predicts that its own is. In particular an entry that knows nothing
/// leaves the whole prediction unknown.
pub proof fn lemma_class_prediction(entries: Seq<(ConditionLearnerView, usize)>, c: Seq<bool>, x: usize)
    ensures
        (exists|j: int| 0 <= j < entries.len() && (#[trigger] spec_predict(entries[j].0, c)) is None)
            ==> spec_class_predict(entries, c) is None,
        spec_class_predict(entries, c) == Some(x) <==> {
            &&& forall|j: int| 0 <= j < entries.len() ==> (#[trigger] spec_predict(entries[j].0, c)) is Some
            &&& exists|j: int|
                0 <= j < entries.len() && entries[j].1 == x && #[trigger] spec_predict(entries[j].0, c) == Some(true)
            &&& forall|j: int|
                0 <= j < entries.len() && #[trigger] spec_predict(entries[j].0, c) == Some(true) ==> entries[j].1 == x
        },
{
    let n = entries.len() as int;
    lemma_predict_upto(entries, c, n);
    if (forall|j: int| 0 <= j < n ==> (#[trigger] spec_predict(entries[j].0, c)) is Some) && (exists|j: int|
        0 <= j < n && entries[j].1 == x && #[trigger] spec_predict(entries[j].0, c) == Some(true)) && (forall|j: int|
        0 <= j < n && #[trigger] spec_predict(entries[j].0, c) == Some(true) ==> entries[j].1 == x) {
        let w = choose|j: int| 0 <= j < n && entries[j].1 == x && #[trigger] spec_predict(entries[j].0, c) == Some(true);
        if predict_upto(entries, c, n) is None {
            if exists|j: int| 0 <= j < n && (#[trigger] spec_predict(entries[j].0, c)) is None {
                let j = choose|j: int| 0 <= j < n && (#[trigger] spec_predict(entries[j].0, c)) is None;
                assert(spec_predict(entries[j].0, c) is Some);
            } else {
                let (i, j) = choose|i: int, j: int|
                    0 <= i < n && 0 <= j < n && #[trigger] spec_predict(entries[i].0, c) == Some(true)
                        && #[trigger] spec_predict(entries[j].0, c) == Some(true) && entries[i].1 != entries[j].1;
                assert(entries[i].1 == x);
                assert(entries[j].1 == x);
            }
        }
        if predict_upto(entries, c, n) == Some(None::<usize>) {
            assert(spec_predict(entries[w].0, c) == Some(false));
        }
    }
}

/// Classes that have learnt nothing, once class `x` was earned under `c`, predict
/// class `x` under `c`.
pub proof fn lemma_learns_first_class(c: Seq<bool>, x: usize)
    requires
        c.len() == 7,
    ensures
        spec_class_predict(spec_reward_learn(Seq::empty(), c, x), c) == Some(x),
{
    let e = Seq::<(ConditionLearnerView, usize)>::empty();
    let learned = learn_all(e, c, x);
    assert(learned =~= e);
    let fresh = spec_learn(fresh_learner(), c, true);
    assert(without_overlap(fresh, learned) == fresh);
    lemma_learns_success(fresh_learner(), c);
    let r = spec_reward_learn(e, c, x);
    assert(r =~= seq![(fresh, x)]);
    assert(predict_upto(r, c, 0) == Some(None::<usize>));
    assert(predict_upto(r, c, 1) == Some(Some(x)));
}

/// Every condition of seven terms is one of all the conditions.
proof fn lemma_in_all_conditions(c: Seq<bool>)
    requires
        c.len() == 7,
    ensures
        all_conditions().contains(c),
{
    lemma_enumerated_complete(c);
    let k = choose|k: int| 0 <= k < 128 && #[trigger] enumerated(k) == c;
    assert(all_conditions()[k] == c);
}

/// A condition is kept by a filter exactly when it is one of all the conditions and
/// passes it.
proof fn lemma_filter_all_contains(p: spec_fn(Seq<bool>) -> bool, c: Seq<bool>)
    requires
        c.len() == 7,
    ensures
        all_conditions().filter(p).contains(c) <==> p(c),
{
    lemma_in_all_conditions(c);
    let k = choose|k: int| 0 <= k < all_conditions().len() && all_conditions()[k] == c;
    if p(c) {
        all_conditions().lemma_filter_contains(p, k);
    }
    if all_conditions().filter(p).contains(c) {
        let i = choose|i: int| 0 <= i < all_conditions().filter(p).len() && all_conditions().filter(p)[i] == c;
        all_conditions().lemma_filter_pred(p, i);
    }
}

/// Classes that have learnt nothing, once class `x` was earned under `c1` and then a
/// different class `y` under a different condition `c2`, predict `x` under `c1` and
/// `y` under `c2`.
pub proof fn lemma_learns_two_classes(c1: Seq<bool>, c2: Seq<bool>, x: usize, y: usize)
    requires
        c1.len() == 7,
        c2.len() == 7,
        c1 != c2,
        x != y,
    ensures
        spec_class_predict(spec_reward_learn(spec_reward_learn(Seq::empty(), c1, x), c2, y), c1) == Some(x),
        spec_class_predict(spec_reward_learn(spec_reward_learn(Seq::empty(), c1, x), c2, y), c2) == Some(y),
{
    let e = Seq::<(ConditionLearnerView, usize)>::empty();
    let h1 = spec_from_condition(c1);
    let h2 = spec_from_condition(c2);
    lemma_from_condition_exact(c1, c1);
    lemma_from_condition_exact(c1, c2);
    lemma_from_condition_exact(c2, c1);
    lemma_from_condition_exact(c2, c2);
    // The first experience.
    let a = spec_learn(fresh_learner(), c1, true);
    assert(learn_all(e, c1, x) =~= e);
    assert(without_overlap(a, learn_all(e, c1, x)) == a);
    let r1 = spec_reward_learn(e, c1, x);
    assert(r1 =~= seq![(a, x)]);
    // The second experience.
    let a2 = spec_learn(a, c2, false);
    let learned = learn_all(r1, c2, y);
    assert(learned =~= seq![(a2, x)]);
    assert(!(exists|i: int| 0 <= i < r1.len() && (#[trigger] r1[i]).1 == y));
    let f0 = spec_learn(fresh_learner(), c2, true);
    assert(learned.drop_last() =~= e);
    let f = without_overlap(f0, learned);
    assert(without_overlap(f0, learned.drop_last()) == f0);
    assert(learned.last().0.best == Some(h1));
    assert(f == ConditionLearnerView { true_conditions: all_conditions().filter(unmatched_by(h1)), ..f0 });
    assert(!spec_matches(h2, h1)) by {
        if spec_matches(h2, h1) {
            assert forall|j: int| 0 <= j < 7 implies c1[j] == c2[j] by {
                assert(h2[j] == Require::Any || h1[j] == h2[j]);
            }
            assert(c1 =~= c2);
        }
    }
    assert(!spec_matches(h1, h2)) by {
        if spec_matches(h1, h2) {
            assert forall|j: int| 0 <= j < 7 implies c1[j] == c2[j] by {
                assert(h1[j] == Require::Any || h2[j] == h1[j]);
            }
            assert(c1 =~= c2);
        }
    }
    assert(!learners_overlap(f, learned[0].0));
    let r = spec_reward_learn(r1, c2, y);
    assert(r =~= seq![(a2, x), (f, y)]);
    // What each learner knows.
    lemma_filter_all_contains(unmatched_by(h1), c1);
    lemma_filter_all_contains(unmatched_by(h1), c2);
    lemma_filter_all_contains(unmatched_by(h2), c1);
    lemma_filter_all_contains(unmatched_by(h2), c2);
    lemma_filter_all_contains(differs_from(c2), c2);
    assert(spec_predict(a2, c1) == Some(true));
    assert(spec_predict(f, c1) == Some(false));
    assert(spec_predict(a2, c2) == Some(false));
    assert(spec_predict(f, c2) == Some(true));
    assert(predict_upto(r, c1, 0) == Some(None::<usize>));
    assert(predict_upto(r, c1, 1) == Some(Some(x)));
    assert(predict_upto(r, c1, 2) == Some(Some(x)));
    assert(predict_upto(r, c2, 0) == Some(None::<usize>));
    assert(predict_upto(r, c2, 1) == Some(None::<usize>));
    assert(predict_upto(r, c2, 2) == Some(Some(y)));
}

/// Once the prediction has stopped, later entries do not change it.
proof fn lemma_predict_stops(entries: Seq<(ConditionLearnerView, usize)>, c: Seq<bool>, k: int, m: int)
    requires
        0 <= k <= m,
        predict_upto(entries, c, k) is None,
    ensures
        predict_upto(entries, c, m) is None,
    decreases m - k,
{
    if k < m {
        lemma_predict_stops(entries, c, k, m - 1);
    }
}

} // verus!
