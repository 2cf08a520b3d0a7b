use taxi::doormax::condition::Condition;
use taxi::doormax::hypothesis::{Hypothesis, Require};

#[test]
fn hypothesis_matches() {
    let hyp_a = Hypothesis([Require::True, Require::True, Require::True, Require::True, Require::True, Require::True, Require::True]);

    let hyp_b = Hypothesis([Require::False, Require::False, Require::False, Require::False, Require::False, Require::False, Require::False]);

    let hyp_c = Hypothesis([Require::True, Require::Any, Require::Any, Require::Any, Require::Any, Require::Any, Require::Any]);

    let hyp_d = Hypothesis([Require::True, Require::False, Require::Any, Require::Any, Require::Any, Require::Any, Require::Any]);

    let hyp_e = Hypothesis([Require::True, Require::False, Require::True, Require::True, Require::True, Require::True, Require::True]);

    assert!(hyp_a.matches(&hyp_a));
    assert!(!hyp_a.matches(&hyp_b));
    assert!(!hyp_a.matches(&hyp_c));
    assert!(!hyp_a.matches(&hyp_d));
    assert!(!hyp_a.matches(&hyp_e));

    assert!(!hyp_b.matches(&hyp_a));
    assert!(hyp_b.matches(&hyp_b));
    assert!(!hyp_b.matches(&hyp_c));
    assert!(!hyp_b.matches(&hyp_d));
    assert!(!hyp_b.matches(&hyp_e));

    assert!(hyp_c.matches(&hyp_a));
    assert!(!hyp_c.matches(&hyp_b));
    assert!(hyp_c.matches(&hyp_c));
    assert!(hyp_c.matches(&hyp_d));
    assert!(hyp_c.matches(&hyp_e));

    assert!(!hyp_d.matches(&hyp_a));
    assert!(!hyp_d.matches(&hyp_b));
    assert!(!hyp_d.matches(&hyp_c));
    assert!(hyp_d.matches(&hyp_d));
    assert!(hyp_d.matches(&hyp_e));

    assert!(!hyp_e.matches(&hyp_a));
    assert!(!hyp_e.matches(&hyp_b));
    assert!(!hyp_e.matches(&hyp_c));
    assert!(!hyp_e.matches(&hyp_d));
    assert!(hyp_e.matches(&hyp_e));
}

#[test]
fn hypothesis_matches_cond() {
    let hyp_a = Hypothesis([Require::True, Require::Any, Require::Any, Require::Any, Require::Any, Require::Any, Require::Any]);

    let hyp_b = Hypothesis([Require::True, Require::False, Require::Any, Require::Any, Require::Any, Require::Any, Require::Any]);

    let hyp_c = Hypothesis([Require::True, Require::False, Require::True, Require::True, Require::True, Require::True, Require::True]);

    let cond_a = Condition([true, false, false, false, false, false, false]);

    let cond_b = Condition([true, false, false, false, false, false, true]);

    let cond_c = Condition([false, false, false, false, false, false, false]);

    assert!(hyp_a.matches_cond(&cond_a));
    assert!(hyp_a.matches_cond(&cond_b));
    assert!(!hyp_a.matches_cond(&cond_c));

    assert!(hyp_b.matches_cond(&cond_a));
    assert!(hyp_b.matches_cond(&cond_b));
    assert!(!hyp_b.matches_cond(&cond_c));

    assert!(!hyp_c.matches_cond(&cond_a));
    assert!(!hyp_c.matches_cond(&cond_b));
    assert!(!hyp_c.matches_cond(&cond_c));
}
