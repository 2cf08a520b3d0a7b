use vstd::prelude::*;

use crate::doormax::condition::Condition;
use crate::text::push_char;

verus! {

/// What a hypothesis asks of one term: nothing, that it holds, or that it does not.
#[derive(Debug, Clone, Copy, PartialEq, Eq, Structural)]
pub enum Require {
    Any,
    True,
    False,
}

impl Default for Require {
    fn default() -> (r: Self)
        ensures
            r == Require::Any,
    {
        Require::Any
    }
}

impl From<bool> for Require {
    fn from(val: bool) -> (r: Self) {
        if val {
            Require::True
        } else {
            Require::False
        }
    }
}

impl vstd::std_specs::convert::FromSpecImpl<bool> for Require {
    open spec fn obeys_from_spec() -> bool {
        true
    }

    open spec fn from_spec(val: bool) -> Require {
        if val {
            Require::True
        } else {
            Require::False
        }
    }
}

/// A set of conditions, given by what it requires of each term.
#[derive(Debug, Clone, Copy)]
pub struct Hypothesis(pub [Require; 7]);

/// A requirement holds of a term's value.
pub open spec fn req_holds(r: Require, b: bool) -> bool {
    match r {
        Require::Any => true,
        Require::True => b,
        Require::False => !b,
    }
}

/// The hypothesis holds of the condition: every term meets its requirement.
pub open spec fn spec_matches_cond(h: Seq<Require>, c: Seq<bool>) -> bool {
    forall|j: int| 0 <= j < 7 ==> #[trigger] req_holds(h[j], c[j])
}

/// `h` is at least as general as `other`: where `h` requires something, `other`
/// requires the same.
pub open spec fn spec_matches(h: Seq<Require>, other: Seq<Require>) -> bool {
    forall|j: int| 0 <= j < 7 ==> #[trigger] h[j] == Require::Any || other[j] == h[j]
}

/// The most specific generalisation of `h` that also holds of `c`: requirements that
/// `c` breaks are dropped.
pub open spec fn spec_combine(h: Seq<Require>, c: Seq<bool>) -> Seq<Require> {
    Seq::new(7, |j: int| if req_holds(h[j], c[j]) { h[j] } else { Require::Any })
}

/// The hypothesis that holds of `c` alone.
pub open spec fn spec_from_condition(c: Seq<bool>) -> Seq<Require> {
    Seq::new(7, |j: int| if c[j] { Require::True } else { Require::False })
}

fn holds(r: Require, b: bool) -> (ok: bool)
    ensures
        ok == req_holds(r, b),
{
    match r {
        Require::Any => true,
        Require::True => b,
        Require::False => !b,
    }
}

impl Hypothesis {
    /// Drops the requirements that `cond` breaks.
    pub fn combine_cond(&self, cond: &Condition) -> (h: Hypothesis)
        ensures
            h.0@ == spec_combine(self.0@, cond.0@),
    {
        let mut result = self.0;
        let mut j: usize = 0;
        while j < 7
            invariant
                j <= 7,
                forall|i: int| 0 <= i < j ==> result@[i] == spec_combine(self.0@, cond.0@)[i],
                forall|i: int| j <= i < 7 ==> result@[i] == self.0@[i],
            decreases 7 - j,
        {
            if !holds(self.0[j], cond.0[j]) {
                result[j] = Require::Any;
            }
            j = j + 1;
        }
        assert(result@ =~= spec_combine(self.0@, cond.0@));
        Hypothesis(result)
    }

    /// Whether this hypothesis is at least as general as `other`.
    pub fn matches(&self, other: &Hypothesis) -> (b: bool)
        ensures
            b == spec_matches(self.0@, other.0@),
    {
        let mut j: usize = 0;
        while j < 7
            invariant
                j <= 7,
                forall|i: int|
                    0 <= i < j ==> #[trigger] self.0@[i] == Require::Any || other.0@[i] == self.0@[i],
            decreases 7 - j,
        {
            if !(self.0[j] == Require::Any || other.0[j] == self.0[j]) {
                return false;
            }
            j = j + 1;
        }
        true
    }

    /// Whether the hypothesis holds of `cond`.
    pub fn matches_cond(&self, cond: &Condition) -> (b: bool)
        ensures
            b == spec_matches_cond(self.0@, cond.0@),
    {
        let mut j: usize = 0;
        while j < 7
            invariant
                j <= 7,
                forall|i: int| 0 <= i < j ==> #[trigger] req_holds(self.0@[i], cond.0@[i]),
            decreases 7 - j,
        {
            if !holds(self.0[j], cond.0[j]) {
                return false;
            }
            j = j + 1;
        }
        true
    }
}

impl From<Condition> for Hypothesis {
    fn from(cond: Condition) -> (h: Self) {
        let c = cond.0;
        Hypothesis(
            [
                Require::from(c[0]),
                Require::from(c[1]),
                Require::from(c[2]),
                Require::from(c[3]),
                Require::from(c[4]),
                Require::from(c[5]),
                Require::from(c[6]),
            ],
        )
    }
}

impl vstd::std_specs::convert::FromSpecImpl<Condition> for Hypothesis {
    open spec fn obeys_from_spec() -> bool {
        true
    }

    open spec fn from_spec(cond: Condition) -> Hypothesis {
        Hypothesis(
            [
                if cond.0[0] { Require::True } else { Require::False },
                if cond.0[1] { Require::True } else { Require::False },
                if cond.0[2] { Require::True } else { Require::False },
                if cond.0[3] { Require::True } else { Require::False },
                if cond.0[4] { Require::True } else { Require::False },
                if cond.0[5] { Require::True } else { Require::False },
                if cond.0[6] { Require::True } else { Require::False },
            ],
        )
    }
}

/// The character of a requirement: `*` for none, `1` for holds, `0` for does not.
pub open spec fn require_char(r: Require) -> char {
    match r {
        Require::Any => '*',
        Require::True => '1',
        Require::False => '0',
    }
}

/// A hypothesis written as a condition is, one character per requirement.
pub open spec fn hypothesis_text(h: Seq<Require>) -> Seq<char> {
    "Condition("@ + seq![require_char(h[0]), require_char(h[1]), require_char(h[2]), require_char(h[3]), ' ']
        + seq![require_char(h[4]), require_char(h[5]), require_char(h[6])] + ")"@
}

fn show_require(r: Require) -> (c: char)
    ensures
        c == require_char(r),
{
    match r {
        Require::Any => '*',
        Require::True => '1',
        Require::False => '0',
    }
}

impl Hypothesis {
    /// The hypothesis written as `Condition(nsew pdh)`, `*` where it requires nothing.
    pub fn to_string(&self) -> (s: String)
        ensures
            s@ == hypothesis_text(self.0@),
    {
        let h = &self.0;
        let mut s = String::new();
        s.append("Condition(");
        push_char(&mut s, show_require(h[0]));
        push_char(&mut s, show_require(h[1]));
        push_char(&mut s, show_require(h[2]));
        push_char(&mut s, show_require(h[3]));
        push_char(&mut s, ' ');
        push_char(&mut s, show_require(h[4]));
        push_char(&mut s, show_require(h[5]));
        push_char(&mut s, show_require(h[6]));
        s.append(")");
        assert(s@ =~= hypothesis_text(self.0@));
        s
    }
}

/// The hypothesis of a condition, built by `From`.
pub fn hypothesis_of(cond: Condition) -> (h: Hypothesis)
    ensures
        h.0@ == spec_from_condition(cond.0@),
{
    let h = Hypothesis::from(cond);
    assert(h.0@ =~= spec_from_condition(cond.0@));
    h
}

/// The hypothesis of a condition holds of exactly that condition.
pub proof fn lemma_from_condition_exact(c: Seq<bool>, d: Seq<bool>)
    requires
        c.len() == 7,
        d.len() == 7,
    ensures
        spec_matches_cond(spec_from_condition(c), d) <==> c == d,
{
    if spec_matches_cond(spec_from_condition(c), d) {
        assert forall|j: int| 0 <= j < 7 implies c[j] == d[j] by {
            assert(req_holds(spec_from_condition(c)[j], d[j]));
        }
        assert(c =~= d);
    }
}

/// After combining with a condition, the hypothesis holds of it, and still holds of
/// every condition it held of before.
pub proof fn lemma_combine_generalises(h: Seq<Require>, c: Seq<bool>, d: Seq<bool>)
    requires
        h.len() == 7,
    ensures
        spec_matches_cond(spec_combine(h, c), c),
        spec_matches_cond(h, d) ==> spec_matches_cond(spec_combine(h, c), d),
        spec_matches(spec_combine(h, c), h),
{
    assert forall|j: int| 0 <= j < 7 implies #[trigger] req_holds(spec_combine(h, c)[j], c[j]) by {}
    if spec_matches_cond(h, d) {
        assert forall|j: int| 0 <= j < 7 implies #[trigger] req_holds(spec_combine(h, c)[j], d[j]) by {
            assert(req_holds(h[j], d[j]));
        }
    }
}

/// Generality is a preorder.
pub proof fn lemma_matches_preorder(a: Seq<Require>, b: Seq<Require>, c: Seq<Require>)
    ensures
        spec_matches(a, a),
        spec_matches(a, b) && spec_matches(b, c) ==> spec_matches(a, c),
{
    if spec_matches(a, b) && spec_matches(b, c) {
        assert forall|j: int| 0 <= j < 7 implies #[trigger] a[j] == Require::Any || c[j] == a[j] by {
            assert(a[j] == Require::Any || b[j] == a[j]);
            assert(b[j] == Require::Any || c[j] == b[j]);
        }
    }
}

/// A more general hypothesis holds of every condition a more specific one holds of.
pub proof fn lemma_matches_transfers(general: Seq<Require>, specific: Seq<Require>, c: Seq<bool>)
    requires
        spec_matches(general, specific),
        spec_matches_cond(specific, c),
    ensures
        spec_matches_cond(general, c),
{
    assert forall|j: int| 0 <= j < 7 implies #[trigger] req_holds(general[j], c[j]) by {
        assert(general[j] == Require::Any || specific[j] == general[j]);
        assert(req_holds(specific[j], c[j]));
    }
}

} // verus!
