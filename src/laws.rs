//! Facts about every outcome of an assignment request.

use vstd::prelude::*;
use crate::group::{
    AssignError, Constraint, Group, forbids, first_unknown, givers, recipients, sure_pair,
    valid_assignment,
};

verus! {

/// With at least two participants and no constraints, a request either gives
/// up or returns one pair per participant, every participant once as giver
/// and once as recipient, and nobody giving to themselves. Two participants
/// with at least one attempt always get their assignment.
pub proof fn lemma_unconstrained_is_derangement(
    g: Group,
    r: Result<Vec<(String, String)>, AssignError>,
)
    requires
        g.wf(),
        g.people_view().len() >= 2,
        g.constraints_view().len() == 0,
        g.outcome(r),
    ensures
        r is Ok || r == Err::<Vec<(String, String)>, AssignError>(AssignError::GivingUp),
        r matches Ok(a) ==> {
            &&& a@.len() == g.people_view().len()
            &&& givers(a@).no_duplicates()
            &&& recipients(a@).no_duplicates()
            &&& forall|p: Seq<char>| #[trigger]
                g.people_view().contains(p) ==> givers(a@).contains(p) && recipients(
                    a@,
                ).contains(p)
            &&& forall|i: int| 0 <= i < a@.len() ==> #[trigger] givers(a@)[i] != recipients(a@)[i]
        },
        g.people_view().len() == 2 && g.attempts_view() >= 1 ==> r is Ok,
{
    assert(first_unknown(g.constraints_view(), g.people_view()) is None);
    if g.people_view().len() == 2 {
        assert(g.people_view()[0] != g.people_view()[1]);
        assert(sure_pair(g.people_view(), g.constraints_view()));
    }
}

/// With fewer than two participants a request fails at once with
/// `TooFewParticipants`, whatever the constraints and the number of attempts.
pub proof fn lemma_too_few_fails_at_once(g: Group, r: Result<Vec<(String, String)>, AssignError>)
    requires
        g.people_view().len() < 2,
        g.outcome(r),
    ensures
        r == Err::<Vec<(String, String)>, AssignError>(AssignError::TooFewParticipants),
{
}

/// A symmetric exclusion between `a` and `b` keeps both `(a, b)` and `(b, a)`
/// out of every valid assignment.
pub proof fn lemma_pair_never_drawn(
    people: Seq<Seq<char>>,
    cs: Seq<Constraint>,
    asg: Seq<(String, String)>,
    k: int,
    a: String,
    b: String,
)
    requires
        valid_assignment(people, cs, asg),
        0 <= k < cs.len(),
        cs[k] == (Constraint::ExcludePair { a, b }),
    ensures
        forall|i: int|
            0 <= i < asg.len() ==> !(#[trigger] givers(asg)[i] == a@ && recipients(asg)[i] == b@)
                && !(givers(asg)[i] == b@ && recipients(asg)[i] == a@),
{
    assert forall|i: int| 0 <= i < asg.len() implies !(#[trigger] givers(asg)[i] == a@
        && recipients(asg)[i] == b@) && !(givers(asg)[i] == b@ && recipients(asg)[i] == a@) by {
        assert(!forbids(cs[k], givers(asg)[i], recipients(asg)[i]));
    }
}

/// A directed exclusion keeps `(from, to)` out of every valid assignment, and
/// does not forbid the opposite direction.
pub proof fn lemma_directed_one_way(
    people: Seq<Seq<char>>,
    cs: Seq<Constraint>,
    asg: Seq<(String, String)>,
    k: int,
    from: String,
    to: String,
)
    requires
        valid_assignment(people, cs, asg),
        0 <= k < cs.len(),
        cs[k] == (Constraint::Exclude { from, to }),
    ensures
        forall|i: int|
            0 <= i < asg.len() ==> !(#[trigger] givers(asg)[i] == from@ && recipients(asg)[i]
                == to@),
        from@ != to@ ==> !forbids(cs[k], to@, from@),
{
    assert forall|i: int| 0 <= i < asg.len() implies !(#[trigger] givers(asg)[i] == from@
        && recipients(asg)[i] == to@) by {
        assert(!forbids(cs[k], givers(asg)[i], recipients(asg)[i]));
    }
}

/// A constraint naming a stranger is reported the same way, with the same
/// name, whatever number of attempts the group allows.
pub proof fn lemma_bad_constraint_ignores_attempts(
    g1: Group,
    g2: Group,
    r1: Result<Vec<(String, String)>, AssignError>,
    r2: Result<Vec<(String, String)>, AssignError>,
)
    requires
        g1.people_view() == g2.people_view(),
        g1.constraints_view() == g2.constraints_view(),
        g1.people_view().len() >= 2,
        first_unknown(g1.constraints_view(), g1.people_view()) is Some,
        g1.outcome(r1),
        g2.outcome(r2),
    ensures
        r1 matches Err(AssignError::BadConstraint(n1)) && r2 matches Err(
            AssignError::BadConstraint(n2),
        ) && n1@ == n2@,
{
}

/// Every assignment a request returns keeps clear of every edge that any of
/// the group's constraints forbids.
pub proof fn lemma_success_respects_constraints(
    g: Group,
    r: Result<Vec<(String, String)>, AssignError>,
)
    requires
        g.outcome(r),
    ensures
        r matches Ok(a) ==> forall|i: int, k: int|
            0 <= i < a@.len() && 0 <= k < g.constraints_view().len() ==> !forbids(
                #[trigger] g.constraints_view()[k],
                #[trigger] givers(a@)[i],
                recipients(a@)[i],
            ),
{
}

} // verus!
