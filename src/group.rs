//! A group of participants, the exclusions between them, and the randomized
//! draw-with-retry that assigns each participant a recipient.

use vstd::prelude::*;
use crate::matrix::{Matrix, column_set, names, pos, lemma_pos};
use crate::random::{entropy_rng, shuffle_names, pick_one};
use rand::rngs::StdRng;

verus! {

/// A forbidden giver/recipient edge.
#[derive(Debug, Clone)]
pub enum Constraint {
    /// Neither `a` gives to `b` nor `b` to `a`.
    ExcludePair { a: String, b: String },
    /// `from` does not give to `to`; the other direction stays allowed.
    Exclude { from: String, to: String },
}

#[derive(Debug, Clone, PartialEq, Eq)]
pub enum AssignError {
    /// A constraint names someone who is not in the group; holds that name.
    BadConstraint(String),
    /// Every attempt ran into a dead end.
    GivingUp,
    /// Fewer than two participants: no assignment can exist.
    TooFewParticipants,
}

/// The two names a constraint mentions, in the order they are checked.
pub open spec fn ends(c: Constraint) -> (Seq<char>, Seq<char>) {
    match c {
        Constraint::ExcludePair { a, b } => (a@, b@),
        Constraint::Exclude { from, to } => (from@, to@),
    }
}

/// Whether `c` forbids `x` giving to `y`.
pub open spec fn forbids(c: Constraint, x: Seq<char>, y: Seq<char>) -> bool {
    match c {
        Constraint::ExcludePair { a, b } => (x == a@ && y == b@) || (x == b@ && y == a@),
        Constraint::Exclude { from, to } => x == from@ && y == to@,
    }
}

/// Whether `x` may give to `y`: they differ and no constraint forbids it.
pub open spec fn permitted(cs: Seq<Constraint>, x: Seq<char>, y: Seq<char>) -> bool {
    x != y && forall|k: int| 0 <= k < cs.len() ==> !forbids(#[trigger] cs[k], x, y)
}

/// The first name, scanning the constraints in order, that is not among
/// `people`.
pub open spec fn first_unknown(cs: Seq<Constraint>, people: Seq<Seq<char>>) -> Option<Seq<char>>
    decreases cs.len(),
{
    if cs.len() == 0 {
        None
    } else if !people.contains(ends(cs[0]).0) {
        Some(ends(cs[0]).0)
    } else if !people.contains(ends(cs[0]).1) {
        Some(ends(cs[0]).1)
    } else {
        first_unknown(cs.drop_first(), people)
    }
}

pub open spec fn givers(a: Seq<(String, String)>) -> Seq<Seq<char>> {
    a.map_values(|p: (String, String)| p.0@)
}

pub open spec fn recipients(a: Seq<(String, String)>) -> Seq<Seq<char>> {
    a.map_values(|p: (String, String)| p.1@)
}

/// `a` pairs every one of `people` exactly once as giver and exactly once as
/// recipient, and every pair is permitted by `cs`.
pub open spec fn valid_assignment(
    people: Seq<Seq<char>>,
    cs: Seq<Constraint>,
    a: Seq<(String, String)>,
) -> bool {
    &&& a.len() == people.len()
    &&& givers(a).no_duplicates()
    &&& recipients(a).no_duplicates()
    &&& forall|p: Seq<char>| #[trigger] people.contains(p) ==> givers(a).contains(p)
    &&& forall|p: Seq<char>| #[trigger] people.contains(p) ==> recipients(a).contains(p)
    &&& forall|i: int| 0 <= i < a.len() ==> people.contains(#[trigger] givers(a)[i])
    &&& forall|i: int| 0 <= i < a.len() ==> people.contains(#[trigger] recipients(a)[i])
    &&& forall|i: int| 0 <= i < a.len() ==> permitted(cs, #[trigger] givers(a)[i], recipients(a)[i])
}

/// Two people, each permitted to give to the other: then every draw has
/// exactly one name to pick, and every attempt succeeds.
pub open spec fn sure_pair(people: Seq<Seq<char>>, cs: Seq<Constraint>) -> bool {
    &&& people.len() == 2
    &&& permitted(cs, people[0], people[1])
    &&& permitted(cs, people[1], people[0])
}

/// Takes the outcome of one draw for `giver`: on `None` (nobody left to
/// draw) changes nothing and returns false; on `Some(c)` records the pair
/// `(giver, c)` and clears the column of `c`, so nobody else draws `c`.
pub fn take_draw(
    m: &mut Matrix,
    out: &mut Vec<(String, String)>,
    giver: &String,
    drawn: Option<String>,
) -> (r: bool)
    requires
        old(m).wf(),
        drawn matches Some(c) ==> old(m).has_key(c@),
    ensures
        r == drawn is Some,
        drawn is None ==> *final(m) == *old(m) && *final(out) == *old(out),
        drawn matches Some(c) ==> {
            &&& final(out)@ == old(out)@.push((*giver, c))
            &&& final(m).wf()
            &&& final(m).keys_view() == old(m).keys_view()
            &&& column_set(old(m).grid(), final(m).grid(), pos(old(m).keys_view(), c@), false)
        },
{
    match drawn {
        None => false,
        Some(c) => {
            m.set_col(c.as_str(), false);
            out.push((giver.clone(), c));
            true
        },
    }
}

/// A distinct sequence of names drawn from `ks`, as long as `ks`, holds all
/// of `ks`.
proof fn lemma_covers(r: Seq<Seq<char>>, ks: Seq<Seq<char>>)
    requires
        r.no_duplicates(),
        ks.no_duplicates(),
        r.len() == ks.len(),
        forall|i: int| 0 <= i < r.len() ==> ks.contains(#[trigger] r[i]),
    ensures
        forall|p: Seq<char>| #[trigger] ks.contains(p) ==> r.contains(p),
{
    r.unique_seq_to_set();
    ks.unique_seq_to_set();
    assert(r.to_set().subset_of(ks.to_set()));
    vstd::set_lib::lemma_subset_equality(r.to_set(), ks.to_set());
    assert forall|p: Seq<char>| #[trigger] ks.contains(p) implies r.contains(p) by {
        assert(ks.to_set().contains(p));
    }
}

/// A shuffle of distinct names holds the same names, still distinct.
proof fn lemma_shuffled(order: Seq<String>, people: Seq<String>)
    requires
        names(people).no_duplicates(),
        order.to_multiset() == people.to_multiset(),
    ensures
        order.len() == people.len(),
        names(order).no_duplicates(),
        forall|p: Seq<char>| #[trigger] names(people).contains(p) ==> names(order).contains(p),
        forall|i: int| 0 <= i < order.len() ==> names(people).contains(#[trigger] names(order)[i]),
{
    broadcast use vstd::seq_lib::group_to_multiset_ensures;

    assert(people.no_duplicates()) by {
        assert forall|i: int, j: int|
            0 <= i < people.len() && 0 <= j < people.len() && i != j implies people[i]
            != people[j] by {
            assert(names(people)[i] != names(people)[j]);
        }
    }
    order.to_multiset_ensures();
    people.to_multiset_ensures();
    people.lemma_multiset_has_no_duplicates();
    order.lemma_multiset_has_no_duplicates_conv();
    assert forall|x: String| order.contains(x) <==> people.contains(x) by {
        assert(order.to_multiset().count(x) == people.to_multiset().count(x));
        assert(order.contains(x) <==> order.to_multiset().count(x) > 0);
        assert(people.contains(x) <==> people.to_multiset().count(x) > 0);
    }
    assert forall|i: int| 0 <= i < order.len() implies names(people).contains(
        #[trigger] names(order)[i],
    ) by {
        assert(order.contains(order[i]));
        assert(people.contains(order[i]));
        let j = choose|j: int| 0 <= j < people.len() && people[j] == order[i];
        assert(names(people)[j] == names(order)[i]);
    }
    assert forall|p: Seq<char>| #[trigger] names(people).contains(p) implies names(
        order,
    ).contains(p) by {
        let j = choose|j: int| 0 <= j < people.len() && names(people)[j] == p;
        assert(people.contains(people[j]));
        assert(order.contains(people[j]));
        let i = choose|i: int| 0 <= i < order.len() && order[i] == people[j];
        assert(names(order)[i] == p);
    }
    assert forall|i: int, j: int|
        0 <= i < order.len() && 0 <= j < order.len() && i != j implies names(order)[i] != names(
        order,
    )[j] by {
        assert(order.contains(order[i]));
        assert(order.contains(order[j]));
        assert(people.contains(order[i]));
        assert(people.contains(order[j]));
        let a = choose|a: int| 0 <= a < people.len() && people[a] == order[i];
        let b = choose|b: int| 0 <= b < people.len() && people[b] == order[j];
        assert(names(people)[a] == names(order)[i]);
        assert(names(people)[b] == names(order)[j]);
    }
}

/// A set of participants and an ordered list of exclusions between them.
#[derive(Debug, Clone)]
pub struct Group {
    people: Vec<String>,
    constraints: Vec<Constraint>,
    max_attempts: u32,
}

impl Group {
    /// The participants, in the order they were first added.
    pub closed spec fn people_view(&self) -> Seq<Seq<char>> {
        names(self.people@)
    }

    pub closed spec fn constraints_view(&self) -> Seq<Constraint> {
        self.constraints@
    }

    pub closed spec fn attempts_view(&self) -> nat {
        self.max_attempts as nat
    }

    pub open spec fn wf(&self) -> bool {
        self.people_view().no_duplicates()
    }

    /// What an assignment request on this group may return: the size check
    /// first, then the constraints, then a valid assignment or a give-up;
    /// never a give-up for two people free to give to each other.
    pub open spec fn outcome(&self, r: Result<Vec<(String, String)>, AssignError>) -> bool {
        let people = self.people_view();
        let cs = self.constraints_view();
        &&& r == Err::<Vec<(String, String)>, AssignError>(AssignError::TooFewParticipants)
            <==> people.len() < 2
        &&& r is Err && r->Err_0 is BadConstraint <==> people.len() >= 2 && first_unknown(
            cs,
            people,
        ) is Some
        &&& r matches Err(AssignError::BadConstraint(n)) ==> first_unknown(cs, people) == Some(
            n@,
        )
        &&& r matches Ok(a) ==> valid_assignment(people, cs, a@)
        &&& r matches Err(AssignError::GivingUp) ==> people.len() >= 2 && first_unknown(
            cs,
            people,
        ) is None
        &&& self.attempts_view() == 0 && people.len() >= 2 && first_unknown(cs, people) is None
            ==> r == Err::<Vec<(String, String)>, AssignError>(AssignError::GivingUp)
        &&& self.attempts_view() >= 1 && sure_pair(people, cs) && first_unknown(cs, people) is None
            ==> r is Ok
    }

    /// An empty group that makes up to a thousand attempts.
    pub fn new() -> (r: Self)
        ensures
            r.wf(),
            r.people_view() == Seq::<Seq<char>>::empty(),
            r.constraints_view() == Seq::<Constraint>::empty(),
            r.attempts_view() == 1000,
    {
        let r = Group { people: Vec::new(), constraints: Vec::new(), max_attempts: 1000 };
        assert(r.people_view() =~= Seq::<Seq<char>>::empty());
        r
    }

    /// Adds a participant; adding one already there changes nothing.
    pub fn add(&mut self, name: String)
        requires
            old(self).wf(),
        ensures
            final(self).wf(),
            final(self).people_view() == if old(self).people_view().contains(name@) {
                old(self).people_view()
            } else {
                old(self).people_view().push(name@)
            },
            final(self).constraints_view() == old(self).constraints_view(),
            final(self).attempts_view() == old(self).attempts_view(),
    {
        if !self.contains_name(name.as_str()) {
            let ghost before = self.people@;
            self.people.push(name);
            assert(names(self.people@) =~= names(before).push(name@));
        }
    }

    fn add_constraint(&mut self, constraint: Constraint)
        ensures
            final(self).people_view() == old(self).people_view(),
            final(self).constraints_view() == old(self).constraints_view().push(constraint),
            final(self).attempts_view() == old(self).attempts_view(),
    {
        self.constraints.push(constraint);
    }

    /// Forbids `from` giving to `to`.
    pub fn exclude(&mut self, from: String, to: String)
        ensures
            final(self).people_view() == old(self).people_view(),
            final(self).constraints_view() == old(self).constraints_view().push(
                Constraint::Exclude { from, to },
            ),
            final(self).attempts_view() == old(self).attempts_view(),
    {
        let constraint = Constraint::Exclude { from: from, to: to };
        self.add_constraint(constraint);
    }

    /// Forbids `a` and `b` giving to each other.
    pub fn exclude_pair(&mut self, a: String, b: String)
        ensures
            final(self).people_view() == old(self).people_view(),
            final(self).constraints_view() == old(self).constraints_view().push(
                Constraint::ExcludePair { a, b },
            ),
            final(self).attempts_view() == old(self).attempts_view(),
    {
        let constraint = Constraint::ExcludePair { a: a, b: b };
        self.add_constraint(constraint);
    }

    /// Sets how many attempts an assignment may make before giving up.
    pub fn set_max_attempts(&mut self, n: u32)
        ensures
            final(self).people_view() == old(self).people_view(),
            final(self).constraints_view() == old(self).constraints_view(),
            final(self).attempts_view() == n,
    {
        self.max_attempts = n;
    }

    /// Whether `name` is a participant.
    pub fn contains_name(&self, name: &str) -> (r: bool)
        ensures
            r == self.people_view().contains(name@),
    {
        let wanted = name.to_owned();
        let mut i: usize = 0;
        while i < self.people.len()
            invariant
                wanted@ == name@,
                i <= self.people@.len(),
                forall|a: int| 0 <= a < i ==> self.people_view()[a] != name@,
            decreases self.people@.len() - i,
        {
            if self.people[i] == wanted {
                assert(self.people_view()[i as int] == name@);
                return true;
            }
            i = i + 1;
        }
        false
    }

    /// The first name that a constraint mentions and the group lacks.
    fn find_unknown(&self) -> (r: Option<String>)
        ensures
            r is None <==> first_unknown(self.constraints_view(), self.people_view()) is None,
            r matches Some(n) ==> first_unknown(self.constraints_view(), self.people_view())
                == Some(n@),
    {
        let ghost cs = self.constraints_view();
        let ghost people = self.people_view();
        let mut k: usize = 0;
        assert(cs.subrange(0, cs.len() as int) =~= cs);
        while k < self.constraints.len()
            invariant
                cs == self.constraints@,
                people == self.people_view(),
                k <= cs.len(),
                first_unknown(cs, people) == first_unknown(cs.subrange(k as int, cs.len() as int), people),
            decreases cs.len() - k,
        {
            let ghost rest = cs.subrange(k as int, cs.len() as int);
            assert(rest.drop_first() =~= cs.subrange(k + 1, cs.len() as int));
            assert(rest[0] == cs[k as int]);
            let (x, y) = match &self.constraints[k] {
                Constraint::ExcludePair { a, b } => (a, b),
                Constraint::Exclude { from, to } => (from, to),
            };
            if !self.contains_name(x.as_str()) {
                return Some(x.clone());
            }
            if !self.contains_name(y.as_str()) {
                return Some(y.clone());
            }
            k = k + 1;
        }
        assert(cs.subrange(k as int, cs.len() as int).len() == 0);
        None
    }

    /// Clears in `m` every edge that a constraint forbids.
    fn apply_constraints(&self, m: &mut Matrix)
        requires
            old(m).wf(),
            old(m).keys_view() == self.people_view(),
            first_unknown(self.constraints_view(), self.people_view()) is None,
            forall|i: int, j: int|
                0 <= i < self.people_view().len() && 0 <= j < self.people_view().len()
                    ==> #[trigger] old(m).grid()[i][j] == (i != j),
        ensures
            final(m).wf(),
            final(m).keys_view() == self.people_view(),
            forall|i: int, j: int|
                0 <= i < self.people_view().len() && 0 <= j < self.people_view().len()
                    ==> #[trigger] final(m).grid()[i][j] == permitted(
                    self.constraints_view(),
                    self.people_view()[i],
                    self.people_view()[j],
                ),
    {
        let ghost cs = self.constraints_view();
        let ghost ks = self.people_view();
        let ghost n = ks.len();
        let mut k: usize = 0;
        assert(cs.subrange(0, cs.len() as int) =~= cs);
        while k < self.constraints.len()
            invariant
                cs == self.constraints@,
                ks == self.people_view(),
                n == ks.len(),
                m.wf(),
                m.keys_view() == ks,
                k <= cs.len(),
                first_unknown(cs.subrange(k as int, cs.len() as int), ks) is None,
                forall|i: int, j: int|
                    0 <= i < n && 0 <= j < n ==> #[trigger] m.grid()[i][j] == (i != j && forall|
                        t: int,
                    | 0 <= t < k ==> !forbids(#[trigger] cs[t], ks[i], ks[j])),
            decreases cs.len() - k,
        {
            let ghost rest = cs.subrange(k as int, cs.len() as int);
            assert(rest.drop_first() =~= cs.subrange(k + 1, cs.len() as int));
            assert(rest[0] == cs[k as int]);
            match &self.constraints[k] {
                Constraint::ExcludePair { a, b } => {
                    m.set(a.as_str(), b.as_str(), false);
                    m.set(b.as_str(), a.as_str(), false);
                },
                Constraint::Exclude { from, to } => {
                    m.set(from.as_str(), to.as_str(), false);
                },
            }
            proof {
                let (x, y) = ends(cs[k as int]);
                let px = pos(ks, x);
                let py = pos(ks, y);
                assert(ks[px] == x && ks[py] == y);
                assert forall|i: int, j: int| 0 <= i < n && 0 <= j < n implies #[trigger] m.grid()[i][j]
                    == (i != j && forall|t: int| 0 <= t < k + 1 ==> !forbids(#[trigger] cs[t], ks[i], ks[j])) by {
                    lemma_pos(ks, i);
                    lemma_pos(ks, j);
                    if forbids(cs[k as int], ks[i], ks[j]) {
                        assert(!(forall|t: int| 0 <= t < k + 1 ==> !forbids(#[trigger] cs[t], ks[i], ks[j])));
                    } else {
                        assert((forall|t: int| 0 <= t < k + 1 ==> !forbids(#[trigger] cs[t], ks[i], ks[j]))
                            == (forall|t: int| 0 <= t < k ==> !forbids(#[trigger] cs[t], ks[i], ks[j])));
                    }
                }
            }
            k = k + 1;
        }
        assert forall|i: int, j: int|
            0 <= i < n && 0 <= j < n implies #[trigger] m.grid()[i][j] == permitted(cs, ks[i], ks[j]) by {
            lemma_pos(ks, i);
            lemma_pos(ks, j);
        }
    }

    /// One attempt on a fresh matrix: draws a recipient for each name of
    /// `order` in turn, among those still eligible, and gives up at the first
    /// one with nobody left to draw. `order` is an ordering of the group.
    pub fn attempt(&self, order: &Vec<String>, rng: &mut StdRng) -> (r: Option<Vec<(String, String)>>)
        requires
            self.wf(),
            first_unknown(self.constraints_view(), self.people_view()) is None,
            order@.len() == self.people_view().len(),
            names(order@).no_duplicates(),
            forall|p: Seq<char>| #[trigger] self.people_view().contains(p) ==> names(order@).contains(p),
            forall|i: int| 0 <= i < order@.len() ==> self.people_view().contains(#[trigger] names(order@)[i]),
        ensures
            r matches Some(a) ==> valid_assignment(self.people_view(), self.constraints_view(), a@)
                && givers(a@) == names(order@),
            sure_pair(self.people_view(), self.constraints_view()) ==> r is Some,
    {
        let ghost cs = self.constraints_view();
        let ghost ks = self.people_view();
        let ghost n = ks.len();
        let mut m = Matrix::new(self.people.clone());
        self.apply_constraints(&mut m);
        let mut out: Vec<(String, String)> = Vec::new();
        assert(recipients(out@) =~= Seq::<Seq<char>>::empty());
        let mut k: usize = 0;
        while k < order.len()
            invariant
                cs == self.constraints_view(),
                ks == self.people_view(),
                n == ks.len(),
                n == order@.len(),
                ks.no_duplicates(),
                names(order@).no_duplicates(),
                forall|p: Seq<char>| #[trigger] ks.contains(p) ==> names(order@).contains(p),
                forall|i: int| 0 <= i < n ==> ks.contains(#[trigger] names(order@)[i]),
                m.wf(),
                m.keys_view() == ks,
                k <= n,
                out@.len() == k,
                forall|t: int| 0 <= t < k ==> #[trigger] givers(out@)[t] == names(order@)[t],
                forall|t: int| 0 <= t < k ==> ks.contains(#[trigger] recipients(out@)[t]),
                forall|t: int| 0 <= t < k ==> permitted(cs, #[trigger] givers(out@)[t], recipients(out@)[t]),
                recipients(out@).no_duplicates(),
                forall|i: int, j: int|
                    0 <= i < n && 0 <= j < n ==> #[trigger] m.grid()[i][j] == (permitted(cs, ks[i], ks[j])
                        && !recipients(out@).contains(ks[j])),
            decreases n - k,
        {
            let giver = &order[k];
            assert(names(order@)[k as int] == giver@);
            assert(ks.contains(giver@));
            let ghost ix = pos(ks, giver@);
            proof {
                lemma_pos(ks, ix);
            }
            let basket = m.eligible(giver.as_str());
            proof {
                if sure_pair(ks, cs) {
                    let jw: int = if k == 0 {
                        1 - ix
                    } else {
                        pos(ks, names(order@)[0])
                    };
                    if k == 0 {
                        assert(!recipients(out@).contains(ks[jw]));
                    } else {
                        assert(ks.contains(names(order@)[0]));
                        assert(ks[jw] == names(order@)[0]);
                        assert(givers(out@)[0] == names(order@)[0]);
                        assert(names(order@)[0] != names(order@)[1]);
                        assert(permitted(cs, givers(out@)[0], recipients(out@)[0]));
                        assert(!recipients(out@).contains(ks[jw]));
                    }
                    assert(m.grid()[ix][jw]);
                }
            }
            let drawn = pick_one(&basket, rng);
            let ghost d = drawn;
            let ghost g = m.grid();
            let ghost before = out@;
            proof {
                if d is Some {
                    let c = d->Some_0;
                    let mi = choose|mi: int| 0 <= mi < basket@.len() && basket@[mi] == c;
                    assert(m.has_key(basket@[mi]@));
                }
            }
            if !take_draw(&mut m, &mut out, giver, drawn) {
                return None;
            }
            proof {
                let c = d->Some_0;
                let jc = pos(ks, c@);
                let mi = choose|mi: int| 0 <= mi < basket@.len() && basket@[mi] == c;
                assert(0 <= jc < n && ks[jc] == c@);
                assert(g[ix][jc]);
                assert(givers(out@) =~= givers(before).push(giver@));
                assert(recipients(out@) =~= recipients(before).push(ks[jc]));
                assert forall|i: int, j: int| 0 <= i < n && 0 <= j < n implies #[trigger] m.grid()[i][j]
                    == (permitted(cs, ks[i], ks[j]) && !recipients(out@).contains(ks[j])) by {
                    if recipients(out@).contains(ks[j]) {
                        let t = choose|t: int| 0 <= t < out@.len() && recipients(out@)[t] == ks[j];
                        if t < before.len() {
                            assert(recipients(before)[t] == ks[j]);
                        } else {
                            assert(ks[j] == ks[jc]);
                        }
                    } else if j == jc {
                        assert(recipients(out@)[k as int] == ks[j]);
                    } else if recipients(before).contains(ks[j]) {
                        let t = choose|t: int| 0 <= t < before.len() && recipients(before)[t] == ks[j];
                        assert(recipients(out@)[t] == ks[j]);
                    }
                }
            }
            k = k + 1;
        }
        proof {
            assert(givers(out@) =~= names(order@));
            lemma_covers(recipients(out@), ks);
        }
        Some(out)
    }

    /// Draws an assignment with the random source `rng`: fails at once with
    /// fewer than two participants or on a constraint naming a stranger,
    /// then makes up to the group's number of attempts, each on a fresh
    /// shuffle and a fresh matrix.
    pub fn assign_with(&self, rng: &mut StdRng) -> (r: Result<Vec<(String, String)>, AssignError>)
        requires
            self.wf(),
        ensures
            self.outcome(r),
    {
        if self.people.len() < 2 {
            return Err(AssignError::TooFewParticipants);
        }
        match self.find_unknown() {
            Some(name) => {
                return Err(AssignError::BadConstraint(name));
            },
            None => {},
        }
        let mut order = self.people.clone();
        let mut i: u32 = 0;
        while i < self.max_attempts
            invariant
                self.wf(),
                self.people_view().len() >= 2,
                first_unknown(self.constraints_view(), self.people_view()) is None,
                order@.to_multiset() == self.people@.to_multiset(),
                i > 0 ==> !sure_pair(self.people_view(), self.constraints_view()),
            decreases self.max_attempts - i,
        {
            shuffle_names(&mut order, rng);
            proof {
                lemma_shuffled(order@, self.people@);
            }
            match self.attempt(&order, rng) {
                Some(a) => {
                    return Ok(a);
                },
                None => {},
            }
            i = i + 1;
        }
        Err(AssignError::GivingUp)
    }

    /// `assign_with` on a generator seeded by the operating system.
    pub fn assign(&self) -> (r: Result<Vec<(String, String)>, AssignError>)
        requires
            self.wf(),
        ensures
            self.outcome(r),
    {
        let mut rng = entropy_rng();
        self.assign_with(&mut rng)
    }
}

} // verus!
