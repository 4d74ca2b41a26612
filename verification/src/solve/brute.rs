//! The backtracking search for the places of the points.
//!
//! The points are placed in order. For each point the caller works out the
//! candidate loci from the places of the points before it, and the search
//! decides which candidate to try next: the first one, then, when a later
//! point has no candidate left, the next one of the latest point that has
//! one. The search keeps no places, only the number of candidates and the
//! candidate in use for each point that is placed.

use vstd::prelude::*;

verus! {

/// What the caller is to do next.
#[derive(Debug, Clone, Copy, PartialEq, Eq, Structural)]
pub enum Action {
    /// Work out the candidates of the point and offer their number.
    Expand(usize),
    /// Put the point at its candidate with the given number, and drop the
    /// candidates of all later points.
    Place(usize, usize),
    /// Every point has its place.
    Done,
    /// No choice of candidates places every point.
    Failed,
}

/// What the search waits for.
#[derive(Debug, Clone, Copy, PartialEq, Eq, Structural)]
pub enum Awaiting {
    /// The number of candidates of the next point.
    Candidates,
    /// The report that a point was placed.
    Placement,
    /// Nothing: the search is over.
    Nothing,
}

/// The state of a search as a mathematical value.
pub struct SearchView {
    /// The number of points.
    pub n: nat,
    /// For each placed point the number of its candidates.
    pub counts: Seq<usize>,
    /// For each placed point the number of the candidate in use.
    pub choices: Seq<usize>,
    /// What the search waits for.
    pub awaiting: Awaiting,
}

/// The state of a search.
pub struct Search {
    n: usize,
    counts: Vec<usize>,
    choices: Vec<usize>,
    awaiting: Awaiting,
}

impl View for Search {
    type V = SearchView;

    closed spec fn view(&self) -> SearchView {
        SearchView {
            n: self.n as nat,
            counts: self.counts@,
            choices: self.choices@,
            awaiting: self.awaiting,
        }
    }
}

impl SearchView {
    /// Each placed point has a count and a choice below it, and no more
    /// points are placed than there are.
    pub open spec fn wf(self) -> bool {
        &&& self.counts.len() == self.choices.len()
        &&& self.choices.len() <= self.n
        &&& forall|d: int| 0 <= d < self.choices.len() ==> self.choices[d] < self.counts[d]
        &&& (self.awaiting == Awaiting::Candidates ==> self.choices.len() < self.n)
        &&& (self.awaiting == Awaiting::Placement ==> self.choices.len() > 0)
    }
}

/// The state and the action after the latest point that has a candidate
/// left moved on to its next one; the search fails if no point has.
pub open spec fn retreat(n: nat, counts: Seq<usize>, choices: Seq<usize>) -> (SearchView, Action)
    decreases choices.len(),
{
    if choices.len() == 0 || counts.len() != choices.len() {
        (
            SearchView { n, counts: Seq::empty(), choices: Seq::empty(), awaiting: Awaiting::Nothing },
            Action::Failed,
        )
    } else if choices.last() + 1 < counts.last() {
        (
            SearchView {
                n,
                counts,
                choices: choices.drop_last().push((choices.last() + 1) as usize),
                awaiting: Awaiting::Placement,
            },
            Action::Place((choices.len() - 1) as usize, (choices.last() + 1) as usize),
        )
    } else {
        retreat(n, counts.drop_last(), choices.drop_last())
    }
}

/// The state and the action after the next point was found to have
/// `count` candidates: its first candidate is tried, or, if it has none,
/// the search retreats.
pub open spec fn offer(s: SearchView, count: usize) -> (SearchView, Action) {
    if count > 0 {
        (
            SearchView {
                n: s.n,
                counts: s.counts.push(count),
                choices: s.choices.push(0),
                awaiting: Awaiting::Placement,
            },
            Action::Place(s.choices.len() as usize, 0),
        )
    } else {
        retreat(s.n, s.counts, s.choices)
    }
}

/// The state and the action after a point was placed: the next point is
/// expanded, or the search is done.
pub open spec fn advance(s: SearchView) -> (SearchView, Action) {
    if s.choices.len() == s.n {
        (SearchView { awaiting: Awaiting::Nothing, ..s }, Action::Done)
    } else {
        (
            SearchView { awaiting: Awaiting::Candidates, ..s },
            Action::Expand(s.choices.len() as usize),
        )
    }
}

/// The state and the action at the start of a search for `n` points.
pub open spec fn begin(n: nat) -> (SearchView, Action) {
    advance(
        SearchView { n, counts: Seq::empty(), choices: Seq::empty(), awaiting: Awaiting::Placement },
    )
}

impl Search {
    /// Starts the search for the places of `n` points.
    pub fn new(n: usize) -> (r: (Search, Action))
        ensures
            (r.0@, r.1) == begin(n as nat),
            r.0@.wf(),
    {
        if n == 0 {
            (
                Search { n, counts: Vec::new(), choices: Vec::new(), awaiting: Awaiting::Nothing },
                Action::Done,
            )
        } else {
            (
                Search {
                    n,
                    counts: Vec::new(),
                    choices: Vec::new(),
                    awaiting: Awaiting::Candidates,
                },
                Action::Expand(0),
            )
        }
    }

    /// What the search waits for.
    pub fn awaiting(&self) -> (r: Awaiting)
        ensures
            r == self@.awaiting,
    {
        self.awaiting
    }

    /// The number of points that are placed.
    pub fn depth(&self) -> (r: usize)
        ensures
            r == self@.choices.len(),
    {
        self.choices.len()
    }

    /// The candidate in use for each placed point.
    pub fn choices(&self) -> (r: &Vec<usize>)
        ensures
            r@ == self@.choices,
    {
        &self.choices
    }

    /// Takes the number of candidates of the point that was to be
    /// expanded, and says which point to place at which candidate, or that
    /// the search failed.
    pub fn candidates(&mut self, count: usize) -> (r: Action)
        requires
            old(self)@.wf(),
            old(self)@.awaiting == Awaiting::Candidates,
        ensures
            (final(self)@, r) == offer(old(self)@, count),
            final(self)@.wf(),
            r is Place || r is Failed,
    {
        if count > 0 {
            let depth = self.choices.len();
            self.counts.push(count);
            self.choices.push(0);
            self.awaiting = Awaiting::Placement;
            return Action::Place(depth, 0);
        }
        let ghost start = self@;
        loop
            invariant
                count == 0,
                start == old(self)@,
                self.n == start.n,
                self.counts@.len() == self.choices@.len(),
                self.choices@.len() <= self.n,
                forall|d: int| 0 <= d < self.choices@.len() ==> self.choices@[d] < self.counts@[d],
                retreat(start.n, start.counts, start.choices) == retreat(
                    start.n,
                    self.counts@,
                    self.choices@,
                ),
            decreases self.choices@.len(),
        {
            let depth = self.choices.len();
            if depth == 0 {
                self.awaiting = Awaiting::Nothing;
                assert(self.counts@ =~= Seq::<usize>::empty());
                assert(self.choices@ =~= Seq::<usize>::empty());
                return Action::Failed;
            }
            let next = self.choices[depth - 1] + 1;
            if next < self.counts[depth - 1] {
                let ghost held = self.choices@;
                self.choices.set(depth - 1, next);
                self.awaiting = Awaiting::Placement;
                assert(self.choices@ =~= held.drop_last().push(next));
                return Action::Place(depth - 1, next);
            }
            let ghost counts = self.counts@;
            let ghost choices = self.choices@;
            self.counts.pop();
            self.choices.pop();
            assert(self.counts@ =~= counts.drop_last());
            assert(self.choices@ =~= choices.drop_last());
        }
    }

    /// Takes the report that the point was placed, and says which point to
    /// expand next, or that the search is done.
    pub fn placed(&mut self) -> (r: Action)
        requires
            old(self)@.wf(),
            old(self)@.awaiting == Awaiting::Placement,
        ensures
            (final(self)@, r) == advance(old(self)@),
            final(self)@.wf(),
            r is Expand || r is Done,
    {
        if self.choices.len() == self.n {
            self.awaiting = Awaiting::Nothing;
            Action::Done
        } else {
            self.awaiting = Awaiting::Candidates;
            Action::Expand(self.choices.len())
        }
    }
}

} // verus!
