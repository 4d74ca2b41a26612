//! The index of a figure: its points, its constraints, and for each point
//! the constraints that name it.

pub mod bfs;
pub mod laws;
pub mod model;

use crate::constraints::rules::{all_below, renamed, CID, PointID};
use crate::constraints::{Constraint, ConstraintView};
use crate::draw::{path_view, PathCmd, PathCmdView};
use crate::names::{
    name_pairs, names_get_by_left, names_get_by_right, names_insert, names_new,
    names_remove_by_left, no_pairs, one_to_one, with_pair,
};
use bimap::BiHashMap;
use vstd::prelude::*;

verus! {

/// The predicate "is the point `p`".
pub open spec fn same_as(p: PointID) -> spec_fn(PointID) -> bool {
    |x: PointID| x == p
}

/// The number of entries of `points` that are `p`.
pub open spec fn occurrences(points: Seq<PointID>, p: PointID) -> nat {
    points.filter(same_as(p)).len()
}

/// `count` times the constraint `cid`.
pub open spec fn repeated(cid: CID, count: nat) -> Seq<CID> {
    Seq::new(count, |i: int| cid)
}

/// The constraints that name the point `p`, in the order in which they
/// were added, each as often as it names `p`.
pub open spec fn reverse_index(constraints: Seq<ConstraintView>, p: PointID) -> Seq<CID>
    decreases constraints.len(),
{
    if constraints.len() == 0 {
        Seq::empty()
    } else {
        reverse_index(constraints.drop_last(), p) + repeated(
            (constraints.len() - 1) as CID,
            occurrences(constraints.last().points(), p),
        )
    }
}

/// `mapping` sends the identifiers below `n` one to one onto themselves.
pub open spec fn is_permutation(mapping: Seq<PointID>, n: nat) -> bool {
    &&& mapping.len() == n
    &&& all_below(mapping, n)
    &&& mapping.no_duplicates()
    &&& forall|q: PointID| q < n ==> mapping.contains(q)
}

/// A figure's index as a mathematical value.
pub struct IndexView {
    /// The name of each point.
    pub names: Map<PointID, Seq<char>>,
    /// For each point, the constraints that name it.
    pub cids: Seq<Seq<CID>>,
    /// The constraints, each at the place of its identifier.
    pub constraints: Seq<ConstraintView>,
    /// The paths to draw.
    pub paths: Seq<Seq<PathCmdView>>,
}

impl IndexView {
    /// The number of points.
    pub open spec fn n(self) -> nat {
        self.cids.len()
    }

    /// The points are numbered from zero without gaps and their number
    /// fits the machine, no two share a name, every constraint names
    /// points of the figure only, as many as its kind asks for, and the
    /// reverse index lists for each point the constraints that name it.
    pub open spec fn wf(self) -> bool {
        &&& self.n() <= usize::MAX
        &&& forall|p: PointID| self.names.dom().contains(p) <==> p < self.n()
        &&& one_to_one(self.names)
        &&& forall|cid: int|
            0 <= cid < self.constraints.len() ==> (#[trigger] self.constraints[cid]).within(
                self.n(),
            ) && self.constraints[cid].arity_ok()
        &&& forall|p: int|
            0 <= p < self.n() ==> #[trigger] self.cids[p] == reverse_index(
                self.constraints,
                p as PointID,
            )
    }

    /// Whether a point has the given name.
    pub open spec fn has_name(self, name: Seq<char>) -> bool {
        exists|p: PointID| self.names.dom().contains(p) && self.names[p] == name
    }

    /// The figure with a point of the given name: as it is, if it has one,
    /// else with a new point under the next free identifier.
    pub open spec fn with_point(self, name: Seq<char>) -> IndexView {
        if self.has_name(name) {
            self
        } else {
            IndexView {
                names: self.names.insert(self.n() as PointID, name),
                cids: self.cids.push(Seq::empty()),
                ..self
            }
        }
    }

    /// The figure with a point for each of the given names, taken in
    /// order.
    pub open spec fn with_points(self, names: Seq<Seq<char>>) -> IndexView
        decreases names.len(),
    {
        if names.len() == 0 {
            self
        } else {
            self.with_points(names.drop_last()).with_point(names.last())
        }
    }

    /// The figure with one more constraint, entered in the reverse index.
    pub open spec fn with_constraint(self, c: ConstraintView) -> IndexView {
        IndexView {
            constraints: self.constraints.push(c),
            cids: Seq::new(
                self.cids.len(),
                |p: int| reverse_index(self.constraints.push(c), p as PointID),
            ),
            ..self
        }
    }

    /// The figure with one more path.
    pub open spec fn with_path(self, path: Seq<PathCmdView>) -> IndexView {
        IndexView { paths: self.paths.push(path), ..self }
    }

    /// The points have the given names, one by one.
    pub open spec fn named(self, points: Seq<PointID>, names: Seq<Seq<char>>) -> bool {
        &&& points.len() == names.len()
        &&& forall|i: int|
            0 <= i < points.len() ==> self.names.dom().contains(#[trigger] points[i])
                && self.names[points[i]] == names[i]
    }
}

/// `after` is `before` with the points renumbered: `p` became
/// `mapping[p]` in every constraint, in the names and in the reverse index.
pub open spec fn renumbered(before: IndexView, after: IndexView, mapping: Seq<PointID>) -> bool {
    &&& after.n() == before.n()
    &&& after.constraints.len() == before.constraints.len()
    &&& forall|cid: int|
        0 <= cid < before.constraints.len() ==> #[trigger] after.constraints[cid]
            == before.constraints[cid].renamed(mapping)
    &&& forall|p: int|
        0 <= p < before.n() ==> after.cids[#[trigger] mapping[p] as int] == before.cids[p]
    &&& forall|p: int|
        0 <= p < before.n() ==> after.names[#[trigger] mapping[p]] == before.names[p as PointID]
    &&& after.paths == before.paths
}

/// A figure's points, constraints and paths.
#[derive(Debug)]
pub struct PointIndex {
    id2p: BiHashMap<PointID, String>,
    id2c: Vec<Vec<CID>>,
    constraints: Vec<Constraint>,
    paths: Vec<Vec<PathCmd>>,
}

/// A figure is kept as its index.
pub type Figure = PointIndex;

/// A document is kept as the index of its figure.
pub type Document = PointIndex;

impl Default for PointIndex {
    fn default() -> (r: PointIndex)
        ensures
            r@.wf(),
            r@.n() == 0,
            r@.names == no_pairs(),
            r@.constraints.len() == 0,
            r@.paths.len() == 0,
    {
        PointIndex::new()
    }
}

impl View for PointIndex {
    type V = IndexView;

    closed spec fn view(&self) -> IndexView {
        IndexView {
            names: name_pairs(&self.id2p),
            cids: Seq::new(self.id2c@.len(), |p: int| self.id2c@[p]@),
            constraints: Seq::new(self.constraints@.len(), |i: int| self.constraints@[i]@),
            paths: Seq::new(self.paths@.len(), |i: int| path_view(self.paths@[i]@)),
        }
    }
}

/// No constraint names a point that is not below the bound of all of them.
pub proof fn lemma_no_occurrence(points: Seq<PointID>, n: nat, p: PointID)
    requires
        all_below(points, n),
        p >= n,
    ensures
        occurrences(points, p) == 0,
{
    let pred = same_as(p);
    assert forall|i: int| 0 <= i < points.len() implies !pred(#[trigger] points[i]) by {}
    points.lemma_all_neg_filter_empty(pred);
}

/// A point that no constraint can name has an empty reverse index.
pub proof fn lemma_reverse_index_outside(constraints: Seq<ConstraintView>, n: nat, p: PointID)
    requires
        forall|cid: int|
            0 <= cid < constraints.len() ==> (#[trigger] constraints[cid]).within(n),
        p >= n,
    ensures
        reverse_index(constraints, p) == Seq::<CID>::empty(),
    decreases constraints.len(),
{
    if constraints.len() > 0 {
        let front = constraints.drop_last();
        assert forall|cid: int| 0 <= cid < front.len() implies (#[trigger] front[cid]).within(
            n,
        ) by {
            assert(front[cid] == constraints[cid]);
        }
        lemma_reverse_index_outside(front, n, p);
        assert(constraints.last() == constraints[constraints.len() - 1]);
        lemma_no_occurrence(constraints.last().points(), n, p);
        assert(reverse_index(constraints, p) =~= Seq::<CID>::empty());
    }
}

/// One more occurrence is one more repetition.
pub proof fn lemma_repeated_push(cid: CID, count: nat)
    ensures
        repeated(cid, count + 1) == repeated(cid, count).push(cid),
{
    assert(repeated(cid, count + 1) =~= repeated(cid, count).push(cid));
}

/// Under a one-to-one renaming a point occurs as often after as before.
pub proof fn lemma_occurrences_renamed(
    points: Seq<PointID>,
    mapping: Seq<PointID>,
    p: PointID,
)
    requires
        is_permutation(mapping, mapping.len()),
        all_below(points, mapping.len()),
        p < mapping.len(),
    ensures
        occurrences(renamed(points, mapping), mapping[p as int]) == occurrences(points, p),
    decreases points.len(),
{
    reveal(Seq::filter);
    if points.len() > 0 {
        let front = points.drop_last();
        let x = points.last();
        assert(x == points[points.len() - 1]);
        assert forall|i: int| 0 <= i < front.len() implies #[trigger] front[i]
            < mapping.len() by {
            assert(front[i] == points[i]);
        }
        lemma_occurrences_renamed(front, mapping, p);
        assert(renamed(points, mapping).drop_last() =~= renamed(front, mapping));
        assert(renamed(points, mapping).last() == mapping[x as int]);
        assert(mapping[x as int] == mapping[p as int] <==> x == p);
    }
}

/// Under a one-to-one renaming the reverse index moves with the points.
pub proof fn lemma_reverse_index_renamed(
    constraints: Seq<ConstraintView>,
    after: Seq<ConstraintView>,
    mapping: Seq<PointID>,
    p: PointID,
)
    requires
        is_permutation(mapping, mapping.len()),
        p < mapping.len(),
        after.len() == constraints.len(),
        forall|cid: int|
            0 <= cid < constraints.len() ==> (#[trigger] constraints[cid]).within(
                mapping.len(),
            ),
        forall|cid: int|
            0 <= cid < constraints.len() ==> #[trigger] after[cid] == constraints[cid].renamed(
                mapping,
            ),
    ensures
        reverse_index(after, mapping[p as int]) == reverse_index(constraints, p),
    decreases constraints.len(),
{
    if constraints.len() > 0 {
        let front = constraints.drop_last();
        let after_front = after.drop_last();
        assert forall|cid: int| 0 <= cid < front.len() implies (#[trigger] front[cid]).within(
            mapping.len(),
        ) by {
            assert(front[cid] == constraints[cid]);
        }
        assert forall|cid: int| 0 <= cid < front.len() implies #[trigger] after_front[cid]
            == front[cid].renamed(mapping) by {
            assert(after_front[cid] == after[cid]);
            assert(front[cid] == constraints[cid]);
        }
        lemma_reverse_index_renamed(front, after_front, mapping, p);
        let last = constraints[constraints.len() - 1];
        assert(constraints.last() == last);
        assert(after.last() == after[constraints.len() - 1]);
        assert(after.last() == last.renamed(mapping));
        assert(last.within(mapping.len()));
        assert(last.renamed(mapping).points() == renamed(last.points(), mapping));
        lemma_occurrences_renamed(last.points(), mapping, p);
    }
}

/// Whether `mapping` sends the identifiers below its length one to one
/// onto themselves.
pub fn check_permutation(mapping: &[PointID]) -> (r: bool)
    ensures
        r == is_permutation(mapping@, mapping@.len()),
{
    let n = mapping.len();
    let mut seen: Vec<bool> = Vec::new();
    let mut i: usize = 0;
    while i < n
        invariant
            i <= n,
            seen@.len() == i,
            forall|j: int| 0 <= j < i ==> !seen@[j],
        decreases n - i,
    {
        seen.push(false);
        i += 1;
    }
    i = 0;
    while i < n
        invariant
            i <= n,
            n == mapping@.len(),
            seen@.len() == n,
            forall|j: int| 0 <= j < i ==> mapping@[j] < n,
            forall|a: int, b: int| 0 <= a < b < i ==> mapping@[a] != mapping@[b],
            forall|q: int|
                0 <= q < n ==> (#[trigger] seen@[q] <==> exists|j: int|
                    0 <= j < i && mapping@[j] == q),
        decreases n - i,
    {
        let q = mapping[i];
        if q >= n {
            assert(!all_below(mapping@, n as nat));
            return false;
        }
        if seen[q] {
            let ghost j = choose|j: int| 0 <= j < i && mapping@[j] == q;
            assert(mapping@[j] == mapping@[i as int]);
            assert(!mapping@.no_duplicates());
            return false;
        }
        seen.set(q, true);
        proof {
            assert forall|x: int| 0 <= x < n implies (#[trigger] seen@[x] <==> exists|j: int|
                0 <= j < i + 1 && mapping@[j] == x) by {
                if x == q {
                    assert(mapping@[i as int] == x);
                } else {
                    if seen@[x] {
                        let j = choose|j: int| 0 <= j < i && mapping@[j] == x;
                        assert(0 <= j < i + 1 && mapping@[j] == x);
                    }
                    if exists|j: int| 0 <= j < i + 1 && mapping@[j] == x {
                        let j = choose|j: int| 0 <= j < i + 1 && mapping@[j] == x;
                        assert(j != i);
                    }
                }
            }
        }
        i += 1;
    }
    i = 0;
    while i < n
        invariant
            i <= n,
            n == mapping@.len(),
            seen@.len() == n,
            forall|q: int|
                0 <= q < n ==> (#[trigger] seen@[q] <==> exists|j: int|
                    0 <= j < n && mapping@[j] == q),
            forall|q: int| 0 <= q < i ==> seen@[q],
        decreases n - i,
    {
        if !seen[i] {
            assert(!mapping@.contains(i));
            return false;
        }
        i += 1;
    }
    proof {
        assert forall|q: PointID| q < n implies mapping@.contains(q) by {
            assert(seen@[q as int]);
            let j = choose|j: int| 0 <= j < n && mapping@[j] == q;
            assert(mapping@[j] == q);
        }
    }
    true
}

impl PointIndex {
    /// An index without points, constraints or paths.
    pub fn new() -> (r: PointIndex)
        ensures
            r@.wf(),
            r@.n() == 0,
            r@.names == no_pairs(),
            r@.constraints.len() == 0,
            r@.paths.len() == 0,
    {
        let r = PointIndex {
            id2p: names_new(),
            id2c: Vec::new(),
            constraints: Vec::new(),
            paths: Vec::new(),
        };
        assert(r@.cids.len() == 0);
        r
    }

    /// The number of points.
    pub fn len(&self) -> (n: usize)
        ensures
            n == self@.n(),
    {
        self.id2c.len()
    }

    /// The identifier of the point named `p`: the one it has, or a new
    /// one, the next free number, if the name is new.
    pub fn get_or_insert(&mut self, p: &str) -> (id: PointID)
        requires
            old(self)@.wf(),
        ensures
            final(self)@.wf(),
            final(self)@ == old(self)@.with_point(p@),
            final(self)@.names.dom().contains(id),
            final(self)@.names[id] == p@,
            forall|q: PointID|
                final(self)@.names.dom().contains(q) && #[trigger] final(self)@.names[q] == p@
                    ==> q == id,
            !old(self)@.has_name(p@) ==> id == old(self)@.n(),
    {
        match names_get_by_right(&self.id2p, p) {
            Some(id) => id,
            None => {
                let id = self.id2c.len();
                let ghost before = self@;
                self.id2c.push(Vec::new());
                let total = self.id2c.len();
                names_insert(&mut self.id2p, id, p.to_owned());
                proof {
                    let after = self@;
                    assert(after.n() == total);
                    assert(after.names =~= before.names.insert(id, p@));
                    assert(after.cids =~= before.cids.push(Seq::empty()));
                    assert(after.constraints =~= before.constraints);
                    assert(after.paths =~= before.paths);
                    assert(!before.has_name(p@));
                    assert forall|cid: int| 0 <= cid < after.constraints.len() implies (
                    #[trigger] after.constraints[cid]).within(after.n()) by {
                        assert(before.constraints[cid].within(before.n()));
                    }
                    lemma_reverse_index_outside(before.constraints, before.n(), id);
                    assert forall|q: int| 0 <= q < after.n() implies #[trigger] after.cids[q]
                        == reverse_index(after.constraints, q as PointID) by {
                        if q < before.n() {
                            assert(after.cids[q] == before.cids[q]);
                        }
                    }
                }
                id
            },
        }
    }

    /// Adds a constraint under the next free identifier, and enters it in
    /// the reverse index once for each time it names a point.
    pub fn add_constraint(&mut self, c: Constraint)
        requires
            old(self)@.wf(),
            c@.within(old(self)@.n()),
        ensures
            final(self)@.wf(),
            final(self)@ == old(self)@.with_constraint(c@),
    {
        let cid = self.constraints.len();
        let ghost before = self@;
        let ghost n = before.n();
        let points = c.points();
        let mut k: usize = 0;
        proof {
            assert(points@.take(0) =~= Seq::<PointID>::empty());
            assert forall|p: PointID| p < n implies #[trigger] self.id2c@[p as int]@
                == reverse_index(before.constraints, p) + repeated(
                cid,
                occurrences(points@.take(0), p),
            ) by {
                reveal(Seq::filter);
                assert(before.cids[p as int] == self.id2c@[p as int]@);
                assert(repeated(cid, 0) =~= Seq::<CID>::empty());
                assert(self.id2c@[p as int]@ =~= reverse_index(before.constraints, p)
                    + repeated(cid, 0));
            }
        }
        while k < points.len()
            invariant
                k <= points.len(),
                points@ == c@.points(),
                c@.within(n),
                self.id2c@.len() == n,
                self.constraints@.len() == cid,
                self@.names == before.names,
                self@.constraints == before.constraints,
                self@.paths == before.paths,
                forall|p: PointID|
                    p < n ==> #[trigger] self.id2c@[p as int]@ == reverse_index(
                        before.constraints,
                        p,
                    ) + repeated(cid, occurrences(points@.take(k as int), p)),
            decreases points.len() - k,
        {
            let id = points[k];
            assert(id < n);
            let ghost held = self.id2c@;
            self.id2c[id].push(cid);
            proof {
                points@.lemma_take_succ_push(k as int);
                assert(points@.take(k + 1) == points@.take(k as int).push(id));
                assert(self@.constraints =~= before.constraints);
                assert(self@.paths =~= before.paths);
                assert forall|p: PointID| p < n implies #[trigger] self.id2c@[p as int]@
                    == reverse_index(before.constraints, p) + repeated(
                    cid,
                    occurrences(points@.take(k + 1), p),
                ) by {
                    let rev = reverse_index(before.constraints, p);
                    let count = occurrences(points@.take(k as int), p);
                    points@.take(k as int).lemma_filter_push(id, same_as(p));
                    assert(held[p as int]@ == rev + repeated(cid, count));
                    if p == id {
                        assert(occurrences(points@.take(k + 1), p) == count + 1);
                        lemma_repeated_push(cid, count);
                        assert(self.id2c@[p as int]@ == held[p as int]@.push(cid));
                        assert((rev + repeated(cid, count)).push(cid) =~= rev + repeated(
                            cid,
                            count,
                        ).push(cid));
                    } else {
                        assert(occurrences(points@.take(k + 1), p) == count);
                        assert(self.id2c@[p as int] == held[p as int]);
                    }
                }
            }
            k += 1;
        }
        let total = self.id2c.len();
        self.constraints.push(c);
        proof {
            let after = self@;
            assert(after.n() == total);
            assert(points@.take(points@.len() as int) =~= points@);
            assert(after.constraints =~= before.constraints.push(c@));
            assert(after.paths =~= before.paths);
            assert(after.constraints.drop_last() =~= before.constraints);
            assert(after.constraints.last() == c@);
            assert forall|i: int| 0 <= i < after.constraints.len() implies (
            #[trigger] after.constraints[i]).within(after.n()) by {
                if i < before.constraints.len() {
                    assert(before.constraints[i].within(n));
                }
            }
            assert(after.names == before.names);
            assert forall|p: int| 0 <= p < after.n() implies #[trigger] after.cids[p]
                == reverse_index(after.constraints, p as PointID) by {
                let q = p as PointID;
                assert(after.cids[p] == self.id2c@[q as int]@);
                assert(self.id2c@[q as int]@ == reverse_index(before.constraints, q) + repeated(
                    cid,
                    occurrences(points@, q),
                ));
            }
            assert(after.cids =~= before.with_constraint(c@).cids);
        }
    }

    /// Renumbers the points: `p` becomes `mapping[p]` in every constraint,
    /// in the names and in the reverse index.
    pub fn map_ids(&mut self, mapping: &[PointID])
        requires
            old(self)@.wf(),
            is_permutation(mapping@, old(self)@.n()),
        ensures
            final(self)@.wf(),
            renumbered(old(self)@, final(self)@, mapping@),
    {
        let ghost before = self@;
        let n = self.id2c.len();
        // The constraints.
        let mut i: usize = 0;
        while i < self.constraints.len()
            invariant
                i <= self.constraints@.len(),
                self.constraints@.len() == before.constraints.len(),
                mapping@.len() == n,
                before.wf(),
                before.n() == n,
                self.id2c == old(self).id2c,
                self.id2p == old(self).id2p,
                self.paths == old(self).paths,
                forall|cid: int|
                    0 <= cid < i ==> (#[trigger] self.constraints@[cid])@
                        == before.constraints[cid].renamed(mapping@),
                forall|cid: int|
                    i <= cid < self.constraints@.len() ==> (#[trigger] self.constraints@[cid])@
                        == before.constraints[cid],
            decreases self.constraints@.len() - i,
        {
            assert(before.constraints[i as int].within(n as nat));
            self.constraints[i].map_points(mapping);
            i += 1;
        }
        // The reverse index, moved into a fresh buffer.
        let mut held: Vec<Vec<CID>> = Vec::new();
        std::mem::swap(&mut held, &mut self.id2c);
        let mut moved: Vec<Vec<CID>> = Vec::new();
        let mut p: usize = 0;
        while p < n
            invariant
                p <= n,
                moved@.len() == p,
            decreases n - p,
        {
            moved.push(Vec::new());
            p += 1;
        }
        p = 0;
        while p < n
            invariant
                p <= n,
                held@.len() == n,
                moved@.len() == n,
                is_permutation(mapping@, n as nat),
                forall|q: int| p <= q < n ==> (#[trigger] held@[q])@ == before.cids[q],
                forall|q: int| 0 <= q < p ==> (#[trigger] moved@[mapping@[q] as int])@
                    == before.cids[q],
            decreases n - p,
        {
            let mut list: Vec<CID> = Vec::new();
            std::mem::swap(&mut list, &mut held[p]);
            let ghost prior = moved@;
            moved.set(mapping[p], list);
            proof {
                assert forall|q: int| 0 <= q < p + 1 implies (#[trigger] moved@[mapping@[q] as int])@
                    == before.cids[q] by {
                    if q < p {
                        assert(mapping@[q] != mapping@[p as int]);
                        assert(moved@[mapping@[q] as int] == prior[mapping@[q] as int]);
                    }
                }
            }
            p += 1;
        }
        self.id2c = moved;
        // The names, moved into a fresh map.
        let mut old_names = names_new();
        std::mem::swap(&mut old_names, &mut self.id2p);
        p = 0;
        while p < n
            invariant
                p <= n,
                n == before.n(),
                before.wf(),
                is_permutation(mapping@, n as nat),
                self.id2c@.len() == n,
                self.constraints@.len() == before.constraints.len(),
                self.paths == old(self).paths,
                forall|q: int| 0 <= q < n ==> (#[trigger] self.id2c@[mapping@[q] as int])@
                    == before.cids[q],
                forall|cid: int|
                    0 <= cid < self.constraints@.len() ==> (#[trigger] self.constraints@[cid])@
                        == before.constraints[cid].renamed(mapping@),
                forall|q: PointID|
                    name_pairs(&old_names).dom().contains(q) <==> p <= q < n,
                forall|q: PointID|
                    p <= q < n ==> #[trigger] name_pairs(&old_names)[q] == before.names[q],
                forall|k: PointID|
                    name_pairs(&self.id2p).dom().contains(k) <==> exists|q: int|
                        0 <= q < p && #[trigger] mapping@[q] == k,
                forall|q: int|
                    0 <= q < p ==> name_pairs(&self.id2p)[#[trigger] mapping@[q]]
                        == before.names[q as PointID],
            decreases n - p,
        {
            let ghost held_names = name_pairs(&old_names);
            let ghost new_names = name_pairs(&self.id2p);
            match names_remove_by_left(&mut old_names, p) {
                Some(name) => {
                    names_insert(&mut self.id2p, mapping[p], name);
                    proof {
                        let target = mapping@[p as int];
                        let now = name_pairs(&self.id2p);
                        assert(name@ == before.names[p]);
                        assert(now == with_pair(new_names, target, name@));
                        // No pair of the new map holds this name yet.
                        assert forall|k: PointID| new_names.dom().contains(k) implies new_names[k]
                            != name@ by {
                            let q = choose|q: int| 0 <= q < p && #[trigger] mapping@[q] == k;
                            assert(new_names[mapping@[q]] == before.names[q as PointID]);
                            assert(before.names.dom().contains(q as PointID));
                            assert(before.names.dom().contains(p));
                        }
                        assert forall|k: PointID| now.dom().contains(k) <==> exists|q: int|
                            0 <= q < p + 1 && #[trigger] mapping@[q] == k by {
                            if now.dom().contains(k) {
                                if k == target {
                                    assert(mapping@[p as int] == k);
                                } else {
                                    let q = choose|q: int|
                                        0 <= q < p && #[trigger] mapping@[q] == k;
                                    assert(0 <= q < p + 1 && mapping@[q] == k);
                                }
                            }
                            if exists|q: int| 0 <= q < p + 1 && #[trigger] mapping@[q] == k {
                                let q = choose|q: int|
                                    0 <= q < p + 1 && #[trigger] mapping@[q] == k;
                                if q < p {
                                    assert(new_names.dom().contains(k));
                                }
                            }
                        }
                        assert forall|q: int| 0 <= q < p + 1 implies now[#[trigger] mapping@[q]]
                            == before.names[q as PointID] by {
                            if q < p {
                                assert(mapping@[q] != mapping@[p as int]);
                                assert(new_names.dom().contains(mapping@[q]));
                            }
                        }
                    }
                },
                None => {
                    assert(held_names.dom().contains(p));
                    vstd::pervasive::unreached::<()>()
                },
            }
            p += 1;
        }
        proof {
            let after = self@;
            let m = mapping@;
            assert(after.paths =~= before.paths);
            assert forall|cid: int| 0 <= cid < before.constraints.len() implies (
            #[trigger] after.constraints[cid]) == before.constraints[cid].renamed(m) by {}
            assert forall|q: PointID| after.names.dom().contains(q) <==> q < after.n() by {
                if q < n {
                    assert(m.contains(q));
                    let j = choose|j: int| 0 <= j < m.len() && m[j] == q;
                    assert(m[j] == q);
                }
                if after.names.dom().contains(q) {
                    let j = choose|j: int| 0 <= j < n && #[trigger] m[j] == q;
                    assert(m[j] < n);
                }
            }
            assert forall|a: PointID, b: PointID|
                after.names.dom().contains(a) && after.names.dom().contains(b)
                    && #[trigger] after.names[a] == #[trigger] after.names[b] implies a == b by {
                let ja = choose|j: int| 0 <= j < n && #[trigger] m[j] == a;
                let jb = choose|j: int| 0 <= j < n && #[trigger] m[j] == b;
                assert(after.names[m[ja]] == before.names[ja as PointID]);
                assert(after.names[m[jb]] == before.names[jb as PointID]);
                assert(before.names.dom().contains(ja as PointID));
                assert(before.names.dom().contains(jb as PointID));
            }
            assert forall|cid: int| 0 <= cid < after.constraints.len() implies (
            #[trigger] after.constraints[cid]).within(after.n()) by {
                let c = before.constraints[cid];
                assert(c.within(n as nat));
                assert(after.constraints[cid] == c.renamed(m));
                assert(c.renamed(m).points() == renamed(c.points(), m));
                assert forall|x: int| 0 <= x < c.points().len() implies #[trigger] renamed(
                    c.points(),
                    m,
                )[x] < n by {
                    assert(c.points()[x] < n);
                }
            }
            assert forall|q: int| 0 <= q < after.n() implies #[trigger] after.cids[q]
                == reverse_index(after.constraints, q as PointID) by {
                assert(m.contains(q as PointID));
                let j = choose|j: int| 0 <= j < m.len() && m[j] == q as PointID;
                assert(after.cids[m[j] as int] == before.cids[j]);
                lemma_reverse_index_renamed(
                    before.constraints,
                    after.constraints,
                    m,
                    j as PointID,
                );
            }
        }
    }

    /// The constraints, each at the place of its identifier.
    pub fn constraints(&self) -> (r: &[Constraint])
        ensures
            r@.len() == self@.constraints.len(),
            forall|i: int| 0 <= i < r@.len() ==> (#[trigger] r@[i])@ == self@.constraints[i],
    {
        self.constraints.as_slice()
    }

    /// The constraint with the identifier `cid`.
    pub fn get_constraint(&self, cid: CID) -> (r: &Constraint)
        requires
            cid < self@.constraints.len(),
        ensures
            r@ == self@.constraints[cid as int],
    {
        &self.constraints[cid]
    }

    /// The number of constraints.
    pub fn constraint_count(&self) -> (n: usize)
        ensures
            n == self@.constraints.len(),
    {
        self.constraints.len()
    }

    /// The constraints that name `point`.
    pub fn get_cids(&self, point: &PointID) -> (r: &Vec<CID>)
        requires
            *point < self@.n(),
        ensures
            r@ == self@.cids[*point as int],
    {
        &self.id2c[*point]
    }

    /// The identifiers of the points, in ascending order.
    pub fn ids(&self) -> (r: Vec<PointID>)
        ensures
            r@.len() == self@.n(),
            forall|i: int| 0 <= i < r@.len() ==> r@[i] == i,
    {
        let mut out: Vec<PointID> = Vec::new();
        let mut i: usize = 0;
        while i < self.id2c.len()
            invariant
                i <= self.id2c.len(),
                out@.len() == i,
                forall|j: int| 0 <= j < i ==> out@[j] == j,
            decreases self.id2c.len() - i,
        {
            out.push(i);
            i += 1;
        }
        out
    }

    /// The name of the point `id`.
    pub fn get_point(&self, id: &PointID) -> (r: &String)
        requires
            self@.wf(),
            *id < self@.n(),
        ensures
            r@ == self@.names[*id],
    {
        match names_get_by_left(&self.id2p, *id) {
            Some(name) => name,
            None => {
                assert(self@.names.dom().contains(*id));
                vstd::pervasive::unreached()
            },
        }
    }

    /// Adds a path to draw.
    pub fn add_path(&mut self, path: Vec<PathCmd>)
        ensures
            final(self)@ == old(self)@.with_path(path_view(path@)),
            old(self)@.wf() ==> final(self)@.wf(),
    {
        let ghost before = self@;
        self.paths.push(path);
        proof {
            assert(self@.paths =~= before.paths.push(path_view(path@)));
            assert(self@.cids =~= before.cids);
            assert(self@.constraints =~= before.constraints);
        }
    }

    /// The paths to draw, in the order in which they were added.
    pub fn paths(&self) -> (r: &[Vec<PathCmd>])
        ensures
            r@.len() == self@.paths.len(),
            forall|i: int| 0 <= i < r@.len() ==> path_view((#[trigger] r@[i])@) == self@.paths[i],
    {
        self.paths.as_slice()
    }
}

} // verus!
