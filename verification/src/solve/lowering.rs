//! The loci of a point of an ordered figure: what each constraint that
//! pins the point contributes to its place.

use crate::constraints::locus::Locus;
use crate::constraints::lower::all_within;
use crate::constraints::rules::{CID, PointID};
use crate::order::{IndexView, PointIndex};
use crate::util::{locate, place_of};
use vstd::prelude::*;

verus! {

/// Why a figure has no places.
#[derive(Debug, Clone, Copy, PartialEq, Eq, Structural)]
pub enum SolveError {
    /// No choice of candidates places every point.
    Infeasible,
    /// A constraint cannot be lowered: it does not name the point, or a
    /// point that it needs has no place yet.
    Degenerate,
}

/// The constraint `cid` of the figure names the point `i` and can be
/// lowered for the first place at which it names it, when the points below
/// `i` have their places.
pub open spec fn lowerable(ix: IndexView, cid: CID, i: PointID) -> bool {
    &&& cid < ix.constraints.len()
    &&& ix.constraints[cid as int].points().contains(i)
    &&& ix.constraints[cid as int].ready(
        i as nat,
        place_of(ix.constraints[cid as int].points(), i, 0),
    )
}

/// The loci that the constraint `cid` contributes to the place of the
/// point `i`.
pub open spec fn loci_of(ix: IndexView, cid: CID, i: PointID) -> Seq<Locus> {
    ix.constraints[cid as int].loci(i as nat, place_of(ix.constraints[cid as int].points(), i, 0))
}

/// The loci of a vector of lists of loci.
pub open spec fn loci_view(lists: Seq<Vec<Locus>>) -> Seq<Seq<Locus>> {
    Seq::new(lists.len(), |j: int| lists[j]@)
}

/// For each of the constraints `cids` the loci that it contributes to the
/// place of the point `i`, given by points below `i`. The figure is
/// degenerate for the point if one of the constraints cannot be lowered.
pub fn point_loci(index: &PointIndex, cids: &[CID], i: PointID) -> (r: Result<
    Vec<Vec<Locus>>,
    SolveError,
>)
    ensures
        match r {
            Ok(lists) => lists@.len() == cids@.len() && forall|j: int|
                0 <= j < cids@.len() ==> lowerable(index@, #[trigger] cids@[j], i) && lists@[j]@
                    == loci_of(index@, cids@[j], i) && all_within(lists@[j]@, i as nat),
            Err(e) => e == SolveError::Degenerate && exists|j: int|
                0 <= j < cids@.len() && !lowerable(index@, #[trigger] cids@[j], i),
        },
{
    let mut lists: Vec<Vec<Locus>> = Vec::new();
    let mut k: usize = 0;
    while k < cids.len()
        invariant
            k <= cids.len(),
            lists@.len() == k,
            forall|j: int|
                0 <= j < k ==> lowerable(index@, #[trigger] cids@[j], i) && lists@[j]@ == loci_of(
                    index@,
                    cids@[j],
                    i,
                ) && all_within(lists@[j]@, i as nat),
        decreases cids.len() - k,
    {
        let cid = cids[k];
        if cid >= index.constraint_count() {
            return Err(SolveError::Degenerate);
        }
        let c = index.get_constraint(cid);
        let t_ind = match locate(c.points(), &i) {
            Some(t_ind) => t_ind,
            None => {
                return Err(SolveError::Degenerate);
            },
        };
        if !c.geo_ready(i, t_ind) {
            return Err(SolveError::Degenerate);
        }
        lists.push(c.geo(i, t_ind));
        k += 1;
    }
    Ok(lists)
}

} // verus!
