//! The two-way map between point identifiers and point names, kept in a
//! `bimap::BiHashMap`.

use crate::constraints::rules::PointID;
use bimap::BiHashMap;
use vstd::prelude::*;

verus! {

/// `bimap::BiHashMap`, declared so that a figure can hold one. Nothing is
/// known of what is inside it but what the functions below say of
/// `name_pairs`.
#[verifier::external_type_specification]
#[verifier::external_body]
#[verifier::reject_recursive_types(L)]
#[verifier::reject_recursive_types(R)]
#[verifier::reject_recursive_types(LS)]
#[verifier::reject_recursive_types(RS)]
pub struct ExBiHashMap<L, R, LS, RS>(BiHashMap<L, R, LS, RS>);

/// The pairs that a map of names holds: each identifier with its name.
pub uninterp spec fn name_pairs(names: &BiHashMap<PointID, String>) -> Map<PointID, Seq<char>>;

/// No name belongs to two identifiers.
pub open spec fn one_to_one(pairs: Map<PointID, Seq<char>>) -> bool {
    forall|a: PointID, b: PointID|
        pairs.dom().contains(a) && pairs.dom().contains(b) && #[trigger] pairs[a]
            == #[trigger] pairs[b] ==> a == b
}

/// The pairs after `id` was paired with `name`: pairs that held `id` or
/// `name` before are gone.
pub open spec fn with_pair(pairs: Map<PointID, Seq<char>>, id: PointID, name: Seq<char>) -> Map<
    PointID,
    Seq<char>,
> {
    Map::new(
        |k: PointID| k == id || (pairs.dom().contains(k) && pairs[k] != name),
        |k: PointID|
            if k == id {
                name
            } else {
                pairs[k]
            },
    )
}

/// No pairs at all.
pub open spec fn no_pairs() -> Map<PointID, Seq<char>> {
    Map::empty()
}

/// `BiHashMap::new`: a map without pairs.
#[verifier::external_body]
pub(crate) fn names_new() -> (r: BiHashMap<PointID, String>)
    ensures
        name_pairs(&r) == no_pairs(),
{
    BiHashMap::new()
}

/// `BiHashMap::get_by_right`: the identifier paired with `name`, if there
/// is one.
#[verifier::external_body]
pub(crate) fn names_get_by_right(names: &BiHashMap<PointID, String>, name: &str) -> (r: Option<
    PointID,
>)
    ensures
        match r {
            Some(id) => name_pairs(names).dom().contains(id) && name_pairs(names)[id] == name@,
            None => forall|id: PointID|
                name_pairs(names).dom().contains(id) ==> #[trigger] name_pairs(names)[id]
                    != name@,
        },
{
    names.get_by_right(name).copied()
}

/// `BiHashMap::get_by_left`: the name paired with `id`, if there is one.
#[verifier::external_body]
pub(crate) fn names_get_by_left(names: &BiHashMap<PointID, String>, id: PointID) -> (r: Option<
    &String,
>)
    ensures
        match r {
            Some(name) => name_pairs(names).dom().contains(id) && name_pairs(names)[id]
                == name@,
            None => !name_pairs(names).dom().contains(id),
        },
{
    names.get_by_left(&id)
}

/// `BiHashMap::insert`: pairs `id` with `name`, after removing the pairs
/// that held either of them.
#[verifier::external_body]
pub(crate) fn names_insert(names: &mut BiHashMap<PointID, String>, id: PointID, name: String)
    ensures
        name_pairs(final(names)) == with_pair(name_pairs(old(names)), id, name@),
{
    names.insert(id, name);
}

/// `BiHashMap::remove_by_left`: removes the pair of `id` and hands back
/// its name, if there is one.
#[verifier::external_body]
pub(crate) fn names_remove_by_left(names: &mut BiHashMap<PointID, String>, id: PointID) -> (r:
    Option<String>)
    ensures
        name_pairs(final(names)) == name_pairs(old(names)).remove(id),
        match r {
            Some(name) => name_pairs(old(names)).dom().contains(id) && name_pairs(
                old(names),
            )[id] == name@,
            None => !name_pairs(old(names)).dom().contains(id),
        },
{
    names.remove_by_left(&id).map(|pair| pair.1)
}

} // verus!
