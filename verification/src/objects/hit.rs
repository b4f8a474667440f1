use vstd::prelude::*;

verus! {

/// Which of two candidate hits a query keeps.
#[derive(Clone, Copy, Debug, PartialEq, Eq, Structural)]
pub enum Nearer {
    /// The first candidate.
    First,
    /// The second candidate.
    Second,
    /// There was no candidate.
    Neither,
}

/// The choice between two candidates, each given by the order key of its ray
/// parameter, or `None` where that side was not hit: the one with the smaller
/// parameter, the first where the parameters are equal, the only one where
/// one side was not hit, and neither where neither was hit.
pub open spec fn nearer_of(first: Option<i64>, second: Option<i64>) -> Nearer {
    match (first, second) {
        (Some(a), Some(b)) => if b < a {
            Nearer::Second
        } else {
            Nearer::First
        },
        (Some(_), None) => Nearer::First,
        (None, Some(_)) => Nearer::Second,
        (None, None) => Nearer::Neither,
    }
}

/// Chooses between the hits of two children of a node.
pub fn nearer(first: Option<i64>, second: Option<i64>) -> (choice: Nearer)
    ensures
        choice == nearer_of(first, second),
{
    match (first, second) {
        (Some(a), Some(b)) => {
            if b < a {
                Nearer::Second
            } else {
                Nearer::First
            }
        },
        (Some(_), None) => Nearer::First,
        (None, Some(_)) => Nearer::Second,
        (None, None) => Nearer::Neither,
    }
}

/// The ray parameter at which surface `found` is hit, where `hits` lists for
/// every surface the parameter of its hit, if it has one.
pub open spec fn parameter_at(hits: Seq<Option<i64>>, found: Option<usize>) -> Option<i64> {
    match found {
        Some(surface) => if surface < hits.len() {
            hits[surface as int]
        } else {
            None
        },
        None => None,
    }
}

/// `found` names a surface that is hit, and no surface among `candidates` is
/// hit at a smaller parameter; or `found` is `None` and no surface among
/// `candidates` is hit at all.
pub open spec fn is_nearest_among(
    hits: Seq<Option<i64>>,
    candidates: Seq<usize>,
    found: Option<usize>,
) -> bool {
    match found {
        Some(surface) => {
            &&& candidates.contains(surface)
            &&& surface < hits.len()
            &&& hits[surface as int] is Some
            &&& forall|k: int|
                0 <= k < candidates.len() && candidates[k] < hits.len() && (
                #[trigger] hits[candidates[k] as int]) is Some ==> hits[surface as int]->0
                    <= hits[candidates[k] as int]->0
        },
        None => forall|k: int|
            0 <= k < candidates.len() && candidates[k] < hits.len() ==> (
            #[trigger] hits[candidates[k] as int]) is None,
    }
}

} // verus!
