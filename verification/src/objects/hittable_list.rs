use crate::objects::hit::is_nearest_among;
use vstd::prelude::*;

verus! {

/// What a scan of a list of surfaces in their order finds: the surface that
/// is hit at the smallest ray parameter, and of several that share it the one
/// that comes first. `hits` lists for every surface the order key of the
/// parameter of its hit, if it has one.
pub open spec fn scan_nearest(hits: Seq<Option<i64>>) -> Option<usize>
    decreases hits.len(),
{
    if hits.len() == 0 {
        None
    } else {
        let before = scan_nearest(hits.drop_last());
        let last = (hits.len() - 1) as usize;
        match (before, hits.last()) {
            (_, None) => before,
            (None, Some(_)) => Some(last),
            (Some(best), Some(t)) => if t < hits[best as int]->0 {
                Some(last)
            } else {
                before
            },
        }
    }
}

/// Scans the surfaces in their order and keeps a hit only where its parameter
/// lies below the closest one so far.
pub fn nearest_in_list(hits: &Vec<Option<i64>>) -> (found: Option<usize>)
    ensures
        found == scan_nearest(hits@),
{
    let mut closest: Option<usize> = None;
    let mut closest_so_far: i64 = 0;
    let mut i: usize = 0;
    while i < hits.len()
        invariant
            0 <= i <= hits.len(),
            closest == scan_nearest(hits@.take(i as int)),
            closest matches Some(best) ==> best < i && hits[best as int] == Some(closest_so_far),
        decreases hits.len() - i,
    {
        proof {
            assert(hits@.take(i + 1).drop_last() =~= hits@.take(i as int));
        }
        match hits[i] {
            Some(t) => {
                if closest.is_none() || t < closest_so_far {
                    closest_so_far = t;
                    closest = Some(i);
                }
            },
            None => {},
        }
        i = i + 1;
    }
    proof {
        assert(hits@.take(hits.len() as int) =~= hits@);
    }
    closest
}

/// The scan finds a nearest hit among all surfaces of the list: the surface
/// it names is hit, no surface is hit at a smaller parameter, and it names
/// none only where no surface is hit.
pub proof fn lemma_scan_finds_nearest(hits: Seq<Option<i64>>)
    requires
        hits.len() <= usize::MAX + 1,
    ensures
        is_nearest_among(hits, Seq::new(hits.len(), |i: int| i as usize), scan_nearest(hits)),
    decreases hits.len(),
{
    let all = Seq::new(hits.len(), |i: int| i as usize);
    if hits.len() > 0 {
        let shorter = hits.drop_last();
        let fewer = Seq::new(shorter.len(), |i: int| i as usize);
        lemma_scan_finds_nearest(shorter);
        let before = scan_nearest(shorter);
        let found = scan_nearest(hits);
        let last = (hits.len() - 1) as usize;
        assert(forall|k: int| 0 <= k < fewer.len() ==> fewer[k] == all[k]);
        assert(forall|k: int| 0 <= k < shorter.len() ==> shorter[k] == hits[k]);
        match found {
            Some(surface) => {
                assert(all[surface as int] == surface);
                assert forall|k: int|
                    0 <= k < all.len() && all[k] < hits.len() && (#[trigger] hits[all[k] as int])
                        is Some implies hits[surface as int]->0 <= hits[all[k] as int]->0 by {
                    if k < fewer.len() {
                        assert(fewer[k] == k);
                        assert(shorter[fewer[k] as int] is Some);
                    }
                }
            },
            None => {
                assert forall|k: int| 0 <= k < all.len() && all[k] < hits.len() implies (
                #[trigger] hits[all[k] as int]) is None by {
                    if k < fewer.len() {
                        assert(fewer[k] == k);
                        assert(shorter[fewer[k] as int] is None);
                    }
                }
            },
        }
    }
}

} // verus!
