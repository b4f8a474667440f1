use crate::base::axis::Axis;
use crate::objects::hit::{is_nearest_among, nearer, nearer_of, parameter_at, Nearer};
use crate::objects::hittable_list::{lemma_scan_finds_nearest, scan_nearest};
use vstd::prelude::*;

verus! {

/// The low corner of a surface's bounding box: along each axis the smallest
/// coordinate of the box, as an order key.
#[derive(Clone, Copy, Debug, PartialEq, Eq, Structural)]
pub struct LowCorner {
    pub x: i64,
    pub y: i64,
    pub z: i64,
}

impl LowCorner {
    /// The coordinate along `axis`.
    pub open spec fn coordinate(self, axis: Axis) -> i64 {
        axis.choice(self.x, self.y, self.z)
    }

    /// The coordinate along `axis`.
    pub fn along(&self, axis: Axis) -> (key: i64)
        ensures
            key == self.coordinate(axis),
    {
        axis.pick(self.x, self.y, self.z)
    }
}

/// What the hierarchy reads of one surface: a number that names it and the
/// low corner of its bounding box.
#[derive(Clone, Copy, Debug, PartialEq, Eq, Structural)]
pub struct Entry {
    pub surface: usize,
    pub low: LowCorner,
}

/// The entries of `objects` whose coordinate along `axis` is `key`, in the
/// order in which `objects` lists them.
pub open spec fn with_key(objects: Seq<Entry>, axis: Axis, key: i64) -> Seq<Entry> {
    objects.filter(|e: Entry| e.low.coordinate(axis) == key)
}

/// `sorted` is `objects` in ascending order of the coordinate along `axis`,
/// with entries of equal coordinate in the order they had in `objects`.
pub open spec fn stable_sort_of(sorted: Seq<Entry>, objects: Seq<Entry>, axis: Axis) -> bool {
    &&& sorted.len() == objects.len()
    &&& sorted.to_multiset() == objects.to_multiset()
    &&& forall|i: int, j: int|
        0 <= i < j < sorted.len() ==> (#[trigger] sorted[i]).low.coordinate(axis) <= (
        #[trigger] sorted[j]).low.coordinate(axis)
    &&& forall|key: i64| #[trigger] with_key(sorted, axis, key) == with_key(objects, axis, key)
}

/// Calls `sort_by_key` of std's slices with the coordinate along `axis` as
/// the key. Its documentation says that it sorts the slice in ascending order
/// of the key and preserves the initial order of equal elements. So the
/// contract claims: the same entries come back, in ascending order of the
/// coordinate, and for every coordinate the entries that have it stand in the
/// order they had before.
#[verifier::external_body]
fn sort_along(objects: &mut Vec<Entry>, axis: Axis)
    ensures
        stable_sort_of(final(objects)@, old(objects)@, axis),
{
    objects.sort_by_key(|e| e.low.along(axis));
}

/// Puts the surfaces in stable ascending order along `axis` and cuts that
/// order at the middle index: the first half of the result holds the
/// `objects.len() / 2` entries that come first, the second half the rest.
pub fn split_along(objects: Vec<Entry>, axis: Axis) -> (halves: (Vec<Entry>, Vec<Entry>))
    ensures
        halves.0@.len() == objects@.len() / 2,
        halves.0@.len() + halves.1@.len() == objects@.len(),
        stable_sort_of(halves.0@ + halves.1@, objects@, axis),
{
    let mut lower = objects;
    sort_along(&mut lower, axis);
    let ghost sorted = lower@;
    let mid: usize = lower.len() / 2;
    let upper = lower.split_off(mid);
    assert(lower@ + upper@ =~= sorted);
    (lower, upper)
}

/// A bounding volume hierarchy over numbered surfaces: a binary tree whose
/// leaves name the surfaces.
#[derive(Debug, PartialEq, Eq)]
pub enum Bvh {
    Node { left: Box<Bvh>, right: Box<Bvh> },
    Leaf(usize),
}

impl Bvh {
    /// The surfaces at the leaves, from left to right.
    pub open spec fn leaves(self) -> Seq<usize>
        decreases self,
    {
        match self {
            Bvh::Leaf(surface) => seq![surface],
            Bvh::Node { left, right } => left.leaves() + right.leaves(),
        }
    }

    /// The number of nodes on the longest way from the root down to a leaf,
    /// the leaf not counted.
    pub open spec fn height(self) -> nat
        decreases self,
    {
        match self {
            Bvh::Leaf(_) => 0,
            Bvh::Node { left, right } => if left.height() >= right.height() {
                left.height() + 1
            } else {
                right.height() + 1
            },
        }
    }

    /// The tree is one that construction from `objects` can give. One surface
    /// gives a leaf. Two give a node whose left leaf is the second surface
    /// and whose right leaf is the first. Three or more are put in stable
    /// ascending order along some axis and cut at the middle index; the lower
    /// half gives the left child and the upper half the right child.
    pub open spec fn built_from(self, objects: Seq<Entry>) -> bool
        decreases objects.len(),
    {
        if objects.len() == 1 {
            self == Bvh::Leaf(objects[0].surface)
        } else if objects.len() == 2 {
            self == (Bvh::Node {
                left: Box::new(Bvh::Leaf(objects[1].surface)),
                right: Box::new(Bvh::Leaf(objects[0].surface)),
            })
        } else if objects.len() >= 3 {
            &&& self is Node
            &&& exists|axis: Axis, lower: Seq<Entry>, upper: Seq<Entry>|
                {
                    &&& lower.len() == objects.len() / 2
                    &&& lower.len() + upper.len() == objects.len()
                    &&& #[trigger] stable_sort_of(lower + upper, objects, axis)
                    &&& self->left.built_from(lower)
                    &&& self->right.built_from(upper)
                }
        } else {
            false
        }
    }

    /// Builds the hierarchy over `objects`, which must not be empty. At every
    /// node over three or more surfaces the axis of the split is drawn at
    /// random, so two calls may give different trees; whatever is drawn, the
    /// tree is one that `built_from` admits.
    pub fn new(objects: Vec<Entry>) -> (tree: Bvh)
        requires
            objects@.len() >= 1,
        ensures
            tree.built_from(objects@),
        decreases objects@.len(),
    {
        let axis = Axis::random();
        let size: usize = objects.len();
        if size == 1 {
            Bvh::Leaf(objects[0].surface)
        } else if size == 2 {
            Bvh::Node {
                left: Box::new(Bvh::Leaf(objects[1].surface)),
                right: Box::new(Bvh::Leaf(objects[0].surface)),
            }
        } else {
            let ghost given = objects@;
            let (lower, upper) = split_along(objects, axis);
            let ghost lower_seq = lower@;
            let ghost upper_seq = upper@;
            let left = Bvh::new(lower);
            let right = Bvh::new(upper);
            let tree = Bvh::Node { left: Box::new(left), right: Box::new(right) };
            assert(tree.built_from(given)) by {
                assert(stable_sort_of(lower_seq + upper_seq, given, axis));
            }
            tree
        }
    }

    /// The surfaces at the leaves, from left to right.
    pub fn collect_leaves(&self) -> (found: Vec<usize>)
        ensures
            found@ == self.leaves(),
        decreases self,
    {
        match self {
            Bvh::Leaf(surface) => {
                let mut found: Vec<usize> = Vec::new();
                found.push(*surface);
                assert(found@ =~= self.leaves());
                found
            },
            Bvh::Node { left, right } => {
                let mut found = left.collect_leaves();
                let mut more = right.collect_leaves();
                found.append(&mut more);
                found
            },
        }
    }

    /// What a query of the tree finds, where `hits` lists for every surface
    /// the order key of the ray parameter of its hit, if it has one. A leaf
    /// gives its surface where that is hit. A node asks both children and
    /// keeps the hit with the smaller parameter, the left one where the two
    /// are equal.
    pub open spec fn query(self, hits: Seq<Option<i64>>) -> Option<usize>
        decreases self,
    {
        match self {
            Bvh::Leaf(surface) => if surface < hits.len() && hits[surface as int] is Some {
                Some(surface)
            } else {
                None
            },
            Bvh::Node { left, right } => {
                let l = left.query(hits);
                let r = right.query(hits);
                match nearer_of(parameter_at(hits, l), parameter_at(hits, r)) {
                    Nearer::First => l,
                    Nearer::Second => r,
                    Nearer::Neither => None,
                }
            },
        }
    }

    /// Queries the tree for the nearest hit among its leaves. A leaf whose
    /// number `hits` does not list counts as not hit.
    pub fn hit(&self, hits: &Vec<Option<i64>>) -> (found: Option<usize>)
        ensures
            found == self.query(hits@),
            found matches Some(surface) ==> surface < hits@.len() && hits@[surface as int] is Some,
        decreases self,
    {
        match self {
            Bvh::Leaf(surface) => {
                if *surface < hits.len() && hits[*surface].is_some() {
                    Some(*surface)
                } else {
                    None
                }
            },
            Bvh::Node { left, right } => {
                let l = left.hit(hits);
                let r = right.hit(hits);
                let lt: Option<i64> = match l {
                    Some(surface) => hits[surface],
                    None => None,
                };
                let rt: Option<i64> = match r {
                    Some(surface) => hits[surface],
                    None => None,
                };
                match nearer(lt, rt) {
                    Nearer::First => l,
                    Nearer::Second => r,
                    Nearer::Neither => None,
                }
            },
        }
    }
}

/// A query of a tree finds a nearest hit among the surfaces at its leaves.
pub proof fn lemma_query_finds_nearest(tree: Bvh, hits: Seq<Option<i64>>)
    ensures
        is_nearest_among(hits, tree.leaves(), tree.query(hits)),
    decreases tree,
{
    match tree {
        Bvh::Leaf(surface) => {
            assert(tree.leaves()[0] == surface);
        },
        Bvh::Node { left, right } => {
            lemma_query_finds_nearest(*left, hits);
            lemma_query_finds_nearest(*right, hits);
            let ll = left.leaves();
            let rl = right.leaves();
            let all = tree.leaves();
            let l = left.query(hits);
            let r = right.query(hits);
            assert(forall|k: int| 0 <= k < ll.len() ==> all[k] == ll[k]);
            assert(forall|k: int| 0 <= k < rl.len() ==> all[ll.len() + k] == rl[k]);
            match tree.query(hits) {
                Some(surface) => {
                    assert(ll.contains(surface) || rl.contains(surface));
                    if ll.contains(surface) {
                        let k = choose|k: int| 0 <= k < ll.len() && ll[k] == surface;
                        assert(all[k] == surface);
                    } else {
                        let k = choose|k: int| 0 <= k < rl.len() && rl[k] == surface;
                        assert(all[ll.len() + k] == surface);
                    }
                    assert forall|k: int|
                        0 <= k < all.len() && all[k] < hits.len() && (#[trigger] hits[all[k] as int])
                            is Some implies hits[surface as int]->0 <= hits[all[k] as int]->0 by {
                        if k < ll.len() {
                            assert(ll[k] == all[k]);
                            assert(hits[ll[k] as int] is Some);
                        } else {
                            assert(rl[k - ll.len()] == all[k]);
                            assert(hits[rl[k - ll.len()] as int] is Some);
                        }
                    }
                },
                None => {
                    assert forall|k: int| 0 <= k < all.len() && all[k] < hits.len() implies (
                    #[trigger] hits[all[k] as int]) is None by {
                        if k < ll.len() {
                            assert(ll[k] == all[k]);
                            assert(hits[ll[k] as int] is None);
                        } else {
                            assert(rl[k - ll.len()] == all[k]);
                            assert(hits[rl[k - ll.len()] as int] is None);
                        }
                    }
                },
            }
        },
    }
}

/// A query of the hierarchy and a scan of the list agree on the ray
/// parameter of the nearest hit, whenever each surface of the list stands at
/// some leaf and each leaf names a surface of the list. They need not name
/// the same surface where several are hit at that parameter.
pub proof fn lemma_query_agrees_with_scan(tree: Bvh, hits: Seq<Option<i64>>)
    requires
        hits.len() <= usize::MAX + 1,
        forall|surface: usize| surface < hits.len() ==> #[trigger] tree.leaves().contains(surface),
        forall|k: int| 0 <= k < tree.leaves().len() ==> tree.leaves()[k] < hits.len(),
    ensures
        parameter_at(hits, tree.query(hits)) == parameter_at(hits, scan_nearest(hits)),
{
    let leaves = tree.leaves();
    let all = Seq::new(hits.len(), |i: int| i as usize);
    let by_tree = tree.query(hits);
    let by_scan = scan_nearest(hits);
    lemma_query_finds_nearest(tree, hits);
    lemma_scan_finds_nearest(hits);
    match (by_tree, by_scan) {
        (Some(a), Some(b)) => {
            // each is a candidate of the other search
            assert(all[a as int] == a);
            assert(hits[all[a as int] as int] is Some);
            assert(leaves.contains(b));
            let k = choose|k: int| 0 <= k < leaves.len() && leaves[k] == b;
            assert(hits[leaves[k] as int] is Some);
        },
        (Some(a), None) => {
            assert(all[a as int] == a);
            assert(hits[all[a as int] as int] is None);
        },
        (None, Some(b)) => {
            assert(leaves.contains(b));
            let k = choose|k: int| 0 <= k < leaves.len() && leaves[k] == b;
            assert(hits[leaves[k] as int] is None);
        },
        (None, None) => {},
    }
}

/// The numbers of the surfaces that `objects` lists, in its order.
pub open spec fn surfaces(objects: Seq<Entry>) -> Seq<usize> {
    objects.map_values(|e: Entry| e.surface)
}

/// Two lists of the same entries, in whatever order, name the same surfaces
/// equally often.
pub proof fn lemma_rearranged_surfaces(a: Seq<Entry>, b: Seq<Entry>)
    requires
        a.to_multiset() == b.to_multiset(),
    ensures
        surfaces(a).to_multiset() == surfaces(b).to_multiset(),
    decreases a.len(),
{
    broadcast use vstd::seq_lib::group_to_multiset_ensures;

    if a.len() == 0 {
        vstd::seq_lib::to_multiset_len(a);
        vstd::seq_lib::to_multiset_len(b);
        assert(b.len() == 0);
        assert(surfaces(a) =~= surfaces(b));
    } else {
        let x = a.last();
        assert(a.contains(x));
        vstd::seq_lib::to_multiset_contains(a, x);
        vstd::seq_lib::to_multiset_contains(b, x);
        assert(b.contains(x));
        let i = choose|i: int| 0 <= i < b.len() && b[i] == x;
        let a1 = a.drop_last();
        let b1 = b.remove(i);
        assert(a1 =~= a.remove(a.len() - 1));
        assert(a1.to_multiset() =~= b1.to_multiset());
        lemma_rearranged_surfaces(a1, b1);
        assert(surfaces(a) =~= surfaces(a1).push(x.surface));
        assert(surfaces(b) =~= surfaces(b1).insert(i, x.surface));
    }
}

/// The leaves of a tree built from `objects` name the surfaces that `objects`
/// lists, each as often as it is listed: construction loses no surface and
/// invents none.
pub proof fn lemma_leaves_are_the_surfaces(tree: Bvh, objects: Seq<Entry>)
    requires
        tree.built_from(objects),
    ensures
        tree.leaves().len() == objects.len(),
        tree.leaves().to_multiset() == surfaces(objects).to_multiset(),
    decreases objects.len(),
{
    broadcast use vstd::seq_lib::group_to_multiset_ensures;

    if objects.len() == 1 {
        assert(tree.leaves() =~= surfaces(objects));
    } else if objects.len() == 2 {
        let swapped = seq![objects[1], objects[0]];
        assert(tree.leaves() =~= surfaces(swapped)) by {
            reveal_with_fuel(Bvh::leaves, 3);
        }
        assert(swapped =~= seq![objects[1]].push(objects[0]));
        assert(objects =~= seq![objects[0]].push(objects[1]));
        assert(seq![objects[1]] =~= Seq::<Entry>::empty().push(objects[1]));
        assert(seq![objects[0]] =~= Seq::<Entry>::empty().push(objects[0]));
        assert(swapped.to_multiset() =~= objects.to_multiset());
        lemma_rearranged_surfaces(swapped, objects);
    } else {
        let (axis, lower, upper): (Axis, Seq<Entry>, Seq<Entry>) = choose|
            axis: Axis,
            lower: Seq<Entry>,
            upper: Seq<Entry>,
        |
            {
                &&& lower.len() == objects.len() / 2
                &&& lower.len() + upper.len() == objects.len()
                &&& #[trigger] stable_sort_of(lower + upper, objects, axis)
                &&& tree->left.built_from(lower)
                &&& tree->right.built_from(upper)
            };
        lemma_leaves_are_the_surfaces(*tree->left, lower);
        lemma_leaves_are_the_surfaces(*tree->right, upper);
        lemma_rearranged_surfaces(lower + upper, objects);
        assert(surfaces(lower + upper) =~= surfaces(lower) + surfaces(upper));
        vstd::seq_lib::lemma_multiset_commutative(surfaces(lower), surfaces(upper));
        vstd::seq_lib::lemma_multiset_commutative(tree->left.leaves(), tree->right.leaves());
    }
}

/// The split separates the surfaces along its axis: no entry of the upper
/// half has a smaller coordinate than an entry of the lower half.
pub proof fn lemma_split_separates(
    lower: Seq<Entry>,
    upper: Seq<Entry>,
    objects: Seq<Entry>,
    axis: Axis,
)
    requires
        stable_sort_of(lower + upper, objects, axis),
    ensures
        forall|i: int, j: int|
            0 <= i < lower.len() && 0 <= j < upper.len() ==> (#[trigger] lower[i]).low.coordinate(
                axis,
            ) <= (#[trigger] upper[j]).low.coordinate(axis),
{
    let sorted = lower + upper;
    assert forall|i: int, j: int| 0 <= i < lower.len() && 0 <= j < upper.len() implies (
    #[trigger] lower[i]).low.coordinate(axis) <= (#[trigger] upper[j]).low.coordinate(axis) by {
        assert(sorted[i] == lower[i]);
        assert(sorted[lower.len() + j] == upper[j]);
    }
}

/// For a list whose entries are numbered by their place, a query of a tree
/// built from it and a scan of the list agree on the ray parameter of the
/// nearest hit, whatever axes construction drew.
pub proof fn lemma_built_tree_agrees_with_scan(
    tree: Bvh,
    objects: Seq<Entry>,
    hits: Seq<Option<i64>>,
)
    requires
        tree.built_from(objects),
        objects.len() == hits.len(),
        forall|i: int| 0 <= i < objects.len() ==> (#[trigger] objects[i]).surface == i,
    ensures
        parameter_at(hits, tree.query(hits)) == parameter_at(hits, scan_nearest(hits)),
{
    broadcast use vstd::seq_lib::group_to_multiset_ensures;

    lemma_leaves_are_the_surfaces(tree, objects);
    let leaves = tree.leaves();
    let named = surfaces(objects);
    assert forall|surface: usize| surface < hits.len() implies #[trigger] leaves.contains(
        surface,
    ) by {
        assert(named[surface as int] == surface);
        assert(named.contains(surface));
        vstd::seq_lib::to_multiset_contains(named, surface);
        vstd::seq_lib::to_multiset_contains(leaves, surface);
    }
    assert forall|k: int| 0 <= k < leaves.len() implies leaves[k] < hits.len() by {
        assert(leaves.contains(leaves[k]));
        vstd::seq_lib::to_multiset_contains(leaves, leaves[k]);
        vstd::seq_lib::to_multiset_contains(named, leaves[k]);
        assert(named.contains(leaves[k]));
        let i = choose|i: int| 0 <= i < named.len() && named[i] == leaves[k];
        assert(objects[i].surface == i);
    }
    assert(objects.len() <= usize::MAX + 1) by {
        if objects.len() > 0 {
            let last = objects[objects.len() - 1];
            assert(last.surface == objects.len() - 1);
        }
    }
    lemma_query_agrees_with_scan(tree, hits);
}

/// Two to the power `exponent`.
pub open spec fn two_to(exponent: nat) -> nat
    decreases exponent,
{
    if exponent == 0 {
        1
    } else {
        2 * two_to((exponent - 1) as nat)
    }
}

/// A tree built from a list is shallow: its height is the logarithm of the
/// length of the list to base two, rounded up. Stated without a logarithm:
/// two to the height is less than twice the length.
pub proof fn lemma_built_tree_is_shallow(tree: Bvh, objects: Seq<Entry>)
    requires
        tree.built_from(objects),
    ensures
        two_to(tree.height()) < 2 * objects.len(),
    decreases objects.len(),
{
    if objects.len() == 1 {
    } else if objects.len() == 2 {
        reveal_with_fuel(Bvh::height, 3);
        reveal_with_fuel(two_to, 3);
    } else {
        let (axis, lower, upper): (Axis, Seq<Entry>, Seq<Entry>) = choose|
            axis: Axis,
            lower: Seq<Entry>,
            upper: Seq<Entry>,
        |
            {
                &&& lower.len() == objects.len() / 2
                &&& lower.len() + upper.len() == objects.len()
                &&& #[trigger] stable_sort_of(lower + upper, objects, axis)
                &&& tree->left.built_from(lower)
                &&& tree->right.built_from(upper)
            };
        let hl = tree->left.height();
        let hr = tree->right.height();
        lemma_built_tree_is_shallow(*tree->left, lower);
        lemma_built_tree_is_shallow(*tree->right, upper);
        lemma_power_of_two_parity(hl);
        lemma_power_of_two_parity(hr);
        assert(two_to(hl) < objects.len());
        assert(two_to(hr) < objects.len());
        assert(tree.height() == if hl >= hr {
            hl + 1
        } else {
            hr + 1
        });
    }
}

/// A power of two is one or even.
proof fn lemma_power_of_two_parity(exponent: nat)
    ensures
        two_to(exponent) == 1 || two_to(exponent) % 2 == 0,
{
}

} // verus!
