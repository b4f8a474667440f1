use rust_raytracer::base::order::order_key;
use rust_raytracer::base::Axis;
use rust_raytracer::objects::bvh::split_along;
use rust_raytracer::objects::hittable_list::nearest_in_list;
use rust_raytracer::objects::{Bvh, Entry, LowCorner};

fn entry(surface: usize, x: i64, y: i64, z: i64) -> Entry {
    Entry { surface, low: LowCorner { x, y, z } }
}

fn leaf(surface: usize) -> Bvh {
    Bvh::Leaf(surface)
}

fn node(left: Bvh, right: Bvh) -> Bvh {
    Bvh::Node { left: Box::new(left), right: Box::new(right) }
}

fn leaf_count(tree: &Bvh) -> usize {
    match tree {
        Bvh::Leaf(_) => 1,
        Bvh::Node { left, right } => leaf_count(left) + leaf_count(right),
    }
}

fn height(tree: &Bvh) -> u32 {
    match tree {
        Bvh::Leaf(_) => 0,
        Bvh::Node { left, right } => 1 + height(left).max(height(right)),
    }
}

// Some fixed, scattered corners: no order along one axis is the order along
// another.
fn scattered(count: usize) -> Vec<Entry> {
    let mut entries = Vec::new();
    for i in 0..count {
        let n = i as i64;
        entries.push(entry(i, (n * 37) % 101, (n * 53) % 89 - 40, -((n * 11) % 7)));
    }
    entries
}

// Checks the shape that construction promises, node by node: the halves have
// the sizes of a cut at the middle, and along some axis no corner of the
// lower half lies above one of the upper half.
fn check_shape(tree: &Bvh, corners: &Vec<Entry>) {
    if let Bvh::Node { left, right } = tree {
        let lower = left.collect_leaves();
        let upper = right.collect_leaves();
        let size = lower.len() + upper.len();
        assert_eq!(lower.len(), size / 2);
        if size > 2 {
            let separated = Axis::AXES.iter().any(|axis| {
                lower.iter().all(|a| {
                    upper.iter().all(|b| corners[*a].low.along(*axis) <= corners[*b].low.along(*axis))
                })
            });
            assert!(separated);
        }
        check_shape(left, corners);
        check_shape(right, corners);
    }
}

#[test]
fn low_corner_reads_along_each_axis() {
    let corner = LowCorner { x: -4, y: 0, z: 9 };
    assert_eq!(corner.along(Axis::X), -4);
    assert_eq!(corner.along(Axis::Y), 0);
    assert_eq!(corner.along(Axis::Z), 9);
}

#[test]
fn one_surface_gives_a_leaf() {
    assert_eq!(Bvh::new(vec![entry(7, 1, 2, 3)]), leaf(7));
}

#[test]
fn two_surfaces_give_a_node_with_the_second_on_the_left() {
    let tree = Bvh::new(vec![entry(0, 5, 5, 5), entry(1, -5, -5, -5)]);
    assert_eq!(tree, node(leaf(1), leaf(0)));
    let tree = Bvh::new(vec![entry(10, -5, -5, -5), entry(20, 5, 5, 5)]);
    assert_eq!(tree, node(leaf(20), leaf(10)));
}

#[test]
fn three_surfaces_in_line_split_one_against_two() {
    // The same order along every axis, so the drawn axis does not matter.
    let tree = Bvh::new(vec![entry(0, 30, 30, 30), entry(1, 10, 10, 10), entry(2, 20, 20, 20)]);
    assert_eq!(tree, node(leaf(1), node(leaf(0), leaf(2))));
}

#[test]
fn five_surfaces_in_line_give_the_expected_tree() {
    let entries = vec![
        entry(0, 50, 50, 50),
        entry(1, 40, 40, 40),
        entry(2, 30, 30, 30),
        entry(3, 20, 20, 20),
        entry(4, 10, 10, 10),
    ];
    // Sorted: 4 3 | 2 1 0. Two surfaces swap, three split one against two.
    let expected = node(node(leaf(3), leaf(4)), node(leaf(2), node(leaf(0), leaf(1))));
    assert_eq!(Bvh::new(entries), expected);
}

#[test]
fn equal_corners_keep_their_order() {
    let entries = vec![entry(0, 1, 1, 1), entry(1, 1, 1, 1), entry(2, 1, 1, 1), entry(3, 1, 1, 1)];
    // Nothing moves in the sort: 0 1 | 2 3, and each pair swaps.
    assert_eq!(Bvh::new(entries), node(node(leaf(1), leaf(0)), node(leaf(3), leaf(2))));
}

#[test]
fn leaves_are_a_rearrangement_of_the_surfaces() {
    for count in [1usize, 2, 3, 4, 7, 16, 33, 100] {
        let entries = scattered(count);
        let tree = Bvh::new(entries);
        let mut leaves = tree.collect_leaves();
        assert_eq!(leaves.len(), count);
        leaves.sort();
        let all: Vec<usize> = (0..count).collect();
        assert_eq!(leaves, all);
    }
}

#[test]
fn leaves_keep_repeated_surfaces() {
    let entries = vec![entry(9, 3, 0, 0), entry(9, 1, 0, 0), entry(4, 2, 0, 0), entry(9, 0, 0, 0)];
    let mut leaves = Bvh::new(entries).collect_leaves();
    leaves.sort();
    assert_eq!(leaves, vec![4, 9, 9, 9]);
}

#[test]
fn every_node_is_cut_in_the_middle_and_separated() {
    for count in [3usize, 4, 5, 8, 13, 64, 127] {
        let entries = scattered(count);
        let tree = Bvh::new(entries.clone());
        assert_eq!(leaf_count(&tree), count);
        check_shape(&tree, &entries);
    }
}

#[test]
fn built_trees_are_shallow() {
    for count in 1usize..=70 {
        let tree = Bvh::new(scattered(count));
        let h = height(&tree);
        assert!((1u64 << h) < 2 * count as u64);
        assert!((1u64 << h) >= count as u64);
    }
}

#[test]
fn collect_leaves_goes_from_left_to_right() {
    let tree = node(node(leaf(5), leaf(2)), node(leaf(8), node(leaf(1), leaf(3))));
    assert_eq!(tree.collect_leaves(), vec![5, 2, 8, 1, 3]);
    assert_eq!(leaf(6).collect_leaves(), vec![6]);
}

#[test]
fn split_sorts_along_the_axis_and_cuts_in_the_middle() {
    let entries = vec![
        entry(0, 9, 1, 5),
        entry(1, 3, 4, 5),
        entry(2, 7, 2, 5),
        entry(3, 1, 3, 5),
        entry(4, 5, 0, 5),
    ];
    let (lower, upper) = split_along(entries.clone(), Axis::X);
    assert_eq!(lower, vec![entries[3], entries[1]]);
    assert_eq!(upper, vec![entries[4], entries[2], entries[0]]);
    let (lower, upper) = split_along(entries.clone(), Axis::Y);
    assert_eq!(lower, vec![entries[4], entries[0]]);
    assert_eq!(upper, vec![entries[2], entries[3], entries[1]]);
}

#[test]
fn split_keeps_the_order_of_equal_coordinates() {
    let entries = vec![
        entry(0, 9, 1, 5),
        entry(1, 3, 4, 5),
        entry(2, 7, 2, 5),
        entry(3, 1, 3, 5),
        entry(4, 5, 0, 5),
    ];
    let (lower, upper) = split_along(entries.clone(), Axis::Z);
    assert_eq!(lower, vec![entries[0], entries[1]]);
    assert_eq!(upper, vec![entries[2], entries[3], entries[4]]);
    let ties = vec![entry(0, 2, 0, 0), entry(1, 1, 0, 0), entry(2, 2, 0, 0), entry(3, 1, 0, 0)];
    let (lower, upper) = split_along(ties.clone(), Axis::X);
    assert_eq!(lower, vec![ties[1], ties[3]]);
    assert_eq!(upper, vec![ties[0], ties[2]]);
}

#[test]
fn split_of_short_lists() {
    let (lower, upper) = split_along(vec![], Axis::X);
    assert!(lower.is_empty() && upper.is_empty());
    let one = vec![entry(3, 1, 1, 1)];
    let (lower, upper) = split_along(one.clone(), Axis::Y);
    assert!(lower.is_empty());
    assert_eq!(upper, one);
}

#[test]
fn split_orders_negative_coordinates_below_positive_ones() {
    let keys: Vec<i64> = [2.5_f64, -1.0, 0.0, -1.0e-3, 1.0e9, f64::NEG_INFINITY]
        .iter()
        .map(|x| order_key(x.to_bits()).unwrap())
        .collect();
    let entries: Vec<Entry> = keys.iter().enumerate().map(|(i, k)| entry(i, *k, 0, 0)).collect();
    let (lower, upper) = split_along(entries, Axis::X);
    let order: Vec<usize> = lower.iter().chain(upper.iter()).map(|e| e.surface).collect();
    assert_eq!(order, vec![5, 1, 3, 2, 0, 4]);
    assert_eq!(lower.len(), 3);
}

#[test]
fn query_of_a_leaf() {
    assert_eq!(leaf(0).hit(&vec![Some(12)]), Some(0));
    assert_eq!(leaf(0).hit(&vec![None]), None);
    assert_eq!(leaf(1).hit(&vec![Some(3), Some(4)]), Some(1));
}

#[test]
fn query_counts_an_unlisted_leaf_as_missed() {
    assert_eq!(leaf(5).hit(&vec![Some(1)]), None);
    assert_eq!(node(leaf(5), leaf(0)).hit(&vec![Some(1)]), Some(0));
}

#[test]
fn query_handles_the_four_cases_of_a_node() {
    let tree = node(leaf(0), leaf(1));
    assert_eq!(tree.hit(&vec![Some(3), Some(8)]), Some(0));
    assert_eq!(tree.hit(&vec![Some(8), Some(3)]), Some(1));
    assert_eq!(tree.hit(&vec![Some(8), None]), Some(0));
    assert_eq!(tree.hit(&vec![None, Some(3)]), Some(1));
    assert_eq!(tree.hit(&vec![None, None]), None);
}

#[test]
fn query_prefers_the_left_of_equal_hits() {
    assert_eq!(node(leaf(0), leaf(1)).hit(&vec![Some(5), Some(5)]), Some(0));
    assert_eq!(node(leaf(1), leaf(0)).hit(&vec![Some(5), Some(5)]), Some(1));
}

#[test]
fn query_finds_the_nearest_in_a_deep_tree() {
    let tree = node(node(leaf(3), leaf(4)), node(leaf(2), node(leaf(0), leaf(1))));
    assert_eq!(tree.hit(&vec![Some(9), Some(2), Some(7), None, Some(4)]), Some(1));
    assert_eq!(tree.hit(&vec![None, None, None, None, Some(4)]), Some(4));
    assert_eq!(tree.hit(&vec![None, None, None, None, None]), None);
}

#[test]
fn query_and_scan_agree_on_the_nearest_parameter() {
    for count in [1usize, 2, 3, 5, 8, 21, 50] {
        let tree = Bvh::new(scattered(count));
        for round in 0..20i64 {
            let hits: Vec<Option<i64>> = (0..count as i64)
                .map(|i| {
                    let v = (i * 7919 + round * 104729) % 23;
                    if v < 9 {
                        None
                    } else {
                        Some(v - 15)
                    }
                })
                .collect();
            let by_tree = tree.hit(&hits).map(|s| hits[s]);
            let by_scan = nearest_in_list(&hits).map(|s| hits[s]);
            assert_eq!(by_tree, by_scan);
            let least = hits.iter().flatten().min().copied();
            assert_eq!(by_scan.flatten(), least);
        }
    }
}
