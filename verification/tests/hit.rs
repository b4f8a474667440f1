use rust_raytracer::objects::hit::{nearer, Nearer};
use rust_raytracer::objects::hittable_list::nearest_in_list;

#[test]
fn nearer_keeps_the_smaller_parameter() {
    assert_eq!(nearer(Some(3), Some(5)), Nearer::First);
    assert_eq!(nearer(Some(5), Some(3)), Nearer::Second);
    assert_eq!(nearer(Some(-7), Some(-2)), Nearer::First);
    assert_eq!(nearer(Some(i64::MAX), Some(i64::MIN)), Nearer::Second);
}

#[test]
fn nearer_prefers_the_first_of_equal_hits() {
    assert_eq!(nearer(Some(4), Some(4)), Nearer::First);
    assert_eq!(nearer(Some(0), Some(0)), Nearer::First);
}

#[test]
fn nearer_keeps_the_only_hit() {
    assert_eq!(nearer(Some(9), None), Nearer::First);
    assert_eq!(nearer(None, Some(9)), Nearer::Second);
}

#[test]
fn nearer_of_no_hits_is_neither() {
    assert_eq!(nearer(None, None), Nearer::Neither);
}

#[test]
fn scan_of_an_empty_list_finds_nothing() {
    assert_eq!(nearest_in_list(&vec![]), None);
}

#[test]
fn scan_of_missed_surfaces_finds_nothing() {
    assert_eq!(nearest_in_list(&vec![None, None, None]), None);
}

#[test]
fn scan_finds_the_smallest_parameter() {
    assert_eq!(nearest_in_list(&vec![Some(40), Some(10), None, Some(25)]), Some(1));
    assert_eq!(nearest_in_list(&vec![None, Some(-3)]), Some(1));
    assert_eq!(nearest_in_list(&vec![Some(7)]), Some(0));
}

#[test]
fn scan_keeps_the_first_of_equal_hits() {
    assert_eq!(nearest_in_list(&vec![Some(5), Some(2), Some(2), Some(9), Some(2)]), Some(1));
}
