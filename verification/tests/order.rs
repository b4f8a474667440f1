use rust_raytracer::base::order::{order_key, INFINITY_BITS, SIGN_BIT};

fn key(x: f64) -> Option<i64> {
    order_key(x.to_bits())
}

#[test]
fn keys_of_positive_numbers_are_their_patterns() {
    assert_eq!(order_key(0), Some(0));
    assert_eq!(order_key(1), Some(1));
    assert_eq!(key(1.0), Some(0x3FF0_0000_0000_0000));
    assert_eq!(key(2.0), Some(0x4000_0000_0000_0000));
}

#[test]
fn keys_of_negative_numbers_are_negated_magnitudes() {
    assert_eq!(order_key(SIGN_BIT | 1), Some(-1));
    assert_eq!(key(-1.0), Some(-0x3FF0_0000_0000_0000));
    assert_eq!(key(-2.0), Some(-0x4000_0000_0000_0000));
}

#[test]
fn both_zeros_share_the_key_zero() {
    assert_eq!(key(0.0), Some(0));
    assert_eq!(key(-0.0), Some(0));
    assert_eq!(order_key(SIGN_BIT), Some(0));
}

#[test]
fn infinities_are_the_outermost_keys() {
    assert_eq!(key(f64::INFINITY), Some(0x7FF0_0000_0000_0000));
    assert_eq!(key(f64::NEG_INFINITY), Some(-0x7FF0_0000_0000_0000));
    assert_eq!(order_key(INFINITY_BITS), Some(0x7FF0_0000_0000_0000));
    assert!(key(f64::MAX) < key(f64::INFINITY));
    assert!(key(f64::NEG_INFINITY) < key(f64::MIN));
}

#[test]
fn nan_patterns_have_no_key() {
    assert_eq!(key(f64::NAN), None);
    assert_eq!(key(-f64::NAN), None);
    assert_eq!(order_key(INFINITY_BITS + 1), None);
    assert_eq!(order_key(SIGN_BIT | (INFINITY_BITS + 1)), None);
    assert_eq!(order_key(u64::MAX), None);
    assert_eq!(order_key(0x7FFF_FFFF_FFFF_FFFF), None);
}

#[test]
fn keys_order_numbers_as_the_numbers_are_ordered() {
    let numbers = [
        f64::NEG_INFINITY,
        -1.0e300,
        -2.5,
        -1.0,
        -1.0e-300,
        -5.0e-324,
        0.0,
        5.0e-324,
        1.0e-300,
        0.001,
        1.0,
        1.0000000000000002,
        4.0,
        1.0e300,
        f64::INFINITY,
    ];
    for i in 0..numbers.len() {
        for j in 0..numbers.len() {
            let a = key(numbers[i]).unwrap();
            let b = key(numbers[j]).unwrap();
            assert_eq!(a < b, numbers[i] < numbers[j]);
            assert_eq!(a == b, numbers[i] == numbers[j]);
        }
    }
}
