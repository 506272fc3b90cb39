use mosaic::pixel::{Pixel, TOLERANCE, distance_squared, within_tolerance};

fn px(r: u8, g: u8, b: u8) -> Pixel {
    Pixel { r, g, b }
}

#[test]
fn tolerance_is_reflexive_for_positive_tolerance() {
    let p = px(200, 30, 30);
    assert!(within_tolerance(p, p, TOLERANCE));
    assert!(within_tolerance(p, p, 1));
}

#[test]
fn tolerance_is_not_reflexive_at_zero() {
    let p = px(5, 5, 5);
    assert!(!within_tolerance(p, p, 0));
}

#[test]
fn tolerance_is_symmetric() {
    let a = px(10, 20, 30);
    let b = px(12, 18, 33);
    assert_eq!(within_tolerance(a, b, 4), within_tolerance(b, a, 4));
    assert_eq!(within_tolerance(a, b, 5), within_tolerance(b, a, 5));
}

#[test]
fn tolerance_is_strict_per_channel() {
    let a = px(0, 0, 0);
    assert!(within_tolerance(a, px(3, 3, 3), 4));
    assert!(!within_tolerance(a, px(4, 0, 0), 4));
    assert!(!within_tolerance(a, px(0, 4, 0), 4));
    assert!(!within_tolerance(a, px(0, 0, 4), 4));
}

#[test]
fn distance_squared_exact_values() {
    assert_eq!(0, distance_squared(px(9, 8, 7), px(9, 8, 7)));
    assert_eq!(1 + 4 + 9, distance_squared(px(1, 2, 3), px(2, 4, 6)));
    assert_eq!(3 * 255 * 255, distance_squared(px(0, 0, 0), px(255, 255, 255)));
}

#[test]
fn distance_squared_is_symmetric() {
    let a = px(200, 30, 30);
    let b = px(205, 28, 29);
    assert_eq!(distance_squared(a, b), distance_squared(b, a));
    assert_eq!(25 + 4 + 1, distance_squared(a, b));
}
