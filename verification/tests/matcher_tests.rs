use mosaic::matcher::closest_anchor;
use mosaic::pixel::{Pixel, distance_squared};

fn px(r: u8, g: u8, b: u8) -> Pixel {
    Pixel { r, g, b }
}

#[test]
fn empty_anchor_set_gives_no_match() {
    let anchors: Vec<Pixel> = Vec::new();
    assert_eq!(None, closest_anchor(&anchors, px(1, 2, 3)));
}

#[test]
fn exact_hit_returns_that_anchor_with_distance_zero() {
    let anchors = vec![px(0, 0, 0), px(50, 60, 70), px(255, 255, 255)];
    let q = px(50, 60, 70);
    let i = closest_anchor(&anchors, q).unwrap();
    assert_eq!(1, i);
    assert_eq!(0, distance_squared(q, anchors[i]));
}

#[test]
fn ties_keep_the_earliest_anchor() {
    let q = px(100, 0, 0);
    let anchors = vec![px(90, 0, 0), px(110, 0, 0)];
    assert_eq!(
        distance_squared(q, anchors[0]),
        distance_squared(q, anchors[1])
    );
    assert_eq!(Some(0), closest_anchor(&anchors, q));
    // consistent across repeated calls
    assert_eq!(Some(0), closest_anchor(&anchors, q));

    // swapping the enumeration order still keeps the earliest
    let swapped = vec![px(110, 0, 0), px(90, 0, 0)];
    assert_eq!(Some(0), closest_anchor(&swapped, q));
}

#[test]
fn nearest_anchor_wins() {
    let anchors = vec![px(0, 0, 0), px(200, 200, 200), px(120, 120, 120)];
    assert_eq!(Some(2), closest_anchor(&anchors, px(110, 115, 118)));
    assert_eq!(Some(0), closest_anchor(&anchors, px(10, 5, 0)));
    assert_eq!(Some(1), closest_anchor(&anchors, px(210, 190, 205)));
}
