use mosaic::hexcode::{anchor_from_key, anchor_key, parse_anchor_list};
use mosaic::pixel::Pixel;

fn px(r: u8, g: u8, b: u8) -> Pixel {
    Pixel { r, g, b }
}

#[test]
fn anchor_key_exact_values() {
    assert_eq!("c81e1e", anchor_key(px(200, 30, 30)).as_str());
    assert_eq!("cd1c1d", anchor_key(px(205, 28, 29)).as_str());
    assert_eq!("000000", anchor_key(px(0, 0, 0)).as_str());
    assert_eq!("ffffff", anchor_key(px(255, 255, 255)).as_str());
    assert_eq!("0a10ff", anchor_key(px(10, 16, 255)).as_str());
}

#[test]
fn anchor_from_key_exact_values() {
    assert_eq!(Some(px(200, 30, 30)), anchor_from_key("c81e1e"));
    assert_eq!(Some(px(205, 28, 29)), anchor_from_key("cd1c1d"));
    // upper and mixed case are accepted
    assert_eq!(Some(px(200, 30, 30)), anchor_from_key("C81E1E"));
    assert_eq!(Some(px(200, 30, 30)), anchor_from_key("c81E1e"));
}

#[test]
fn anchor_from_key_rejects_bad_keys() {
    assert_eq!(None, anchor_from_key(""));
    assert_eq!(None, anchor_from_key("c81e1")); // too short
    assert_eq!(None, anchor_from_key("c81e1e1e")); // too long
    assert_eq!(None, anchor_from_key("c81e1g")); // not a hex digit
    assert_eq!(None, anchor_from_key("c8 e1e")); // blank inside
}

#[test]
fn key_round_trip() {
    for p in [px(0, 0, 0), px(1, 2, 3), px(200, 30, 30), px(255, 254, 253)] {
        let key = anchor_key(p);
        assert_eq!(Some(p), anchor_from_key(key.as_str()));
    }
}

#[test]
fn parse_anchor_list_skips_invalid_keys() {
    let keys = vec![
        String::from("c81e1e"),
        String::from("nonsense"),
        String::from("cd1c1d"),
        String::from(""),
    ];
    let anchors = parse_anchor_list(&keys);
    assert_eq!(vec![px(200, 30, 30), px(205, 28, 29)], anchors);
}

#[test]
fn parse_anchor_list_keeps_enumeration_order() {
    let keys = vec![
        String::from("ffffff"),
        String::from("000000"),
        String::from("0a10ff"),
    ];
    let anchors = parse_anchor_list(&keys);
    assert_eq!(
        vec![px(255, 255, 255), px(0, 0, 0), px(10, 16, 255)],
        anchors
    );
}
