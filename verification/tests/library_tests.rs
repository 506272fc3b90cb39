use mosaic::error::SynthError;
use mosaic::grid::ImageGrid;
use mosaic::library::{ColorSample, SampleLibrary};
use mosaic::pixel::Pixel;

fn px(r: u8, g: u8, b: u8) -> Pixel {
    Pixel { r, g, b }
}

fn solid_tile(w: usize, h: usize, p: Pixel) -> ImageGrid {
    ImageGrid::new(w, h, vec![p; w * h]).unwrap()
}

#[test]
fn resolution_is_idempotent() {
    let mut lib = SampleLibrary::new();
    let a = px(1, 2, 3);
    let tile = solid_tile(2, 2, px(9, 9, 9));
    // miss: acquisition stores the tile
    assert!(lib.insert_if_absent(a, tile).is_ok());
    // two hits return pixel-identical tiles
    let first = lib.lookup(a).unwrap().pixels.clone();
    let second = lib.lookup(a).unwrap().pixels.clone();
    assert_eq!(first, second);
    assert_eq!(vec![px(9, 9, 9); 4], first);
}

#[test]
fn insert_is_once_per_key() {
    let mut lib = SampleLibrary::new();
    let a = px(7, 7, 7);
    assert!(lib.insert_if_absent(a, solid_tile(1, 1, px(1, 1, 1))).is_ok());
    // a second insert under the same anchor changes nothing
    assert!(lib.insert_if_absent(a, solid_tile(1, 1, px(2, 2, 2))).is_ok());
    assert_eq!(1, lib.sample_count());
    assert_eq!(px(1, 1, 1), lib.lookup(a).unwrap().pixels[0]);
}

#[test]
fn zero_area_tile_is_refused() {
    let mut lib = SampleLibrary::new();
    let a = px(3, 3, 3);
    let empty = ImageGrid::new(0, 0, Vec::new()).unwrap();
    assert_eq!(
        Err(SynthError::InvalidImageDimensions),
        lib.insert_if_absent(a, empty)
    );
    assert_eq!(0, lib.sample_count());
    assert!(lib.lookup(a).is_none());
}

#[test]
fn failed_anchors_are_remembered_once() {
    let mut lib = SampleLibrary::new();
    let a = px(4, 5, 6);
    assert!(!lib.is_failed(a));
    lib.mark_failed(a);
    lib.mark_failed(a);
    assert!(lib.is_failed(a));
    assert_eq!(1, lib.failed_count());
    assert!(!lib.is_failed(px(6, 5, 4)));
}

#[test]
fn failed_anchor_is_not_inserted() {
    let mut lib = SampleLibrary::new();
    let a = px(9, 9, 9);
    lib.mark_failed(a);
    assert_eq!(
        Err(SynthError::SampleAcquisitionFailed),
        lib.insert_if_absent(a, solid_tile(1, 1, px(1, 1, 1)))
    );
    assert_eq!(0, lib.sample_count());
    assert!(lib.is_failed(a));
}

#[test]
fn stored_anchor_is_never_marked_failed() {
    let mut lib = SampleLibrary::new();
    let a = px(2, 4, 8);
    lib.insert_if_absent(a, solid_tile(1, 1, px(7, 7, 7))).unwrap();
    lib.mark_failed(a);
    assert!(!lib.is_failed(a));
    assert_eq!(0, lib.failed_count());
    assert!(lib.lookup(a).is_some());
}

#[test]
fn sample_identity_is_the_anchor() {
    let s1 = ColorSample {
        anchor: px(1, 1, 1),
        tile: solid_tile(1, 1, px(10, 10, 10)),
    };
    let s2 = ColorSample {
        anchor: px(1, 1, 1),
        tile: solid_tile(2, 2, px(20, 20, 20)),
    };
    let s3 = ColorSample {
        anchor: px(2, 1, 1),
        tile: solid_tile(1, 1, px(10, 10, 10)),
    };
    assert!(s1 == s2);
    assert!(s1 != s3);
}
