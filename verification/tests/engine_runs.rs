use mosaic::error::SynthError;
use mosaic::grid::ImageGrid;
use mosaic::library::SampleLibrary;
use mosaic::pixel::Pixel;
use mosaic::synth::{StepResult, Synthesizer, synthesize_resident};

fn px(r: u8, g: u8, b: u8) -> Pixel {
    Pixel { r, g, b }
}

fn solid(w: usize, h: usize, p: Pixel) -> ImageGrid {
    ImageGrid::new(w, h, vec![p; w * h]).unwrap()
}

/// Drives a run to the end; every acquisition request is answered from
/// `resident` or reported failed.  Returns the number of requests seen.
fn run_with(s: &mut Synthesizer, resident: &[(Pixel, ImageGrid)]) -> usize {
    let mut requests = 0;
    loop {
        match s.step() {
            StepResult::Finished => return requests,
            StepResult::NeedSample(a) => {
                requests += 1;
                match resident.iter().find(|(anchor, _)| *anchor == a) {
                    Some((_, tile)) => {
                        s.provide_sample(tile.clone()).unwrap();
                    }
                    None => s.acquisition_failed(),
                }
            }
            StepResult::Progress | StepResult::Skipped(_) => {}
        }
    }
}

#[test]
fn quantized_image_is_tiled_by_wrapping() {
    // a 4x4 quantized image entirely in one color, one sample anchor with
    // a 2x2 tile: the output is the tile repeated via modulo over all 16
    // coordinates.
    let a = px(10, 10, 10);
    let b = px(20, 20, 20);
    let c = px(30, 30, 30);
    let d = px(40, 40, 40);
    let tile = ImageGrid::new(2, 2, vec![a, b, c, d]).unwrap();
    let anchor = px(205, 28, 29);
    let mut lib = SampleLibrary::new();
    lib.insert_if_absent(anchor, tile).unwrap();

    let source = solid(4, 4, px(200, 30, 30));
    let mut s = Synthesizer::new(source, vec![anchor], lib).unwrap();
    let requests = run_with(&mut s, &[]);
    assert_eq!(0, requests);

    let expect = [[a, b, a, b], [c, d, c, d], [a, b, a, b], [c, d, c, d]];
    for y in 0..4 {
        for x in 0..4 {
            assert_eq!(Some(expect[y][x]), s.result().get(x, y));
        }
    }
}

#[test]
fn rectangular_tile_wraps_by_each_dimension() {
    let t: Vec<Pixel> = (0..6u8).map(|i| px(i * 10, 0, 0)).collect();
    // row-major 3x2 tile: row 0 = t[0..3], row 1 = t[3..6]
    let tile = ImageGrid::new(3, 2, t.clone()).unwrap();
    let anchor = px(1, 1, 1);
    let mut lib = SampleLibrary::new();
    lib.insert_if_absent(anchor, tile).unwrap();
    let source = solid(4, 3, px(1, 1, 1));
    let mut s = Synthesizer::new(source, vec![anchor], lib).unwrap();
    run_with(&mut s, &[]);
    for y in 0..3 {
        for x in 0..4 {
            assert_eq!(Some(t[(y % 2) * 3 + (x % 3)]), s.result().get(x, y));
        }
    }
}

#[test]
fn failed_region_stays_unfilled() {
    // two disjoint regions of different colors; the second region's
    // matched anchor has no usable sample, so the first region is fully
    // filled and the second fully unfilled.
    let left = px(10, 10, 10);
    let right = px(200, 200, 200);
    let mut pixels = Vec::new();
    for _y in 0..2 {
        pixels.extend([left, left, right, right]);
    }
    let source = ImageGrid::new(4, 2, pixels).unwrap();

    let tile = solid(1, 1, px(99, 99, 99));
    let mut s = Synthesizer::new(source, vec![left, right], SampleLibrary::new()).unwrap();
    let requests = run_with(&mut s, &[(left, tile)]);
    assert_eq!(2, requests);

    for y in 0..2 {
        for x in 0..2 {
            assert_eq!(Some(px(99, 99, 99)), s.result().get(x, y));
        }
        for x in 2..4 {
            assert_eq!(None, s.result().get(x, y));
        }
    }
}

#[test]
fn one_acquisition_per_anchor() {
    // two pixels need the same missing anchor within one fill; the run
    // asks for it exactly once.
    let color = px(50, 60, 70);
    let source = solid(2, 1, color);
    let tile = solid(1, 1, px(1, 2, 3));
    let mut s = Synthesizer::new(source, vec![color], SampleLibrary::new()).unwrap();
    assert!(!s.is_done());
    let requests = run_with(&mut s, &[(color, tile)]);
    assert!(s.is_done());
    assert_eq!(1, requests);
    assert_eq!(1, s.request_count());
    assert_eq!(Some(px(1, 2, 3)), s.result().get(0, 0));
    assert_eq!(Some(px(1, 2, 3)), s.result().get(1, 0));
}

#[test]
fn zero_area_source_is_fatal() {
    let empty = ImageGrid::new(0, 0, Vec::new()).unwrap();
    match Synthesizer::new(empty, Vec::new(), SampleLibrary::new()) {
        Err(e) => assert_eq!(SynthError::InvalidImageDimensions, e),
        Ok(_) => panic!("a zero-area source must be refused"),
    }
    let flat = ImageGrid::new(3, 0, Vec::new()).unwrap();
    assert!(Synthesizer::new(flat, Vec::new(), SampleLibrary::new()).is_err());
}

#[test]
fn empty_anchor_set_skips_every_pixel() {
    let source = solid(2, 2, px(77, 77, 77));
    let mut s = Synthesizer::new(source, Vec::new(), SampleLibrary::new()).unwrap();
    let mut skips = 0;
    loop {
        match s.step() {
            StepResult::Finished => break,
            StepResult::Skipped(e) => {
                assert_eq!(SynthError::NoMatchingSample, e);
                skips += 1;
            }
            StepResult::Progress => panic!("nothing can be filled without anchors"),
            StepResult::NeedSample(_) => panic!("nothing can be requested without anchors"),
        }
    }
    assert_eq!(4, skips);
    for y in 0..2 {
        for x in 0..2 {
            assert_eq!(None, s.result().get(x, y));
        }
    }
}

#[test]
fn failed_acquisition_is_reported_and_not_retried() {
    let color = px(5, 6, 7);
    let source = solid(2, 2, color);
    let mut s = Synthesizer::new(source, vec![color], SampleLibrary::new()).unwrap();
    let mut failures = 0;
    let mut requests = 0;
    loop {
        match s.step() {
            StepResult::Finished => break,
            StepResult::NeedSample(a) => {
                assert_eq!(color, a);
                requests += 1;
                s.acquisition_failed();
            }
            StepResult::Skipped(e) => {
                assert_eq!(SynthError::SampleAcquisitionFailed, e);
                failures += 1;
            }
            StepResult::Progress => panic!("no pixel can be filled"),
        }
    }
    assert_eq!(1, requests);
    assert_eq!(4, failures);
}

#[test]
fn zero_area_tile_counts_as_failed_acquisition() {
    let color = px(8, 8, 8);
    let source = solid(1, 1, color);
    let mut s = Synthesizer::new(source, vec![color], SampleLibrary::new()).unwrap();
    match s.step() {
        StepResult::NeedSample(a) => {
            let empty = ImageGrid::new(0, 3, Vec::new()).unwrap();
            assert_eq!(Err(SynthError::InvalidImageDimensions), s.provide_sample(empty));
            assert_eq!(color, a);
        }
        _ => panic!("the tile must be requested first"),
    }
    match s.step() {
        StepResult::Skipped(e) => assert_eq!(SynthError::SampleAcquisitionFailed, e),
        _ => panic!("the anchor must now be unusable"),
    }
}

#[test]
fn column_and_row_zero_are_filled() {
    // the boundary choice: neighbors at column 0 and row 0 are reachable,
    // not only as seeds.
    let color = px(120, 130, 140);
    let source = solid(3, 3, color);
    let tile = solid(1, 1, px(250, 0, 0));
    let mut lib = SampleLibrary::new();
    lib.insert_if_absent(color, tile).unwrap();
    let mut s = Synthesizer::new(source, vec![color], lib).unwrap();
    run_with(&mut s, &[]);
    for y in 0..3 {
        for x in 0..3 {
            assert_eq!(Some(px(250, 0, 0)), s.result().get(x, y));
        }
    }
}

#[test]
fn true_black_pixels_are_filled_not_skipped() {
    // black is an ordinary color, not a consumption marker
    let black = px(0, 0, 0);
    let source = solid(2, 2, black);
    let tile = solid(1, 1, px(33, 44, 55));
    let mut lib = SampleLibrary::new();
    lib.insert_if_absent(black, tile).unwrap();
    let mut s = Synthesizer::new(source, vec![black], lib).unwrap();
    run_with(&mut s, &[]);
    for y in 0..2 {
        for x in 0..2 {
            assert_eq!(Some(px(33, 44, 55)), s.result().get(x, y));
        }
    }
}

#[test]
fn resident_run_fills_what_it_can() {
    // left region's tile is resident; the right region's anchor is not,
    // and a synchronous run treats it as failed
    let left = px(10, 10, 10);
    let right = px(200, 200, 200);
    let source = ImageGrid::new(2, 1, vec![left, right]).unwrap();
    let mut lib = SampleLibrary::new();
    lib.insert_if_absent(left, solid(1, 1, px(5, 5, 5))).unwrap();
    let canvas = synthesize_resident(source, vec![left, right], lib).unwrap();
    assert_eq!(Some(px(5, 5, 5)), canvas.get(0, 0));
    assert_eq!(None, canvas.get(1, 0));
}

#[test]
fn fully_resident_palette_fills_every_pixel() {
    // two regions, both anchors resident: no pixel stays unfilled
    let left = px(10, 10, 10);
    let right = px(200, 200, 200);
    let mut pixels = Vec::new();
    for _y in 0..3 {
        pixels.extend([left, left, right]);
    }
    let source = ImageGrid::new(3, 3, pixels).unwrap();
    let mut lib = SampleLibrary::new();
    lib.insert_if_absent(left, solid(1, 1, px(1, 0, 0))).unwrap();
    lib.insert_if_absent(right, solid(1, 1, px(0, 1, 0))).unwrap();
    let canvas = synthesize_resident(source, vec![left, right], lib).unwrap();
    for y in 0..3 {
        for x in 0..2 {
            assert_eq!(Some(px(1, 0, 0)), canvas.get(x, y));
        }
        assert_eq!(Some(px(0, 1, 0)), canvas.get(2, y));
    }
}

#[test]
fn resident_run_refuses_zero_area() {
    let empty = ImageGrid::new(4, 0, Vec::new()).unwrap();
    assert_eq!(
        Err(SynthError::InvalidImageDimensions),
        synthesize_resident(empty, Vec::new(), SampleLibrary::new()).map(|_| ())
    );
}

#[test]
fn resident_run_without_anchors_fills_nothing() {
    let source = solid(3, 2, px(1, 2, 3));
    let canvas = synthesize_resident(source, Vec::new(), SampleLibrary::new()).unwrap();
    for y in 0..2 {
        for x in 0..3 {
            assert_eq!(None, canvas.get(x, y));
        }
    }
}

#[test]
fn tolerance_splits_regions() {
    // neighboring pixels more than the tolerance apart belong to
    // different regions and draw from different anchors' tiles
    let dark = px(100, 100, 100);
    let light = px(106, 106, 106);
    let source = ImageGrid::new(2, 1, vec![dark, light]).unwrap();
    let dark_tile = solid(1, 1, px(1, 0, 0));
    let light_tile = solid(1, 1, px(0, 1, 0));
    let mut lib = SampleLibrary::new();
    lib.insert_if_absent(dark, dark_tile).unwrap();
    lib.insert_if_absent(light, light_tile).unwrap();
    let mut s = Synthesizer::new(source, vec![dark, light], lib).unwrap();
    run_with(&mut s, &[]);
    assert_eq!(Some(px(1, 0, 0)), s.result().get(0, 0));
    assert_eq!(Some(px(0, 1, 0)), s.result().get(1, 0));
}
