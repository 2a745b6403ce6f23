use sprite_raster::frame::draw_layers;
use sprite_raster::layer::{assemble, clip_span, draw_layer, AxisTap, Layer, Placement};
use sprite_raster::sampling::SamplingMethod;

#[test]
fn layer_needs_four_bytes_for_each_pixel() {
    assert!(Layer::new(0, 0, 2, 2, vec![0; 16]).is_some());
    assert!(Layer::new(0, 0, 2, 2, vec![0; 15]).is_none());
    assert!(Layer::new(0, 0, 2, 2, vec![0; 17]).is_none());
    assert!(Layer::new(0, 0, 0, 2, Vec::new()).is_some());
    assert!(Layer::new(0, 0, 0, 2, vec![0; 4]).is_none());
    assert!(Layer::new(0, 0, u32::MAX, u32::MAX, Vec::new()).is_none());
}

#[test]
fn layer_keeps_what_it_was_made_from() {
    let layer = Layer::new(3, 4, 2, 1, vec![1, 2, 3, 4, 5, 6, 7, 8]).unwrap();
    assert_eq!(layer.left(), 3);
    assert_eq!(layer.top(), 4);
    assert_eq!(layer.width(), 2);
    assert_eq!(layer.height(), 1);
    assert_eq!(layer.pixels(), &[1, 2, 3, 4, 5, 6, 7, 8]);
    let empty = Layer::empty();
    assert_eq!((empty.left(), empty.top(), empty.width(), empty.height()), (0, 0, 0, 0));
    assert!(empty.pixels().is_empty());
}

#[test]
fn span_is_clipped_to_the_scene() {
    assert_eq!(clip_span(45, 55, 100), (45, 55));
    assert_eq!(clip_span(-3, 4, 100), (0, 4));
    assert_eq!(clip_span(90, 120, 100), (90, 100));
    assert_eq!(clip_span(-20, -10, 100), (0, 0));
    assert_eq!(clip_span(150, 160, 100), (100, 100));
    assert_eq!(clip_span(i32::MIN, i32::MAX, 100), (0, 100));
    assert_eq!(clip_span(0, 0, 0), (0, 0));
    assert_eq!(clip_span(5, 2, 10), (5, 2));
    assert_eq!(clip_span(0, i32::MAX, u32::MAX), (0, i32::MAX as u32));
}

#[test]
fn nearest_layer_samples_column_by_row() {
    // 2 by 2: red, green / blue, white
    let data = vec![
        255, 0, 0, 255, 0, 255, 0, 255, //
        0, 0, 255, 255, 255, 255, 255, 255,
    ];
    let layer = Layer::nearest(&data, 2, 2, 7, 9, &[-1, 0, 1], &[1, 0]);
    assert_eq!((layer.left(), layer.top(), layer.width(), layer.height()), (7, 9, 3, 2));
    assert_eq!(
        layer.pixels(),
        &[
            0, 0, 0, 0, 0, 0, 255, 255, 255, 255, 255, 255, //
            0, 0, 0, 0, 255, 0, 0, 255, 0, 255, 0, 255,
        ]
    );
    let none = Layer::nearest(&data, 2, 2, 0, 0, &[], &[0, 1]);
    assert_eq!((none.width(), none.height()), (0, 2));
    assert!(none.pixels().is_empty());
}

#[test]
fn supersampled_layer_averages_the_hits() {
    let data = vec![
        255, 0, 0, 255, 0, 255, 0, 255, //
        0, 0, 255, 255, 255, 255, 255, 255,
    ];
    let layer = Layer::supersampled(&data, 2, 2, 0, 0, &[0, -1, 5], &[1, 0, 6], &[0], &[1]);
    assert_eq!((layer.width(), layer.height()), (3, 1));
    assert_eq!(
        layer.pixels(),
        &[127, 127, 127, 255, 127, 0, 127, 255, 0, 0, 0, 0]
    );
}

#[test]
fn layer_is_laid_over_the_covered_pixels_only() {
    let mut buf = [10u8, 20, 30, 255].repeat(9);
    let layer = Layer::new(
        1,
        1,
        2,
        1,
        vec![200, 100, 50, 128, 1, 2, 3, 255],
    )
    .unwrap();
    draw_layer(&mut buf, 3, 3, &layer);
    for y in 0..3usize {
        for x in 0..3usize {
            let at = (y * 3 + x) * 4;
            let expected = match (x, y) {
                // (200 * 128 + 10 * 127) / 255 = 105, (100 * 128 + 20 * 127) / 255 = 60,
                // (50 * 128 + 30 * 127) / 255 = 40
                (1, 1) => [105, 60, 40, 255],
                (2, 1) => [1, 2, 3, 255],
                _ => [10, 20, 30, 255],
            };
            assert_eq!(&buf[at..at + 4], &expected);
        }
    }
}

#[test]
fn layers_are_laid_in_the_given_order() {
    let red = Layer::new(0, 0, 2, 1, [255u8, 0, 0, 255].repeat(2)).unwrap();
    let green = Layer::new(1, 0, 2, 1, [0u8, 255, 0, 255].repeat(2)).unwrap();
    let layers = vec![red, green];
    let mut buf = vec![0u8; 12];
    draw_layers(&mut buf, 3, 1, &vec![0, 1], &layers);
    assert_eq!(buf, vec![255, 0, 0, 255, 0, 255, 0, 255, 0, 255, 0, 255]);
    let mut buf = vec![0u8; 12];
    draw_layers(&mut buf, 3, 1, &vec![1, 0], &layers);
    assert_eq!(buf, vec![255, 0, 0, 255, 255, 0, 0, 255, 0, 255, 0, 255]);
    let mut buf = vec![0u8; 12];
    draw_layers(&mut buf, 3, 1, &vec![1, 7, 1], &layers);
    assert_eq!(buf, vec![0, 0, 0, 0, 0, 255, 0, 255, 0, 255, 0, 255]);
}

#[test]
fn assembled_bitmap_leaves_misses_transparent() {
    let samples = [Some([1, 2, 3, 4]), None, Some([5, 6, 7, 8]), None];
    assert_eq!(
        assemble(2, 2, &samples),
        vec![1, 2, 3, 4, 0, 0, 0, 0, 5, 6, 7, 8, 0, 0, 0, 0]
    );
    assert_eq!(assemble(1, 2, &samples), vec![1, 2, 3, 4, 0, 0, 0, 0]);
    assert_eq!(
        assemble(3, 2, &samples),
        vec![
            1, 2, 3, 4, 0, 0, 0, 0, 5, 6, 7, 8, //
            0, 0, 0, 0, 0, 0, 0, 0, 0, 0, 0, 0,
        ]
    );
    assert_eq!(assemble(2, 1, &[]), vec![0u8; 8]);
    assert!(assemble(0, 3, &samples).is_empty());
    assert!(assemble(3, 0, &samples).is_empty());
}

#[test]
fn layer_from_samples_holds_the_assembled_bitmap() {
    let layer = Layer::from_samples(4, 5, 2, 1, &[None, Some([9, 8, 7, 6])]);
    assert_eq!((layer.left(), layer.top(), layer.width(), layer.height()), (4, 5, 2, 1));
    assert_eq!(layer.pixels(), &[0, 0, 0, 0, 9, 8, 7, 6]);
}

#[test]
fn placement_samples_by_the_given_method() {
    // 2 by 1: [200, 0, 0, 255] and [0, 100, 0, 255]
    let data = vec![200, 0, 0, 255, 0, 100, 0, 255];
    let placement = Placement {
        left: 3,
        top: 4,
        cols: vec![
            AxisTap { near: 0, lo: -1, hi: 0 },
            AxisTap { near: 1, lo: 0, hi: 1 },
            AxisTap { near: 2, lo: 1, hi: 2 },
        ],
        rows: vec![AxisTap { near: 0, lo: 0, hi: 0 }],
        weighted: vec![None, Some([1, 1, 1, 1])],
    };
    let near = placement.sample(&data, 2, 1, SamplingMethod::Nearest);
    assert_eq!((near.left(), near.top(), near.width(), near.height()), (3, 4, 3, 1));
    assert_eq!(near.pixels(), &[200, 0, 0, 255, 0, 100, 0, 255, 0, 0, 0, 0]);
    let mean = placement.sample(&data, 2, 1, SamplingMethod::Supersampling);
    assert_eq!(mean.pixels(), &[200, 0, 0, 255, 100, 50, 0, 255, 0, 100, 0, 255]);
    let given = placement.sample(&data, 2, 1, SamplingMethod::Bilinear);
    assert_eq!((given.width(), given.height()), (3, 1));
    assert_eq!(given.pixels(), &[0, 0, 0, 0, 1, 1, 1, 1, 0, 0, 0, 0]);
}
