use swww::cli::{Filter, ResizeStrategy};
use swww::imgproc::frames::{compress_frames, Frame};
use swww::imgproc::resize::{img_pad, img_resize_crop, img_resize_fit, ResizeOperation};
use swww::imgproc::RawImg;
use swww::codec::decode;

fn solid_rgb(w: u32, h: u32, rgb: [u8; 3]) -> RawImg {
    let mut pixels = Vec::new();
    for _ in 0..(w * h) {
        pixels.push(rgb[0]);
        pixels.push(rgb[1]);
        pixels.push(rgb[2]);
    }
    RawImg {
        width: w,
        height: h,
        pixels,
    }
}

fn bgra(rgb: [u8; 3]) -> [u8; 4] {
    [rgb[2], rgb[1], rgb[0], 255]
}

#[test]
fn pad_centers_source_with_one_pixel_border() {
    // a 10x10 source padded into 12x10: one fill-color pixel on the
    // left and right of every row, the source centered, channel order
    // reversed from the RGB source
    let src = solid_rgb(10, 10, [1, 2, 3]);
    let fill = [9, 8, 7];
    let out = img_pad(src, (12, 10), &fill).unwrap();
    assert_eq!(out.len(), 12 * 10 * 4);
    let mut expected = Vec::new();
    for _y in 0..10 {
        expected.extend_from_slice(&bgra(fill));
        for _x in 0..10 {
            expected.extend_from_slice(&bgra([1, 2, 3]));
        }
        expected.extend_from_slice(&bgra(fill));
    }
    assert_eq!(out, expected);
}

#[test]
fn pad_uneven_border_puts_extra_pixel_on_trailing_edge() {
    let src = solid_rgb(2, 1, [5, 5, 5]);
    let out = img_pad(src, (5, 1), &[0, 0, 0]).unwrap();
    // (5 - 2) / 2 == 1 pixel on the left, 2 on the right
    let fill = bgra([0, 0, 0]);
    let px = bgra([5, 5, 5]);
    let mut expected = Vec::new();
    expected.extend_from_slice(&fill);
    expected.extend_from_slice(&px);
    expected.extend_from_slice(&px);
    expected.extend_from_slice(&fill);
    expected.extend_from_slice(&fill);
    assert_eq!(out, expected);
}

#[test]
fn fit_matching_axis_pads_top_and_bottom() {
    // a 100x50 source fit into 100x100 keeps its size and pads 25
    // rows above and below with the fill color
    let src = solid_rgb(100, 50, [10, 20, 30]);
    let fill = [1, 2, 3];
    let out = img_resize_fit(src, (100, 100), Filter::Nearest, &fill).unwrap();
    assert_eq!(out.len(), 100 * 100 * 4);
    for y in 0..100usize {
        let row = &out[y * 400..(y + 1) * 400];
        let expected_px = if y < 25 || y >= 75 {
            bgra(fill)
        } else {
            bgra([10, 20, 30])
        };
        for x in 0..100usize {
            assert_eq!(&row[4 * x..4 * x + 4], &expected_px);
        }
    }
}

#[test]
fn fit_exact_size_is_converted_unchanged() {
    let src = solid_rgb(3, 2, [40, 50, 60]);
    let out = img_resize_fit(src, (3, 2), Filter::Lanczos3, &[0, 0, 0]).unwrap();
    let px = bgra([40, 50, 60]);
    let mut expected = Vec::new();
    for _ in 0..6 {
        expected.extend_from_slice(&px);
    }
    assert_eq!(out, expected);
}

#[test]
fn fit_scales_when_no_axis_matches() {
    let src = solid_rgb(2, 2, [100, 150, 200]);
    let out = img_resize_fit(src, (4, 4), Filter::Nearest, &[0, 0, 0]).unwrap();
    assert_eq!(out.len(), 4 * 4 * 4);
    let px = bgra([100, 150, 200]);
    for p in 0..16usize {
        assert_eq!(&out[4 * p..4 * p + 4], &px);
    }
}

#[test]
fn crop_scales_down_through_the_resampler() {
    // would fail if the scaling call handed its input back unchanged:
    // the input holds 12 bytes, the result exactly one BGRA pixel
    let src = solid_rgb(2, 2, [255, 0, 0]);
    let out = img_resize_crop(src, (1, 1), Filter::Nearest).unwrap();
    assert_eq!(out, vec![0, 0, 255, 255]);
}

#[test]
fn crop_exact_size_is_converted_unchanged() {
    let src = solid_rgb(2, 2, [9, 10, 11]);
    let out = img_resize_crop(src, (2, 2), Filter::Gaussian).unwrap();
    let px = bgra([9, 10, 11]);
    let mut expected = Vec::new();
    for _ in 0..4 {
        expected.extend_from_slice(&px);
    }
    assert_eq!(out, expected);
}

#[test]
fn resize_operation_dispatches_pad() {
    let op = ResizeOperation::Pad {
        dimensions: (3, 1),
        color: [0, 0, 0],
    };
    let out = op.resize(solid_rgb(1, 1, [1, 1, 1])).unwrap();
    assert_eq!(out.len(), 3 * 4);
    assert_eq!(&out[4..8], &bgra([1, 1, 1]));
}

#[test]
fn compressed_animation_replays_every_frame() {
    // two 1x1 frames: replaying the diffs from the first full frame
    // reproduces each frame exactly and keeps the durations
    let frames = vec![
        Frame {
            img: solid_rgb(1, 1, [255, 0, 0]),
            duration_ms: 100,
        },
        Frame {
            img: solid_rgb(1, 1, [0, 0, 255]),
            duration_ms: 40,
        },
    ];
    let packed = compress_frames(frames, (1, 1), Filter::Nearest, ResizeStrategy::No, &[0, 0, 0])
        .unwrap();
    assert_eq!(packed.len(), 2);
    assert_eq!(packed[0].duration_ms, 100);
    assert_eq!(packed[1].duration_ms, 40);

    let mut canvas = vec![0u8, 0, 255, 255]; // first frame, BGRA of red
    assert_eq!(packed[0].diff.len(), 0, "first frame is a no-op diff");
    decode(&packed[0].diff, &mut canvas);
    assert_eq!(canvas, vec![0, 0, 255, 255]);
    decode(&packed[1].diff, &mut canvas);
    assert_eq!(canvas, vec![255, 0, 0, 255]); // BGRA of blue
}

#[test]
fn empty_animation_is_an_error() {
    let r = compress_frames(
        Vec::new(),
        (1, 1),
        Filter::Nearest,
        ResizeStrategy::No,
        &[0, 0, 0],
    );
    assert!(r.is_err());
}
