use wf_overlay::frame::RgbaFrame;
use wf_overlay::imaging::{apply_filter, crop, prepare, preparation_filters, Filter};
use wf_overlay::layout::OcrBounds;

fn numbered(width: u32, height: u32) -> RgbaFrame {
    let len = width as usize * height as usize * 4;
    RgbaFrame::from_raw(width, height, (0..len).map(|i| i as u8).collect()).unwrap()
}

fn bounds(x: u32, y: u32, width: u32, height: u32) -> OcrBounds {
    OcrBounds { x, y, width, height }
}

#[test]
fn crop_copies_the_region() {
    let frame = numbered(3, 2);
    let part = crop(&frame, &bounds(1, 0, 2, 2));
    assert_eq!(part.dimensions(), (2, 2));
    assert_eq!(
        part.into_raw(),
        vec![4, 5, 6, 7, 8, 9, 10, 11, 16, 17, 18, 19, 20, 21, 22, 23]
    );
}

#[test]
fn crop_is_cut_off_at_the_border() {
    let frame = numbered(3, 2);
    let part = crop(&frame, &bounds(2, 1, 5, 5));
    assert_eq!(part.dimensions(), (1, 1));
    assert_eq!(part.into_raw(), vec![20, 21, 22, 23]);
}

#[test]
fn crop_outside_the_frame_is_empty() {
    let frame = numbered(3, 2);
    assert_eq!(crop(&frame, &bounds(3, 0, 1, 1)).dimensions(), (0, 1));
    assert_eq!(crop(&frame, &bounds(0, 7, 1, 1)).dimensions(), (1, 0));
    assert_eq!(crop(&frame, &bounds(0, 0, 0, 2)).dimensions(), (0, 2));
    assert!(crop(&frame, &bounds(9, 9, 1, 1)).into_raw().is_empty());
}

#[test]
fn crop_of_everything_is_a_copy() {
    let frame = numbered(3, 2);
    let all = crop(&frame, &bounds(0, 0, u32::MAX, u32::MAX));
    assert_eq!(all.dimensions(), (3, 2));
    assert_eq!(&all.into_raw(), frame.as_raw());
}

#[test]
fn invert_complements_the_colours() {
    let frame = RgbaFrame::from_raw(2, 1, vec![0, 10, 255, 40, 100, 200, 1, 0]).unwrap();
    let out = apply_filter(frame, Filter::Invert);
    assert_eq!(out.dimensions(), (2, 1));
    assert_eq!(out.into_raw(), vec![255, 245, 0, 40, 155, 55, 254, 0]);
}

#[test]
fn brighten_adds_and_saturates() {
    let frame = RgbaFrame::from_raw(2, 1, vec![0, 10, 255, 40, 100, 200, 29, 0]).unwrap();
    let darker = apply_filter(frame, Filter::Brighten(-30));
    assert_eq!(darker.as_raw(), &vec![0, 0, 225, 40, 70, 170, 0, 0]);
    let lighter = apply_filter(darker, Filter::Brighten(100));
    assert_eq!(lighter.into_raw(), vec![100, 100, 255, 40, 170, 255, 100, 0]);
}

#[test]
fn brighten_by_huge_values_saturates() {
    let frame = RgbaFrame::from_raw(1, 1, vec![0, 128, 255, 7]).unwrap();
    let white = apply_filter(frame, Filter::Brighten(i32::MAX));
    assert_eq!(white.as_raw(), &vec![255, 255, 255, 7]);
    let black = apply_filter(white, Filter::Brighten(i32::MIN));
    assert_eq!(black.into_raw(), vec![0, 0, 0, 7]);
}

#[test]
fn contrast_changes_the_pixels() {
    let frame = RgbaFrame::from_raw(2, 1, vec![10, 100, 200, 255, 128, 30, 250, 255]).unwrap();
    let out = apply_filter(frame, Filter::Contrast(20));
    assert_eq!(out.dimensions(), (2, 1));
    let raw = out.into_raw();
    assert_eq!(raw.len(), 8);
    assert_ne!(raw, vec![10, 100, 200, 255, 128, 30, 250, 255]);
    // more contrast moves dark values down and light values up
    assert!(raw[0] < 10);
    assert!(raw[2] > 200);
}

#[test]
fn blur_changes_the_pixels() {
    let mut data = vec![0u8; 5 * 5 * 4];
    data[(2 * 5 + 2) * 4] = 255;
    let frame = RgbaFrame::from_raw(5, 5, data.clone()).unwrap();
    let out = apply_filter(frame, Filter::Blur(1));
    assert_eq!(out.dimensions(), (5, 5));
    let raw = out.into_raw();
    assert_eq!(raw.len(), data.len());
    assert_ne!(raw, data);
    assert!(raw[(2 * 5 + 2) * 4] < 255);
    assert!(raw[(2 * 5 + 1) * 4] > 0);
}

#[test]
fn unsharpen_changes_the_pixels() {
    let mut data = vec![100u8; 5 * 5 * 4];
    for y in 0..5 {
        for x in 3..5 {
            data[(y * 5 + x) * 4] = 200;
        }
    }
    let frame = RgbaFrame::from_raw(5, 5, data.clone()).unwrap();
    let out = apply_filter(frame, Filter::Unsharpen { sigma: 2, threshold: 1 });
    assert_eq!(out.dimensions(), (5, 5));
    let raw = out.into_raw();
    assert_eq!(raw.len(), data.len());
    assert_ne!(raw, data);
}

#[test]
fn unsharpen_without_strength_changes_nothing() {
    let frame = numbered(3, 3);
    let out = apply_filter(frame, Filter::Unsharpen { sigma: 0, threshold: 1 });
    assert_eq!(&out.into_raw(), numbered(3, 3).as_raw());
}

#[test]
fn filters_leave_an_empty_frame_alone() {
    for filter in preparation_filters() {
        let empty = RgbaFrame::from_raw(0, 3, vec![]).unwrap();
        let out = apply_filter(empty, filter);
        assert_eq!(out.dimensions(), (0, 3));
        assert!(out.into_raw().is_empty());
    }
}

#[test]
fn preparation_is_the_fixed_sequence() {
    assert_eq!(
        preparation_filters(),
        [
            Filter::Unsharpen { sigma: 20, threshold: 15 },
            Filter::Contrast(20),
            Filter::Blur(1),
            Filter::Unsharpen { sigma: 5, threshold: 15 },
            Filter::Invert,
            Filter::Brighten(-30),
            Filter::Contrast(20),
        ]
    );
}

#[test]
fn prepare_keeps_the_size() {
    let out = prepare(numbered(7, 3));
    assert_eq!(out.dimensions(), (7, 3));
    assert_eq!(out.as_raw().len(), 7 * 3 * 4);
    let tiny = prepare(numbered(1, 1));
    assert_eq!(tiny.dimensions(), (1, 1));
}

#[test]
fn prepare_inverts_dark_on_light() {
    // A white frame comes out dark: the preparation inverts.
    let white = RgbaFrame::from_raw(4, 4, vec![255; 64]).unwrap();
    let out = prepare(white).into_raw();
    assert!(out[0] < 64);
    assert_eq!(out[3], 255);
}
