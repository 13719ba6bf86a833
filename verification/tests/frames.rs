use wf_overlay::frame::{
    from_raw_bgra, normalize, LatestImage, RgbaFrame, ScreencastMeta, VideoFormat,
};

fn meta(width: u32, height: u32, format: VideoFormat) -> ScreencastMeta {
    ScreencastMeta { width, height, format }
}

#[test]
fn bgra_pixel_becomes_rgba() {
    let frame = from_raw_bgra(1, 1, vec![10, 20, 30, 40]).expect("four bytes make one pixel");
    assert_eq!(frame.as_raw(), &vec![30, 20, 10, 40]);
    assert_eq!(frame.dimensions(), (1, 1));
}

#[test]
fn bgra_conversion_swaps_every_pixel() {
    let frame = from_raw_bgra(2, 1, vec![1, 2, 3, 4, 5, 6, 7, 8]).unwrap();
    assert_eq!(frame.into_raw(), vec![3, 2, 1, 4, 7, 6, 5, 8]);
}

#[test]
fn bgra_conversion_ignores_bytes_past_the_image() {
    let frame = from_raw_bgra(1, 1, vec![10, 20, 30, 40, 50, 60]).unwrap();
    assert_eq!(frame.into_raw(), vec![30, 20, 10, 40]);
}

#[test]
fn short_buffer_gives_no_image() {
    assert!(from_raw_bgra(2, 2, vec![0; 15]).is_none());
    assert!(RgbaFrame::from_raw(2, 2, vec![0; 15]).is_none());
    assert!(RgbaFrame::from_raw(2, 2, vec![0; 16]).is_some());
}

#[test]
fn huge_dimensions_give_no_image() {
    assert!(RgbaFrame::from_raw(u32::MAX, u32::MAX, vec![0; 64]).is_none());
    assert!(from_raw_bgra(u32::MAX, u32::MAX, vec![0; 64]).is_none());
}

#[test]
fn rgba_passes_through_unchanged() {
    let frame = normalize(vec![10, 20, 30, 40], 1, 1, &VideoFormat::Rgba).unwrap();
    assert_eq!(frame.into_raw(), vec![10, 20, 30, 40]);
    let frame = normalize(vec![10, 20, 30, 40], 1, 1, &VideoFormat::RGBx).unwrap();
    assert_eq!(frame.into_raw(), vec![10, 20, 30, 40]);
}

#[test]
fn bgrx_is_read_like_bgra() {
    let frame = normalize(vec![10, 20, 30, 99], 1, 1, &VideoFormat::BGRx).unwrap();
    assert_eq!(frame.into_raw(), vec![30, 20, 10, 99]);
}

#[test]
fn unknown_format_gives_no_image() {
    let format = VideoFormat::Other("NV12".to_string());
    assert!(normalize(vec![10, 20, 30, 40], 1, 1, &format).is_none());
}

#[test]
fn get_pixel_reads_row_major() {
    let frame = RgbaFrame::from_raw(2, 2, (0u8..16).collect()).unwrap();
    assert_eq!(frame.get_pixel(0, 0), Some([0, 1, 2, 3]));
    assert_eq!(frame.get_pixel(1, 0), Some([4, 5, 6, 7]));
    assert_eq!(frame.get_pixel(0, 1), Some([8, 9, 10, 11]));
    assert_eq!(frame.get_pixel(1, 1), Some([12, 13, 14, 15]));
    assert_eq!(frame.get_pixel(2, 0), None);
    assert_eq!(frame.get_pixel(0, 2), None);
}

#[test]
fn latest_image_starts_empty() {
    let mut latest = LatestImage::default();
    assert!(latest.get_latest_rgba().is_none());
    assert!(latest.take_format_report().is_none());
}

#[test]
fn fewer_than_four_bytes_are_no_frame() {
    let mut latest = LatestImage::default();
    latest.set_latest_meta(meta(0, 0, VideoFormat::Rgba));
    latest.set_latest_img(vec![1, 2, 3]);
    assert!(latest.get_latest_rgba().is_none());
    latest.set_latest_meta(meta(0, 0, VideoFormat::Rgba));
    latest.set_latest_img(vec![1, 2, 3, 4]);
    let frame = latest.get_latest_rgba().expect("an image without pixels");
    assert_eq!(frame.dimensions(), (0, 0));
}

#[test]
fn latest_image_is_taken_once() {
    let mut latest = LatestImage::default();
    latest.set_latest_meta(meta(1, 1, VideoFormat::Bgra));
    latest.set_latest_img(vec![10, 20, 30, 40]);
    let frame = latest.get_latest_rgba().unwrap();
    assert_eq!(frame.into_raw(), vec![30, 20, 10, 40]);
    assert!(latest.get_latest_rgba().is_none());
}

#[test]
fn mismatched_metadata_gives_no_image() {
    let mut latest = LatestImage::default();
    latest.set_latest_meta(meta(2, 2, VideoFormat::Rgba));
    latest.set_latest_img(vec![0; 8]);
    assert!(latest.get_latest_rgba().is_none());
    latest.set_latest_img(vec![7; 16]);
    assert_eq!(latest.get_latest_rgba().unwrap().into_raw(), vec![7; 16]);
}

#[test]
fn unknown_format_is_reported_once_per_name() {
    let mut latest = LatestImage::default();
    latest.set_latest_meta(meta(1, 1, VideoFormat::Other("NV12".to_string())));
    latest.set_latest_img(vec![0; 4]);
    assert!(latest.get_latest_rgba().is_none());
    assert_eq!(latest.take_format_report(), Some("NV12".to_string()));
    assert_eq!(latest.take_format_report(), None);

    latest.set_latest_img(vec![0; 4]);
    assert!(latest.get_latest_rgba().is_none());
    assert_eq!(latest.take_format_report(), None);

    latest.set_latest_meta(meta(1, 1, VideoFormat::Other("I420".to_string())));
    latest.set_latest_img(vec![0; 4]);
    assert!(latest.get_latest_rgba().is_none());
    assert_eq!(latest.take_format_report(), Some("I420".to_string()));
}

#[test]
fn default_format_is_bgra() {
    assert!(matches!(VideoFormat::default(), VideoFormat::Bgra));
    let meta = ScreencastMeta::default();
    assert_eq!((meta.width, meta.height), (0, 0));
    assert!(matches!(meta.format, VideoFormat::Bgra));
}
