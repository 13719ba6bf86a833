use wf_overlay::frame::RgbaFrame;
use wf_overlay::geometry::{Aabb, Point, UVec2};
use wf_overlay::layout::{Config, Layout, LayoutOption, OcrBounds, PixelCheck, Rgba8};

const WHITE: Rgba8 = Rgba8 { r: 255, g: 255, b: 255, a: 255 };

fn option(ratio: [u32; 2], checks: Vec<PixelCheck>) -> LayoutOption {
    LayoutOption { aspect_ratio: ratio, pixel_checks: checks, config: Layout::default() }
}

fn solid(width: u32, height: u32, pixel: [u8; 4]) -> RgbaFrame {
    let mut data = Vec::new();
    for _ in 0..(width as usize * height as usize) {
        data.extend_from_slice(&pixel);
    }
    RgbaFrame::from_raw(width, height, data).unwrap()
}

#[test]
fn aspect_ratio_is_matched_by_cross_multiplication() {
    let wide = option([16, 9], vec![]);
    assert!(wide.aspect_ratio_matches(1920, 1080));
    assert!(!wide.aspect_ratio_matches(1920, 1200));
    assert!(wide.aspect_ratio_matches(16, 9));
    assert!(wide.aspect_ratio_matches(0, 0));
}

#[test]
fn aspect_ratio_does_not_wrap_around() {
    // 65536 * 65536 is 0 in 32 bits, as is 0 * 1.
    let odd = option([65536, 0], vec![]);
    assert!(!odd.aspect_ratio_matches(1, 65536));
}

#[test]
fn tolerance_zero_asks_for_the_very_colour() {
    let check = PixelCheck { x: 0, y: 0, color: WHITE, tolerance: 0 };
    assert!(!check.matches_pixel(&Rgba8 { r: 254, g: 254, b: 254, a: 255 }));
    assert!(check.matches_pixel(&WHITE));
    assert!(!check.matches_pixel(&Rgba8 { r: 255, g: 255, b: 255, a: 254 }));
}

#[test]
fn tolerance_accepts_colours_within_the_distance() {
    let check = PixelCheck { x: 0, y: 0, color: WHITE, tolerance: 3 };
    assert!(check.matches_pixel(&Rgba8 { r: 254, g: 254, b: 254, a: 255 }));
    // distance 3 exactly
    assert!(check.matches_pixel(&Rgba8 { r: 252, g: 255, b: 255, a: 255 }));
    // distance squared 10 > 9
    assert!(!check.matches_pixel(&Rgba8 { r: 252, g: 254, b: 255, a: 255 }));
    // alpha does not count
    assert!(check.matches_pixel(&Rgba8 { r: 255, g: 255, b: 255, a: 0 }));
}

#[test]
fn largest_tolerance_accepts_everything() {
    let check = PixelCheck { x: 0, y: 0, color: WHITE, tolerance: u32::MAX };
    assert!(check.matches_pixel(&Rgba8 { r: 0, g: 0, b: 0, a: 0 }));
}

#[test]
fn probe_outside_the_frame_fails() {
    let frame = solid(2, 2, [255, 255, 255, 255]);
    let inside = option([1, 1], vec![PixelCheck { x: 1, y: 1, color: WHITE, tolerance: 0 }]);
    let outside = option([1, 1], vec![PixelCheck { x: 2, y: 0, color: WHITE, tolerance: 0 }]);
    let below = option([1, 1], vec![PixelCheck { x: 0, y: 2, color: WHITE, tolerance: 0 }]);
    assert!(inside.verify_pixel_checks(&frame));
    assert!(inside.matches(&frame));
    assert!(!outside.verify_pixel_checks(&frame));
    assert!(!outside.matches(&frame));
    assert!(!below.matches(&frame));
}

#[test]
fn probe_against_a_pixel_of_the_frame() {
    let frame = solid(1, 1, [0xFE, 0xFE, 0xFE, 0xFF]);
    let exact = option([1, 1], vec![PixelCheck { x: 0, y: 0, color: WHITE, tolerance: 0 }]);
    let loose = option([1, 1], vec![PixelCheck { x: 0, y: 0, color: WHITE, tolerance: 3 }]);
    assert!(!exact.matches(&frame));
    assert!(loose.matches(&frame));
}

#[test]
fn every_probe_has_to_pass() {
    let mut data = vec![255u8; 8];
    data[4] = 0;
    let frame = RgbaFrame::from_raw(2, 1, data).unwrap();
    let first = PixelCheck { x: 0, y: 0, color: WHITE, tolerance: 0 };
    let second = PixelCheck { x: 1, y: 0, color: WHITE, tolerance: 0 };
    assert!(option([2, 1], vec![first]).matches(&frame));
    assert!(!option([2, 1], vec![first, second]).matches(&frame));
    assert!(!option([1, 1], vec![first]).matches(&frame));
}

#[test]
fn first_matching_layout_wins() {
    let mut first = option([16, 9], vec![]);
    first.config.item_name_distance = 1;
    let mut second = option([16, 9], vec![]);
    second.config.item_name_distance = 2;
    let mut other = option([4, 3], vec![]);
    other.config.item_name_distance = 3;
    let mut config = Config::default();
    config.layouts = vec![other, first, second];

    let wide = solid(16, 9, [0, 0, 0, 0]);
    assert_eq!(config.find_matching_layout(&wide).unwrap().item_name_distance, 1);
    let all = config.find_all_matching_layouts(&wide);
    assert_eq!(all.len(), 2);
    assert_eq!(all[0].config.item_name_distance, 1);
    assert_eq!(all[1].config.item_name_distance, 2);

    let old = solid(4, 3, [0, 0, 0, 0]);
    assert_eq!(config.find_matching_layout(&old).unwrap().item_name_distance, 3);

    let square = solid(3, 3, [0, 0, 0, 0]);
    assert!(config.find_matching_layout(&square).is_none());
    assert!(config.find_all_matching_layouts(&square).is_empty());
}

#[test]
fn no_layouts_match_nothing() {
    let mut config = Config::default();
    config.layouts.clear();
    let frame = solid(16, 9, [0, 0, 0, 0]);
    assert!(config.find_matching_layout(&frame).is_none());
}

#[test]
fn default_config_has_the_wide_layout() {
    let config = Config::default();
    assert!(config.overlay);
    assert_eq!(config.refresh_market_after, 60 * 60 * 24 * 2);
    assert!(!config.show_keys);
    assert!(!config.save_to_disk);
    assert_eq!(config.column_gap, 15);
    assert_eq!(config.layouts.len(), 1);
    let option = &config.layouts[0];
    assert_eq!(option.aspect_ratio, [16, 9]);
    assert!(option.pixel_checks.is_empty());
    assert_eq!(option.config.offset, UVec2 { x: 478, y: 411 });
    assert_eq!(option.config.size, UVec2 { x: 965, y: 49 });
    assert_eq!(option.config.reference_resolution, UVec2 { x: 1920, y: 1080 });
    assert_eq!(option.config.theme_text_color, Rgba8 { r: 0xbe, g: 0xa9, b: 0x66, a: 0xff });
    assert_eq!(option.config.item_name_distance, 90);
}

#[test]
fn bounds_at_the_reference_resolution_are_not_scaled() {
    let layout = Layout::default();
    assert_eq!(
        layout.ocr_bounds(UVec2 { x: 1920, y: 1080 }),
        Some(OcrBounds { x: 478, y: 411, width: 965, height: 49 })
    );
}

#[test]
fn bounds_scale_by_whole_factors() {
    let layout = Layout::default();
    assert_eq!(
        layout.ocr_bounds(UVec2 { x: 3840, y: 2160 }),
        Some(OcrBounds { x: 956, y: 822, width: 1930, height: 98 })
    );
    assert_eq!(
        layout.ocr_bounds(UVec2 { x: 3840, y: 1080 }),
        Some(OcrBounds { x: 956, y: 411, width: 1930, height: 49 })
    );
}

#[test]
fn bounds_need_a_positive_whole_factor() {
    let layout = Layout::default();
    assert_eq!(layout.ocr_bounds(UVec2 { x: 2560, y: 1440 }), None);
    assert_eq!(layout.ocr_bounds(UVec2 { x: 960, y: 540 }), None);
    assert_eq!(layout.ocr_bounds(UVec2 { x: 0, y: 0 }), None);
    let mut flat = Layout::default();
    flat.reference_resolution = UVec2 { x: 0, y: 1080 };
    assert_eq!(flat.ocr_bounds(UVec2 { x: 1920, y: 1080 }), None);
}

#[test]
fn bounds_have_to_fit_in_32_bits() {
    let layout = Layout {
        offset: UVec2 { x: 3, y: 0 },
        size: UVec2 { x: 1, y: 1 },
        reference_resolution: UVec2 { x: 1, y: 1 },
        theme_text_color: WHITE,
        item_name_distance: 0,
    };
    assert_eq!(layout.ocr_bounds(UVec2 { x: u32::MAX, y: 1 }), None);
    assert_eq!(
        layout.ocr_bounds(UVec2 { x: 5, y: 7 }),
        Some(OcrBounds { x: 15, y: 0, width: 5, height: 7 })
    );
}

#[test]
fn detection_box_is_one_pixel_wider() {
    let bounds = OcrBounds { x: 478, y: 411, width: 965, height: 49 };
    assert_eq!(
        bounds.detect_aabb(),
        Aabb { min: Point { x: 477, y: 410 }, max: Point { x: 1444, y: 461 } }
    );
    let corner = OcrBounds { x: 0, y: 0, width: u32::MAX, height: u32::MAX };
    assert_eq!(
        corner.detect_aabb(),
        Aabb { min: Point { x: -1, y: -1 }, max: Point { x: 4294967296, y: 4294967296 } }
    );
}

#[test]
fn colour_from_bytes() {
    assert_eq!(Rgba8::from_u8_array([1, 2, 3, 4]), Rgba8 { r: 1, g: 2, b: 3, a: 4 });
}
