use wf_overlay::cluster::{Item, Word};
use wf_overlay::engine::Engine;
use wf_overlay::error::OcrError;
use wf_overlay::frame::{LatestImage, ScreencastMeta, VideoFormat};
use wf_overlay::geometry::{Aabb, Point, UVec2};
use wf_overlay::imaging::crop;
use wf_overlay::layout::{Config, Layout, LayoutOption, OcrBounds, PixelCheck, Rgba8};
use wf_overlay::ocr::{extract, CoordinateSpace, Line, OcrResults};
use wf_overlay::projection::Projection;
use wf_overlay::scheduler::{OcrScheduler, SchedulerState, Trigger};

const IDENTITY: Projection = Projection { scale_x: 1, shift_x: 0, scale_y: 1, shift_y: 0 };

fn aabb(min_x: i64, min_y: i64, max_x: i64, max_y: i64) -> Aabb {
    Aabb { min: Point { x: min_x, y: min_y }, max: Point { x: max_x, y: max_y } }
}

fn latest_with(width: u32, height: u32, format: VideoFormat, bytes: Vec<u8>) -> LatestImage {
    let mut latest = LatestImage::default();
    latest.set_latest_meta(ScreencastMeta { width, height, format });
    latest.set_latest_img(bytes);
    latest
}

fn small_config() -> Config {
    let mut config = Config::default();
    config.layouts = vec![LayoutOption {
        aspect_ratio: [2, 1],
        pixel_checks: vec![],
        config: Layout {
            offset: UVec2 { x: 1, y: 0 },
            size: UVec2 { x: 1, y: 1 },
            reference_resolution: UVec2 { x: 2, y: 1 },
            theme_text_color: Rgba8 { r: 0, g: 0, b: 0, a: 255 },
            item_name_distance: 0,
        },
    }];
    config
}

fn results() -> OcrResults {
    OcrResults {
        detect_aabb: aabb(0, 0, 10, 10),
        words: vec![Word { text: "a".to_string(), bounds: aabb(1, 1, 2, 2) }],
        lines: vec![Line { bounds: aabb(1, 1, 2, 2), word_range: 0..1 }],
        items: vec![Item { name: "a".to_string(), bounds: aabb(1, 1, 2, 2) }],
        space: CoordinateSpace::Image,
    }
}

#[test]
fn new_scheduler_is_idle() {
    assert_eq!(OcrScheduler::new().state(), SchedulerState::Idle);
}

#[test]
fn trigger_starts_one_reading() {
    let mut scheduler = OcrScheduler::new();
    let config = small_config();
    let mut latest = latest_with(4, 2, VideoFormat::Rgba, (0u8..32).collect());
    match scheduler.start_ocr_task(&mut latest, &config) {
        Trigger::Started(job) => {
            assert_eq!(job.image.dimensions(), (4, 2));
            assert_eq!(job.bounds, OcrBounds { x: 2, y: 0, width: 2, height: 2 });
            assert_eq!(job.column_gap, 15);
        }
        other => panic!("expected a start, got {:?}", other),
    }
    assert_eq!(scheduler.state(), SchedulerState::Running);
}

#[test]
fn trigger_while_running_is_passed_over() {
    let mut scheduler = OcrScheduler::new();
    let config = small_config();
    let mut latest = latest_with(2, 1, VideoFormat::Rgba, vec![1; 8]);
    assert!(matches!(scheduler.start_ocr_task(&mut latest, &config), Trigger::Started(_)));

    latest.set_latest_img(vec![2; 8]);
    for _ in 0..3 {
        assert!(matches!(scheduler.start_ocr_task(&mut latest, &config), Trigger::Busy));
        assert_eq!(scheduler.state(), SchedulerState::Running);
    }
    // the frame was not used up by the triggers that were passed over
    assert!(scheduler.get_ocr_result(Some(Ok(results())), &IDENTITY).is_some());
    match scheduler.start_ocr_task(&mut latest, &config) {
        Trigger::Started(job) => assert_eq!(job.image.into_raw(), vec![2; 8]),
        other => panic!("expected a start, got {:?}", other),
    }
}

#[test]
fn trigger_without_a_frame_stays_idle() {
    let mut scheduler = OcrScheduler::new();
    let config = small_config();
    let mut empty = LatestImage::default();
    assert!(matches!(scheduler.start_ocr_task(&mut empty, &config), Trigger::NoFrame));
    let mut short = latest_with(2, 1, VideoFormat::Rgba, vec![1; 7]);
    assert!(matches!(scheduler.start_ocr_task(&mut short, &config), Trigger::NoFrame));
    let mut strange = latest_with(2, 1, VideoFormat::Other("NV12".to_string()), vec![1; 8]);
    assert!(matches!(scheduler.start_ocr_task(&mut strange, &config), Trigger::NoFrame));
    assert_eq!(strange.take_format_report(), Some("NV12".to_string()));
    assert_eq!(scheduler.state(), SchedulerState::Idle);
}

#[test]
fn trigger_without_a_matching_layout_stays_idle() {
    let mut scheduler = OcrScheduler::new();
    let config = small_config();
    let mut square = latest_with(2, 2, VideoFormat::Rgba, vec![1; 16]);
    assert!(matches!(scheduler.start_ocr_task(&mut square, &config), Trigger::NoLayoutMatch));
    assert_eq!(scheduler.state(), SchedulerState::Idle);
    // the frame is used up all the same
    assert!(matches!(scheduler.start_ocr_task(&mut square, &config), Trigger::NoFrame));

    let mut probing = small_config();
    probing.layouts[0].pixel_checks =
        vec![PixelCheck { x: 0, y: 0, color: Rgba8 { r: 9, g: 9, b: 9, a: 9 }, tolerance: 0 }];
    let mut frame = latest_with(2, 1, VideoFormat::Rgba, vec![1; 8]);
    assert!(matches!(scheduler.start_ocr_task(&mut frame, &probing), Trigger::NoLayoutMatch));
    let mut frame = latest_with(2, 1, VideoFormat::Rgba, vec![9; 8]);
    assert!(matches!(scheduler.start_ocr_task(&mut frame, &probing), Trigger::Started(_)));
}

#[test]
fn trigger_with_an_unscalable_region_stays_idle() {
    let mut scheduler = OcrScheduler::new();
    let mut config = small_config();
    config.layouts[0].config.reference_resolution = UVec2 { x: 4, y: 2 };
    let mut latest = latest_with(6, 3, VideoFormat::Rgba, vec![1; 72]);
    assert!(matches!(scheduler.start_ocr_task(&mut latest, &config), Trigger::DegenerateCrop));
    assert_eq!(scheduler.state(), SchedulerState::Idle);
}

#[test]
fn completion_hands_the_results_on_once() {
    let mut scheduler = OcrScheduler::new();
    let config = small_config();
    let mut latest = latest_with(2, 1, VideoFormat::Rgba, vec![1; 8]);
    assert!(matches!(scheduler.start_ocr_task(&mut latest, &config), Trigger::Started(_)));

    assert!(scheduler.get_ocr_result(None, &IDENTITY).is_none());
    assert_eq!(scheduler.state(), SchedulerState::Running);

    let shift = Projection { scale_x: 1, shift_x: 100, scale_y: -1, shift_y: 0 };
    match scheduler.get_ocr_result(Some(Ok(results())), &shift) {
        Some(Ok(handed)) => {
            assert_eq!(handed.space, CoordinateSpace::Screen);
            assert_eq!(handed.detect_aabb, aabb(100, 0, 110, -10));
            assert_eq!(handed.items[0].bounds, aabb(101, -1, 102, -2));
            assert_eq!(handed.items[0].name, "a");
        }
        other => panic!("expected results, got {:?}", other),
    }
    assert_eq!(scheduler.state(), SchedulerState::Idle);

    assert!(scheduler.get_ocr_result(Some(Ok(results())), &shift).is_none());
    assert!(scheduler.get_ocr_result(None, &shift).is_none());
    assert_eq!(scheduler.state(), SchedulerState::Idle);
}

#[test]
fn failure_returns_the_scheduler_to_idle() {
    let mut scheduler = OcrScheduler::new();
    let config = small_config();
    let mut latest = latest_with(2, 1, VideoFormat::Rgba, vec![1; 8]);
    assert!(matches!(scheduler.start_ocr_task(&mut latest, &config), Trigger::Started(_)));
    let failure = Err(OcrError::EngineFailure("no model".to_string()));
    match scheduler.get_ocr_result(Some(failure), &IDENTITY) {
        Some(Err(OcrError::EngineFailure(reason))) => assert_eq!(reason, "no model"),
        other => panic!("expected the failure, got {:?}", other),
    }
    assert_eq!(scheduler.state(), SchedulerState::Idle);

    latest.set_latest_img(vec![1; 8]);
    assert!(matches!(scheduler.start_ocr_task(&mut latest, &config), Trigger::Started(_)));
    assert!(matches!(
        scheduler.get_ocr_result(Some(Err(OcrError::DegenerateCrop)), &IDENTITY),
        Some(Err(OcrError::DegenerateCrop))
    ));
    assert_eq!(scheduler.state(), SchedulerState::Idle);
}

#[test]
fn results_that_cannot_be_projected_fail() {
    let mut scheduler = OcrScheduler::new();
    let config = small_config();
    let mut latest = latest_with(2, 1, VideoFormat::Rgba, vec![1; 8]);
    assert!(matches!(scheduler.start_ocr_task(&mut latest, &config), Trigger::Started(_)));
    let far = Projection { scale_x: i64::MAX, shift_x: 0, scale_y: 1, shift_y: 0 };
    assert!(matches!(
        scheduler.get_ocr_result(Some(Ok(results())), &far),
        Some(Err(OcrError::ProjectionOverflow))
    ));
    assert_eq!(scheduler.state(), SchedulerState::Idle);
}

#[test]
fn at_most_one_reading_for_any_run_of_events() {
    // Every sequence of six events over {trigger with frame, trigger without, completion}.
    let config = small_config();
    for code in 0..3u32.pow(6) {
        let mut scheduler = OcrScheduler::new();
        let mut in_flight = 0i32;
        let mut rest = code;
        for _ in 0..6 {
            let event = rest % 3;
            rest /= 3;
            let before = scheduler.state();
            match event {
                0 => {
                    let mut latest = latest_with(2, 1, VideoFormat::Rgba, vec![1; 8]);
                    match scheduler.start_ocr_task(&mut latest, &config) {
                        Trigger::Started(_) => {
                            assert_eq!(before, SchedulerState::Idle);
                            in_flight += 1;
                        }
                        Trigger::Busy => assert_eq!(before, SchedulerState::Running),
                        other => panic!("unexpected {:?}", other),
                    }
                }
                1 => {
                    let mut latest = LatestImage::default();
                    match scheduler.start_ocr_task(&mut latest, &config) {
                        Trigger::NoFrame => assert_eq!(before, SchedulerState::Idle),
                        Trigger::Busy => assert_eq!(before, SchedulerState::Running),
                        other => panic!("unexpected {:?}", other),
                    }
                    assert_eq!(scheduler.state(), before);
                }
                _ => {
                    let handed = scheduler.get_ocr_result(Some(Ok(results())), &IDENTITY);
                    assert_eq!(handed.is_some(), before == SchedulerState::Running);
                    if handed.is_some() {
                        in_flight -= 1;
                    }
                }
            }
            assert!(in_flight == 0 || in_flight == 1);
            assert_eq!(in_flight == 1, scheduler.state() == SchedulerState::Running);
        }
    }
}

#[test]
fn full_hd_frame_is_read_at_the_configured_region() {
    let width = 1920u32;
    let height = 1080u32;
    let mut bytes = vec![0u8; width as usize * height as usize * 4];
    // mark the corners of the configured region
    let mark = |bytes: &mut Vec<u8>, x: usize, y: usize, v: u8| {
        bytes[(y * width as usize + x) * 4] = v;
    };
    mark(&mut bytes, 478, 411, 11);
    mark(&mut bytes, 478 + 964, 411, 22);
    mark(&mut bytes, 478, 411 + 48, 33);
    mark(&mut bytes, 478 + 964, 411 + 48, 44);
    mark(&mut bytes, 477, 411, 99);
    mark(&mut bytes, 478 + 965, 411, 99);

    let config = Config::default();
    let mut latest = latest_with(width, height, VideoFormat::Rgba, bytes);
    let mut scheduler = OcrScheduler::new();
    let job = match scheduler.start_ocr_task(&mut latest, &config) {
        Trigger::Started(job) => job,
        other => panic!("expected a start, got {:?}", other),
    };
    assert_eq!(job.bounds, OcrBounds { x: 478, y: 411, width: 965, height: 49 });
    assert_eq!(job.column_gap, 15);

    let region = crop(&job.image, &job.bounds);
    assert_eq!(region.dimensions(), (965, 49));
    assert_eq!(region.get_pixel(0, 0), Some([11, 0, 0, 0]));
    assert_eq!(region.get_pixel(964, 0), Some([22, 0, 0, 0]));
    assert_eq!(region.get_pixel(0, 48), Some([33, 0, 0, 0]));
    assert_eq!(region.get_pixel(964, 48), Some([44, 0, 0, 0]));
    assert!(region.as_raw().iter().all(|&b| b != 99));

    // Without models the engine fails, and the scheduler becomes idle again.
    let engine = Engine::new(ocrs::OcrEngine::new(ocrs::OcrEngineParams::default()).unwrap());
    let outcome = extract(&job.image, job.bounds, &engine, job.column_gap);
    assert!(matches!(outcome, Err(OcrError::EngineFailure(_))));
    assert!(matches!(
        scheduler.get_ocr_result(Some(outcome), &IDENTITY),
        Some(Err(OcrError::EngineFailure(_)))
    ));
    assert_eq!(scheduler.state(), SchedulerState::Idle);
}
