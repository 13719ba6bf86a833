use wf_overlay::cluster::{Item, Word};
use wf_overlay::engine::{Engine, RecognizedLine, RecognizedWord};
use wf_overlay::error::OcrError;
use wf_overlay::frame::RgbaFrame;
use wf_overlay::geometry::{Aabb, Point, UVec2};
use wf_overlay::layout::OcrBounds;
use wf_overlay::ocr::{assemble, enclose, extract, CoordinateSpace, Line, OcrResults};
use wf_overlay::projection::{to_screen_space, Projection};

fn rect(left: i32, top: i32, right: i32, bottom: i32) -> [(i32, i32); 4] {
    [(left, top), (right, top), (right, bottom), (left, bottom)]
}

fn word(text: &str, left: i32, right: i32) -> RecognizedWord {
    RecognizedWord { text: text.to_string(), corners: rect(left, 2, right, 12) }
}

fn aabb(min_x: i64, min_y: i64, max_x: i64, max_y: i64) -> Aabb {
    Aabb { min: Point { x: min_x, y: min_y }, max: Point { x: max_x, y: max_y } }
}

fn untrained_engine() -> Engine {
    Engine::new(ocrs::OcrEngine::new(ocrs::OcrEngineParams::default()).unwrap())
}

const BOUNDS: OcrBounds = OcrBounds { x: 478, y: 411, width: 965, height: 49 };

#[test]
fn enclose_takes_the_extremes_and_adds_the_offset() {
    let tilted = [(5, 0), (10, 4), (6, 9), (1, 5)];
    assert_eq!(enclose(&tilted, UVec2 { x: 100, y: 1000 }), aabb(101, 1000, 110, 1009));
    let negative = [(-5, -7), (-5, -7), (-5, -7), (-5, -7)];
    assert_eq!(enclose(&negative, UVec2 { x: 0, y: 0 }), aabb(-5, -7, -5, -7));
    let extreme = [(i32::MIN, i32::MAX), (0, 0), (0, 0), (i32::MAX, i32::MIN)];
    assert_eq!(
        enclose(&extreme, UVec2 { x: u32::MAX, y: u32::MAX }),
        aabb(
            i32::MIN as i64 + u32::MAX as i64,
            i32::MIN as i64 + u32::MAX as i64,
            i32::MAX as i64 + u32::MAX as i64,
            i32::MAX as i64 + u32::MAX as i64
        )
    );
}

#[test]
fn assemble_moves_boxes_into_the_frame() {
    let lines = vec![Some(RecognizedLine {
        corners: rect(0, 0, 120, 14),
        words: vec![word("Forma", 0, 40), word("Blueprint", 44, 120)],
    })];
    let results = assemble(&lines, BOUNDS, 15);

    assert_eq!(results.space, CoordinateSpace::Image);
    assert_eq!(results.detect_aabb, aabb(477, 410, 1444, 461));
    assert_eq!(results.words.len(), 2);
    assert_eq!(results.words[0].text, "Forma");
    assert_eq!(results.words[0].bounds, aabb(478, 413, 518, 423));
    assert_eq!(results.words[1].text, "Blueprint");
    assert_eq!(results.words[1].bounds, aabb(522, 413, 598, 423));
    assert_eq!(results.lines.len(), 1);
    assert_eq!(results.lines[0].bounds, aabb(478, 411, 598, 425));
    assert_eq!(results.lines[0].word_range, 0..2);
    assert_eq!(results.items.len(), 1);
    assert_eq!(results.items[0].name, "Forma Blueprint");
    assert_eq!(results.items[0].bounds, aabb(478, 413, 598, 423));
}

#[test]
fn assemble_drops_what_has_no_text() {
    let lines = vec![
        None,
        Some(RecognizedLine { corners: rect(0, 0, 50, 10), words: vec![word("", 0, 50)] }),
        Some(RecognizedLine {
            corners: rect(0, 20, 300, 30),
            words: vec![word("a", 0, 10), word("", 12, 20), word("b", 200, 210)],
        }),
        Some(RecognizedLine { corners: rect(0, 40, 50, 50), words: vec![] }),
        None,
        Some(RecognizedLine { corners: rect(0, 60, 50, 70), words: vec![word("c", 400, 410)] }),
    ];
    let results = assemble(&lines, OcrBounds { x: 0, y: 0, width: 500, height: 100 }, 15);

    let texts: Vec<&str> = results.words.iter().map(|w| w.text.as_str()).collect();
    assert_eq!(texts, vec!["a", "b", "c"]);
    assert_eq!(results.lines.len(), 2);
    assert_eq!(results.lines[0].word_range, 0..2);
    assert_eq!(results.lines[0].bounds, aabb(0, 20, 300, 30));
    assert_eq!(results.lines[1].word_range, 2..3);
    let names: Vec<&str> = results.items.iter().map(|i| i.name.as_str()).collect();
    assert_eq!(names, vec!["a", "b", "c"]);
}

#[test]
fn assemble_of_nothing_is_empty() {
    let results = assemble(&vec![], BOUNDS, 15);
    assert!(results.words.is_empty());
    assert!(results.lines.is_empty());
    assert!(results.items.is_empty());
    assert_eq!(results.detect_aabb, aabb(477, 410, 1444, 461));
}

#[test]
fn assemble_clusters_across_lines() {
    let lines = vec![
        Some(RecognizedLine { corners: rect(0, 0, 30, 10), words: vec![word("Rhino", 0, 30)] }),
        Some(RecognizedLine { corners: rect(0, 12, 30, 22), words: vec![word("Prime", 2, 28)] }),
        Some(RecognizedLine { corners: rect(200, 0, 230, 10), words: vec![word("Nova", 200, 230)] }),
    ];
    let results = assemble(&lines, OcrBounds { x: 10, y: 10, width: 500, height: 100 }, 15);
    let names: Vec<&str> = results.items.iter().map(|i| i.name.as_str()).collect();
    assert_eq!(names, vec!["Rhino Prime", "Nova"]);
}

#[test]
fn extract_rejects_an_empty_region() {
    let frame = RgbaFrame::from_raw(4, 4, vec![0; 64]).unwrap();
    let engine = untrained_engine();
    let outside = OcrBounds { x: 4, y: 0, width: 2, height: 2 };
    assert!(matches!(extract(&frame, outside, &engine, 15), Err(OcrError::DegenerateCrop)));
    let flat = OcrBounds { x: 0, y: 0, width: 4, height: 0 };
    assert!(matches!(extract(&frame, flat, &engine, 15), Err(OcrError::DegenerateCrop)));
}

#[test]
fn extract_reports_an_engine_without_models() {
    let frame = RgbaFrame::from_raw(8, 8, vec![255; 256]).unwrap();
    let engine = untrained_engine();
    let inside = OcrBounds { x: 2, y: 2, width: 4, height: 4 };
    match extract(&frame, inside, &engine, 15) {
        Err(OcrError::EngineFailure(reason)) => assert!(reason.contains("model")),
        other => panic!("expected an engine failure, got {:?}", other),
    }
}

#[test]
fn engine_without_models_fails_to_recognize() {
    let frame = RgbaFrame::from_raw(8, 8, vec![255; 256]).unwrap();
    let engine = untrained_engine();
    assert!(matches!(engine.recognize(&frame), Err(OcrError::EngineFailure(_))));
    let shared = engine.clone();
    assert!(matches!(shared.recognize(&frame), Err(OcrError::EngineFailure(_))));
    let nothing = RgbaFrame::from_raw(0, 0, vec![]).unwrap();
    assert!(matches!(engine.recognize(&nothing), Err(OcrError::EngineFailure(_))));
}

#[test]
fn error_messages() {
    assert_eq!(OcrError::DegenerateCrop.message(), "Image dimensions are 0 in one direction");
    assert_eq!(OcrError::EngineFailure("boom".to_string()).message(), "boom");
    assert!(!OcrError::ProjectionOverflow.message().is_empty());
}

#[test]
fn projection_scales_and_shifts_each_axis() {
    let flip = Projection { scale_x: 1, shift_x: -960, scale_y: -1, shift_y: 540 };
    assert_eq!(flip.project(Point { x: 0, y: 0 }), Some(Point { x: -960, y: 540 }));
    assert_eq!(flip.project(Point { x: 1920, y: 1080 }), Some(Point { x: 960, y: -540 }));
    assert_eq!(
        to_screen_space(&aabb(478, 411, 1443, 460), &flip),
        Some(aabb(-482, 129, 483, 80))
    );
    let double = Projection { scale_x: 2, shift_x: 1, scale_y: 3, shift_y: -1 };
    assert_eq!(to_screen_space(&aabb(1, 2, 3, 4), &double), Some(aabb(3, 5, 7, 11)));
}

#[test]
fn projection_out_of_range_gives_nothing() {
    let double = Projection { scale_x: 2, shift_x: 0, scale_y: 1, shift_y: 0 };
    assert_eq!(double.project(Point { x: i64::MAX, y: 0 }), None);
    assert_eq!(double.project(Point { x: i64::MIN, y: 0 }), None);
    assert_eq!(
        double.project(Point { x: i64::MAX / 2, y: 0 }),
        Some(Point { x: i64::MAX - 1, y: 0 })
    );
    let shift = Projection { scale_x: 1, shift_x: 1, scale_y: 1, shift_y: -1 };
    assert_eq!(shift.project(Point { x: i64::MAX, y: 0 }), None);
    assert_eq!(shift.project(Point { x: 0, y: i64::MIN }), None);
    assert_eq!(to_screen_space(&aabb(0, 0, i64::MAX, 0), &shift), None);
    let extreme =
        Projection { scale_x: i64::MIN, shift_x: i64::MIN, scale_y: i64::MAX, shift_y: i64::MAX };
    assert_eq!(extreme.project(Point { x: i64::MIN, y: i64::MAX }), None);
    assert_eq!(extreme.project(Point { x: 0, y: 0 }), Some(Point { x: i64::MIN, y: i64::MAX }));
}

fn sample_results() -> OcrResults {
    OcrResults {
        detect_aabb: aabb(0, 0, 100, 50),
        words: vec![Word { text: "a".to_string(), bounds: aabb(1, 2, 3, 4) }],
        lines: vec![Line { bounds: aabb(1, 2, 30, 40), word_range: 0..1 }],
        items: vec![Item { name: "a".to_string(), bounds: aabb(1, 2, 3, 4) }],
        space: CoordinateSpace::Image,
    }
}

#[test]
fn results_are_projected_once() {
    let flip = Projection { scale_x: 1, shift_x: -50, scale_y: -1, shift_y: 25 };
    let mut results = sample_results();
    assert!(results.convert_aabbs_inplace(&flip).is_ok());
    assert_eq!(results.space, CoordinateSpace::Screen);
    assert_eq!(results.detect_aabb, aabb(-50, 25, 50, -25));
    assert_eq!(results.words[0].bounds, aabb(-49, 23, -47, 21));
    assert_eq!(results.words[0].text, "a");
    assert_eq!(results.lines[0].bounds, aabb(-49, 23, -20, -15));
    assert_eq!(results.lines[0].word_range, 0..1);
    assert_eq!(results.items[0].bounds, aabb(-49, 23, -47, 21));
    assert_eq!(results.items[0].name, "a");

    assert!(results.convert_aabbs_inplace(&flip).is_ok());
    assert_eq!(results.detect_aabb, aabb(-50, 25, 50, -25));
    assert_eq!(results.words[0].bounds, aabb(-49, 23, -47, 21));
}

#[test]
fn results_that_do_not_fit_stay_as_they_are() {
    let far = Projection { scale_x: 1, shift_x: i64::MAX, scale_y: 1, shift_y: 0 };
    let mut results = sample_results();
    results.detect_aabb = aabb(0, 0, 0, 0);
    results.lines[0].bounds = aabb(0, 0, 0, 0);
    results.items[0].bounds = aabb(0, 0, 0, 0);
    assert!(matches!(results.convert_aabbs_inplace(&far), Err(OcrError::ProjectionOverflow)));
    assert_eq!(results.space, CoordinateSpace::Image);
    assert_eq!(results.words[0].bounds, aabb(1, 2, 3, 4));
    assert_eq!(results.detect_aabb, aabb(0, 0, 0, 0));
}

#[test]
fn line_can_be_cloned() {
    let line = Line { bounds: aabb(1, 2, 3, 4), word_range: 5..9 };
    let copy = line.clone();
    assert_eq!(copy.bounds, line.bounds);
    assert_eq!(copy.word_range, 5..9);
}

#[test]
fn image_without_pixels_is_an_engine_failure() {
    let engine = untrained_engine();
    for (width, height) in [(0, 0), (0, 5), (7, 0)] {
        let frame = RgbaFrame::from_raw(width, height, vec![]).unwrap();
        assert!(matches!(engine.recognize(&frame), Err(OcrError::EngineFailure(_))));
    }
}
