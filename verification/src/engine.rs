//! The OCR engine behind a lock, and the calls the pipeline makes into it.
//!
//! What the engine finds in an image is its own business: nothing here states
//! what it returns. The engine is locked for the calls into it and for
//! nothing else, and what it reports is handed on as plain values.

use crate::error::OcrError;
use crate::frame::RgbaFrame;
use std::sync::Arc;
use std::sync::Mutex;
use std::sync::MutexGuard;
use vstd::prelude::*;

verus! {

/// `ocrs::OcrEngine`, of which nothing is known here.
#[verifier::external_type_specification]
#[verifier::external_body]
pub struct ExOcrEngine(ocrs::OcrEngine);

/// `ocrs::OcrInput`, an image as the engine wants it.
#[verifier::external_type_specification]
#[verifier::external_body]
pub struct ExOcrInput(ocrs::OcrInput);

/// `ocrs::TextLine`, a line of recognised characters.
#[verifier::external_type_specification]
#[verifier::external_body]
pub struct ExTextLine(ocrs::TextLine);

/// `rten_imageproc::RotatedRect`, the box of a word that the engine found.
#[verifier::external_type_specification]
#[verifier::external_body]
pub struct ExRotatedRect(rten_imageproc::RotatedRect);

/// `anyhow::Error`, the engine's error.
#[verifier::external_type_specification]
#[verifier::external_body]
pub struct ExEngineError(anyhow::Error);

/// `std::sync::Mutex`.
#[verifier::external_type_specification]
#[verifier::external_body]
#[verifier::reject_recursive_types(T)]
pub struct ExMutex<T: ?Sized>(Mutex<T>);

/// `std::sync::MutexGuard`, a lock that is held.
#[verifier::external_type_specification]
#[verifier::external_body]
#[verifier::reject_recursive_types(T)]
pub struct ExMutexGuard<'a, T: ?Sized + 'a>(MutexGuard<'a, T>);

/// A word as the engine reports it: its text and the four corners of its box,
/// relative to the image that was read.
#[derive(Debug)]
pub struct RecognizedWord {
    pub text: String,
    pub corners: [(i32, i32); 4],
}

/// A line as the engine reports it: the four corners of its box and its
/// words in reading order.
#[derive(Debug)]
pub struct RecognizedLine {
    pub corners: [(i32, i32); 4],
    pub words: Vec<RecognizedWord>,
}

/// What a [`RecognizedWord`] stands for in contracts.
pub struct RecognizedWordView {
    pub text: Seq<char>,
    pub corners: [(i32, i32); 4],
}

/// What a [`RecognizedLine`] stands for in contracts.
pub struct RecognizedLineView {
    pub corners: [(i32, i32); 4],
    pub words: Seq<RecognizedWordView>,
}

impl View for RecognizedWord {
    type V = RecognizedWordView;

    open spec fn view(&self) -> RecognizedWordView {
        RecognizedWordView { text: self.text@, corners: self.corners }
    }
}

impl View for RecognizedLine {
    type V = RecognizedLineView;

    open spec fn view(&self) -> RecognizedLineView {
        RecognizedLineView {
            corners: self.corners,
            words: self.words@.map_values(|w: RecognizedWord| w@),
        }
    }
}

/// The views of the lines of a reading, in order.
pub open spec fn line_views(lines: Seq<Option<RecognizedLine>>) -> Seq<Option<RecognizedLineView>> {
    lines.map_values(
        |line: Option<RecognizedLine>|
            match line {
                Some(l) => Some(l@),
                None => None,
            },
    )
}

/// An OCR engine that several owners share and one at a time uses.
#[derive(Clone)]
pub struct Engine(Arc<Mutex<ocrs::OcrEngine>>);

/// `std::sync::Mutex::new`: a lock around `engine`.
#[verifier::external_body]
fn new_lock(engine: ocrs::OcrEngine) -> Mutex<ocrs::OcrEngine> {
    Mutex::new(engine)
}

/// `std::sync::Mutex::lock`: waits for the lock and takes it. `None` if an
/// earlier holder panicked and left the lock poisoned.
#[verifier::external_body]
fn lock_engine<'a>(lock: &'a Mutex<ocrs::OcrEngine>) -> Option<MutexGuard<'a, ocrs::OcrEngine>> {
    lock.lock().ok()
}

/// `ocrs::ImageSource::from_bytes` and `ocrs::OcrEngine::prepare_input`: the
/// engine's input for an RGBA image. The first multiplies width and height in
/// 32 bits, so the product has to fit, and it turns down an image without
/// pixels.
#[verifier::external_body]
fn prepare_input(engine: &MutexGuard<'_, ocrs::OcrEngine>, image: &RgbaFrame) -> (r: Result<
    ocrs::OcrInput,
    anyhow::Error,
>)
    requires
        image@.width * image@.height <= u32::MAX,
    ensures
        image@.width * image@.height == 0 ==> r is Err,
{
    let source = ocrs::ImageSource::from_bytes(image.as_raw(), image.dimensions())?;
    engine.prepare_input(source)
}

/// `ocrs::OcrEngine::detect_words`: the boxes of the words in the input.
#[verifier::external_body]
fn detect_words(engine: &MutexGuard<'_, ocrs::OcrEngine>, input: &ocrs::OcrInput) -> Result<
    Vec<rten_imageproc::RotatedRect>,
    anyhow::Error,
> {
    engine.detect_words(input)
}

/// Whether every line holds at least one word box.
pub open spec fn every_line_has_a_word(lines: Seq<Vec<rten_imageproc::RotatedRect>>) -> bool {
    forall|i: int| 0 <= i < lines.len() ==> (#[trigger] lines[i])@.len() > 0
}

/// `ocrs::OcrEngine::find_text_lines`: the word boxes grouped into lines,
/// each of at least one word.
#[verifier::external_body]
fn find_text_lines(
    engine: &MutexGuard<'_, ocrs::OcrEngine>,
    input: &ocrs::OcrInput,
    words: &Vec<rten_imageproc::RotatedRect>,
) -> (r: Vec<Vec<rten_imageproc::RotatedRect>>)
    ensures
        every_line_has_a_word(r@),
{
    engine.find_text_lines(input, words)
}

/// `ocrs::OcrEngine::recognize_text`: the text of each line, where any was
/// found. It takes the box around each line's words, so every line has to
/// have one.
#[verifier::external_body]
fn recognize_text(
    engine: &MutexGuard<'_, ocrs::OcrEngine>,
    input: &ocrs::OcrInput,
    lines: &Vec<Vec<rten_imageproc::RotatedRect>>,
) -> Result<Vec<Option<ocrs::TextLine>>, anyhow::Error>
    requires
        every_line_has_a_word(lines@),
{
    engine.recognize_text(input, lines)
}

/// `ocrs::TextItem::bounding_rect` on a line: the corners of the upright box
/// around the line's characters.
#[verifier::external_body]
fn line_corners(line: &ocrs::TextLine) -> [(i32, i32); 4] {
    ocrs::TextItem::bounding_rect(line).corners().map(|c| (c.x, c.y))
}

/// `ocrs::TextLine::words`: the words of a line, each with its text and with
/// the corners of `ocrs::TextItem::rotated_rect`, cut to whole pixels.
#[verifier::external_body]
fn line_words(line: &ocrs::TextLine) -> Vec<RecognizedWord> {
    line.words().map(
        |word|
            RecognizedWord {
                text: word.to_string(),
                corners: ocrs::TextItem::rotated_rect(&word).corners().map(
                    |c| (c.x as i32, c.y as i32),
                ),
            },
    ).collect()
}

/// `anyhow::Error`'s `Display`: the engine's account of a failure.
#[verifier::external_body]
fn failure_text(error: &anyhow::Error) -> String {
    error.to_string()
}

/// The failure of the engine that `reason` tells of.
fn engine_failure(reason: String) -> (e: OcrError)
    ensures
        e == OcrError::EngineFailure(reason),
{
    OcrError::EngineFailure(reason)
}

/// Runs detection, line grouping and recognition on `image` with the engine
/// locked, and lets go of the lock on return. Whatever goes wrong comes back
/// as `EngineFailure`, and an image without pixels is never read.
fn run_locked(engine: &Engine, image: &RgbaFrame) -> (r: Result<
    Vec<Option<ocrs::TextLine>>,
    OcrError,
>)
    requires
        image@.width * image@.height <= u32::MAX,
    ensures
        r is Err ==> r->Err_0 is EngineFailure,
        image@.width * image@.height == 0 ==> r is Err,
{
    let guard = match lock_engine(&engine.0) {
        Some(guard) => guard,
        None => {
            return Err(engine_failure("the engine's lock is poisoned".to_owned()));
        },
    };
    let input = match prepare_input(&guard, image) {
        Ok(input) => input,
        Err(error) => {
            return Err(engine_failure(failure_text(&error)));
        },
    };
    let word_rects = match detect_words(&guard, &input) {
        Ok(rects) => rects,
        Err(error) => {
            return Err(engine_failure(failure_text(&error)));
        },
    };
    let line_rects = find_text_lines(&guard, &input, &word_rects);
    match recognize_text(&guard, &input, &line_rects) {
        Ok(lines) => Ok(lines),
        Err(error) => Err(engine_failure(failure_text(&error))),
    }
}

impl Engine {
    /// Puts `engine` behind a lock.
    pub fn new(engine: ocrs::OcrEngine) -> Engine {
        Engine(Arc::new(new_lock(engine)))
    }

    /// Reads `image`: one entry per line of text that the engine made out,
    /// in its reading order, `None` where it recognised nothing on a line.
    /// Any failure of the engine and a poisoned lock come back as
    /// `EngineFailure`. So do the images that the engine is never asked to
    /// read: one of more than `u32::MAX` pixels, and one without pixels.
    pub fn recognize(&self, image: &RgbaFrame) -> (r: Result<
        Vec<Option<RecognizedLine>>,
        OcrError,
    >)
        ensures
            r is Err ==> r->Err_0 is EngineFailure,
            image@.width * image@.height > u32::MAX ==> (r matches Err(
                OcrError::EngineFailure(reason),
            ) && reason@ == "the image is too large for the engine"@),
            image@.width == 0 || image@.height == 0 ==> r is Err,
    {
        let (width, height) = image.dimensions();
        assert(0 <= width * height <= 0xffff_ffff * 0xffff_ffff) by (nonlinear_arith)
            requires
                0 <= width <= 0xffff_ffff,
                0 <= height <= 0xffff_ffff,
        ;
        if width as u64 * height as u64 > u32::MAX as u64 {
            return Err(engine_failure("the image is too large for the engine".to_owned()));
        }
        let texts = match run_locked(self, image) {
            Ok(texts) => texts,
            Err(error) => {
                return Err(error);
            },
        };
        let mut lines: Vec<Option<RecognizedLine>> = Vec::new();
        let mut i: usize = 0;
        while i < texts.len()
            invariant
                0 <= i <= texts.len(),
                lines@.len() == i,
            decreases texts.len() - i,
        {
            let line = match &texts[i] {
                Some(text) => Some(
                    RecognizedLine { corners: line_corners(text), words: line_words(text) },
                ),
                None => None,
            };
            lines.push(line);
            i += 1;
        }
        Ok(lines)
    }
}

} // verus!
