//! Reading text from a region of a frame: the region is cut out and
//! prepared, the OCR engine reads it, and what it reports is put back into
//! the frame's coordinates and clustered into items.

use crate::cluster::{
    clustered, detect_columns, item_views, word_views, Item, ItemView, Word, WordView,
};
use crate::engine::{line_views, Engine, RecognizedLine, RecognizedLineView, RecognizedWordView};
use crate::error::OcrError;
use crate::frame::RgbaFrame;
use crate::geometry::{max_int, min_int, Aabb, Point, UVec2};
use crate::imaging::{crop, cropped, prepare};
use crate::layout::OcrBounds;
use core::ops::Range;
use vstd::prelude::*;

verus! {

/// A line of text: its bounding box, and which of the words are its own.
#[derive(Debug)]
pub struct Line {
    pub bounds: Aabb,
    /// The indices of the line's words among all words of the reading.
    pub word_range: Range<usize>,
}

impl Clone for Line {
    fn clone(&self) -> (r: Line)
        ensures
            r == *self,
    {
        Line { bounds: self.bounds, word_range: self.word_range.start..self.word_range.end }
    }
}

/// The coordinates that the boxes of a reading are given in.
#[derive(Clone, Copy, Debug, PartialEq, Eq, Structural)]
pub enum CoordinateSpace {
    /// Pixels of the captured frame.
    Image,
    /// The consumer's display coordinates.
    Screen,
}

/// Everything one reading of a frame gave.
#[derive(Debug)]
pub struct OcrResults {
    /// The box around the region that was read.
    pub detect_aabb: Aabb,
    pub words: Vec<Word>,
    pub lines: Vec<Line>,
    pub items: Vec<Item>,
    pub space: CoordinateSpace,
}

/// What an [`OcrResults`] stands for in contracts.
pub struct OcrResultsView {
    pub detect_aabb: Aabb,
    pub words: Seq<WordView>,
    pub lines: Seq<Line>,
    pub items: Seq<ItemView>,
    pub space: CoordinateSpace,
}

impl View for OcrResults {
    type V = OcrResultsView;

    open spec fn view(&self) -> OcrResultsView {
        OcrResultsView {
            detect_aabb: self.detect_aabb,
            words: word_views(self.words@),
            lines: self.lines@,
            items: item_views(self.items@),
            space: self.space,
        }
    }
}

/// The smallest of four integers.
pub open spec fn min4(a: int, b: int, c: int, d: int) -> int {
    min_int(min_int(a, b), min_int(c, d))
}

/// The largest of four integers.
pub open spec fn max4(a: int, b: int, c: int, d: int) -> int {
    max_int(max_int(a, b), max_int(c, d))
}

/// The smallest upright box around four corners, moved by `offset`.
pub open spec fn enclosing(corners: [(i32, i32); 4], offset: UVec2) -> Aabb {
    Aabb {
        min: Point {
            x: (min4(
                corners[0].0 as int,
                corners[1].0 as int,
                corners[2].0 as int,
                corners[3].0 as int,
            ) + offset.x) as i64,
            y: (min4(
                corners[0].1 as int,
                corners[1].1 as int,
                corners[2].1 as int,
                corners[3].1 as int,
            ) + offset.y) as i64,
        },
        max: Point {
            x: (max4(
                corners[0].0 as int,
                corners[1].0 as int,
                corners[2].0 as int,
                corners[3].0 as int,
            ) + offset.x) as i64,
            y: (max4(
                corners[0].1 as int,
                corners[1].1 as int,
                corners[2].1 as int,
                corners[3].1 as int,
            ) + offset.y) as i64,
        },
    }
}

/// The words of one line that have text, each with its box in the frame.
pub open spec fn placed_words(words: Seq<RecognizedWordView>, offset: UVec2) -> Seq<WordView>
    decreases words.len(),
{
    if words.len() == 0 {
        Seq::empty()
    } else {
        let before = placed_words(words.drop_last(), offset);
        let word = words.last();
        if word.text.len() == 0 {
            before
        } else {
            before.push(WordView { text: word.text, bounds: enclosing(word.corners, offset) })
        }
    }
}

/// The words that one entry of a reading gives: none where nothing was
/// recognised.
pub open spec fn line_yield(line: Option<RecognizedLineView>, offset: UVec2) -> Seq<WordView> {
    match line {
        Some(l) => placed_words(l.words, offset),
        None => Seq::empty(),
    }
}

/// All words of a reading, line after line.
pub open spec fn all_words(lines: Seq<Option<RecognizedLineView>>, offset: UVec2) -> Seq<WordView>
    decreases lines.len(),
{
    if lines.len() == 0 {
        Seq::empty()
    } else {
        all_words(lines.drop_last(), offset) + line_yield(lines.last(), offset)
    }
}

/// The lines of a reading that have words, each with its box in the frame
/// and with the indices that its words have in `all_words`.
pub open spec fn all_lines(lines: Seq<Option<RecognizedLineView>>, offset: UVec2) -> Seq<Line>
    decreases lines.len(),
{
    if lines.len() == 0 {
        Seq::empty()
    } else {
        let before = all_lines(lines.drop_last(), offset);
        let first = all_words(lines.drop_last(), offset).len();
        let count = line_yield(lines.last(), offset).len();
        match lines.last() {
            Some(l) => if count > 0 {
                before.push(
                    Line {
                        bounds: enclosing(l.corners, offset),
                        word_range: (first as usize)..((first + count) as usize),
                    },
                )
            } else {
                before
            },
            None => before,
        }
    }
}

/// The results that a reading of the region `bounds` gives: the words and
/// lines with text, in the frame's coordinates, the items that the words
/// cluster into, and the box around the region.
pub open spec fn assembled(
    lines: Seq<Option<RecognizedLineView>>,
    bounds: OcrBounds,
    gap: int,
) -> OcrResultsView {
    let offset = UVec2 { x: bounds.x, y: bounds.y };
    OcrResultsView {
        detect_aabb: bounds.framed(),
        words: all_words(lines, offset),
        lines: all_lines(lines, offset),
        items: clustered(all_words(lines, offset), gap),
        space: CoordinateSpace::Image,
    }
}

fn least4(a: i32, b: i32, c: i32, d: i32) -> (r: i32)
    ensures
        r == min4(a as int, b as int, c as int, d as int),
{
    let ab = if a <= b {
        a
    } else {
        b
    };
    let cd = if c <= d {
        c
    } else {
        d
    };
    if ab <= cd {
        ab
    } else {
        cd
    }
}

fn greatest4(a: i32, b: i32, c: i32, d: i32) -> (r: i32)
    ensures
        r == max4(a as int, b as int, c as int, d as int),
{
    let ab = if a >= b {
        a
    } else {
        b
    };
    let cd = if c >= d {
        c
    } else {
        d
    };
    if ab >= cd {
        ab
    } else {
        cd
    }
}

/// The smallest upright box around four corners, moved by `offset`.
pub fn enclose(corners: &[(i32, i32); 4], offset: UVec2) -> (r: Aabb)
    ensures
        r == enclosing(*corners, offset),
{
    let c0 = corners[0];
    let c1 = corners[1];
    let c2 = corners[2];
    let c3 = corners[3];
    Aabb {
        min: Point {
            x: least4(c0.0, c1.0, c2.0, c3.0) as i64 + offset.x as i64,
            y: least4(c0.1, c1.1, c2.1, c3.1) as i64 + offset.y as i64,
        },
        max: Point {
            x: greatest4(c0.0, c1.0, c2.0, c3.0) as i64 + offset.x as i64,
            y: greatest4(c0.1, c1.1, c2.1, c3.1) as i64 + offset.y as i64,
        },
    }
}

/// Appends the words of `line` that have text to `words`.
fn place_words(line: &RecognizedLine, offset: UVec2, words: &mut Vec<Word>)
    ensures
        word_views(final(words)@) == word_views(old(words)@) + placed_words(line@.words, offset),
{
    let ghost all = line@.words;
    let ghost start = word_views(words@);
    let mut i: usize = 0;
    proof {
        assert(all.take(0) =~= Seq::<RecognizedWordView>::empty());
        assert(word_views(words@) =~= start + placed_words(all.take(0), offset));
    }
    while i < line.words.len()
        invariant
            0 <= i <= line.words@.len(),
            all == line@.words,
            all.len() == line.words@.len(),
            word_views(words@) == start + placed_words(all.take(i as int), offset),
        decreases line.words@.len() - i,
    {
        let word = &line.words[i];
        let ghost before = words@;
        proof {
            assert(all.take(i + 1).drop_last() =~= all.take(i as int));
            assert(all.take(i + 1).last() == word@);
        }
        if !word.text.as_str().is_empty() {
            let placed = Word { text: word.text.clone(), bounds: enclose(&word.corners, offset) };
            let ghost view = placed@;
            words.push(placed);
            proof {
                assert(word_views(words@) =~= word_views(before).push(view));
                assert(start + placed_words(all.take(i as int), offset).push(view) =~= (start
                    + placed_words(all.take(i as int), offset)).push(view));
            }
        }
        i += 1;
    }
    proof {
        assert(all.take(i as int) =~= all);
    }
}

/// Puts together the results of a reading of the region `bounds`.
///
/// Entries without a line and words without text are left out, and so are
/// lines that are left without a word. Every box is moved from the region's
/// coordinates to the frame's by the region's corner. The words are then
/// clustered into items with the gap threshold `gap_threshold`.
pub fn assemble(lines: &Vec<Option<RecognizedLine>>, bounds: OcrBounds, gap_threshold: i64) -> (r:
    OcrResults)
    ensures
        r@ == assembled(line_views(lines@), bounds, gap_threshold as int),
{
    let offset = UVec2 { x: bounds.x, y: bounds.y };
    let ghost all = line_views(lines@);
    let mut words: Vec<Word> = Vec::new();
    let mut kept: Vec<Line> = Vec::new();
    let mut i: usize = 0;
    proof {
        assert(all.take(0) =~= Seq::<Option<RecognizedLineView>>::empty());
        assert(word_views(words@) =~= all_words(all.take(0), offset));
    }
    while i < lines.len()
        invariant
            0 <= i <= lines@.len(),
            all == line_views(lines@),
            all.len() == lines@.len(),
            offset == (UVec2 { x: bounds.x, y: bounds.y }),
            word_views(words@) == all_words(all.take(i as int), offset),
            kept@ == all_lines(all.take(i as int), offset),
        decreases lines@.len() - i,
    {
        proof {
            assert(all.take(i + 1).drop_last() =~= all.take(i as int));
            assert(all.take(i + 1).last() == all[i as int]);
            assert(word_views(words@).len() == words@.len());
        }
        match &lines[i] {
            Some(line) => {
                let first = words.len();
                place_words(line, offset, &mut words);
                let end = words.len();
                proof {
                    assert(word_views(words@).len() == words@.len());
                    assert(all[i as int] == Some(line@));
                }
                if end > first {
                    let bounds = enclose(&line.corners, offset);
                    kept.push(Line { bounds, word_range: first..end });
                }
            },
            None => {
                proof {
                    assert(all[i as int] is None);
                    assert(word_views(words@) + Seq::<WordView>::empty() =~= word_views(words@));
                }
            },
        }
        i += 1;
    }
    proof {
        assert(all.take(i as int) =~= all);
    }
    let items = detect_columns(words.as_slice(), gap_threshold);
    OcrResults {
        detect_aabb: bounds.detect_aabb(),
        words,
        lines: kept,
        items,
        space: CoordinateSpace::Image,
    }
}

/// Whether an image has no pixels.
pub open spec fn is_empty_image(width: u32, height: u32) -> bool {
    width == 0 || height == 0
}

/// Reads the text in the region `ocr_bounds` of `image`.
///
/// The region is cut out of the image; if nothing is left of it, the reading
/// fails with `DegenerateCrop` before the engine is asked. Otherwise the
/// region is prepared, the engine reads it, and its report is assembled.
/// What the engine reports is up to the engine; whatever it is, the results
/// are those that `assemble` gives for it, and a failure of the engine comes
/// back as `EngineFailure`. So does a region of more than `u32::MAX` pixels,
/// which the engine is not asked to read.
pub fn extract(image: &RgbaFrame, ocr_bounds: OcrBounds, engine: &Engine, gap_threshold: i64) -> (r:
    Result<OcrResults, OcrError>)
    ensures
        is_empty_image(cropped(image@, ocr_bounds).width, cropped(image@, ocr_bounds).height)
            <==> r matches Err(OcrError::DegenerateCrop),
        r matches Err(e) ==> e is DegenerateCrop || e is EngineFailure,
        cropped(image@, ocr_bounds).width * cropped(image@, ocr_bounds).height > u32::MAX ==> (
        r matches Err(OcrError::EngineFailure(reason)) && reason@
            == "the image is too large for the engine"@),
        r matches Ok(results) ==> exists|lines: Seq<Option<RecognizedLineView>>|
            results@ == assembled(lines, ocr_bounds, gap_threshold as int),
{
    let region = crop(image, &ocr_bounds);
    if region.width() == 0 || region.height() == 0 {
        return Err(OcrError::DegenerateCrop);
    }
    let prepared = prepare(region);
    match engine.recognize(&prepared) {
        Ok(lines) => {
            let results = assemble(&lines, ocr_bounds, gap_threshold);
            assert(results@ == assembled(line_views(lines@), ocr_bounds, gap_threshold as int));
            Ok(results)
        },
        Err(error) => Err(error),
    }
}

} // verus!
