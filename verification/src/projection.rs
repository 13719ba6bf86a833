//! The way from image pixels to the consumer's display coordinates.

use crate::cluster::{item_views, word_views, Item, ItemView, Word, WordView};
use crate::error::OcrError;
use crate::geometry::{Aabb, Point};
use crate::ocr::{CoordinateSpace, Line, OcrResults, OcrResultsView};
use vstd::prelude::*;

verus! {

/// A projection that scales and shifts each axis on its own: the point
/// `(x, y)` goes to `(scale_x * x + shift_x, scale_y * y + shift_y)`. A
/// display whose y axis points up has a negative `scale_y`.
#[derive(Clone, Copy, Debug, PartialEq, Eq, Structural)]
pub struct Projection {
    pub scale_x: i64,
    pub shift_x: i64,
    pub scale_y: i64,
    pub shift_y: i64,
}

/// Whether `v` is a value of `i64`.
pub open spec fn fits_i64(v: int) -> bool {
    i64::MIN <= v <= i64::MAX
}

impl Projection {
    /// Where the x coordinate `x` goes.
    pub open spec fn x_of(self, x: int) -> int {
        self.scale_x * x + self.shift_x
    }

    /// Where the y coordinate `y` goes.
    pub open spec fn y_of(self, y: int) -> int {
        self.scale_y * y + self.shift_y
    }

    /// Whether the image of `p` has coordinates that fit into 64 bits.
    pub open spec fn reaches(self, p: Point) -> bool {
        fits_i64(self.x_of(p.x as int)) && fits_i64(self.y_of(p.y as int))
    }

    /// The image of `p`.
    pub open spec fn image_of(self, p: Point) -> Point {
        Point { x: self.x_of(p.x as int) as i64, y: self.y_of(p.y as int) as i64 }
    }

    /// Whether the images of both corners of `b` fit into 64 bits.
    pub open spec fn covers(self, b: Aabb) -> bool {
        self.reaches(b.min) && self.reaches(b.max)
    }

    /// The box whose `min` is the image of `b.min` and whose `max` is the
    /// image of `b.max`. The corners are not put in order again: under a
    /// negative scale `min` lies beyond `max`.
    pub open spec fn projected(self, b: Aabb) -> Aabb {
        Aabb { min: self.image_of(b.min), max: self.image_of(b.max) }
    }

    /// Projects a point, if its image fits into 64 bits.
    pub fn project(&self, p: Point) -> (r: Option<Point>)
        ensures
            r is Some <==> self.reaches(p),
            r is Some ==> r->0 == self.image_of(p),
    {
        let x = axis(self.scale_x, self.shift_x, p.x);
        let y = axis(self.scale_y, self.shift_y, p.y);
        match (x, y) {
            (Some(x), Some(y)) => Some(Point { x, y }),
            _ => None,
        }
    }
}

fn axis(scale: i64, shift: i64, v: i64) -> (r: Option<i64>)
    ensures
        r is Some <==> fits_i64(scale * v + shift),
        r is Some ==> r->0 == scale * v + shift,
{
    assert(-0x8000_0000_0000_0000 * 0x8000_0000_0000_0000 <= scale * v <= 0x8000_0000_0000_0000
        * 0x8000_0000_0000_0000) by (nonlinear_arith)
        requires
            -0x8000_0000_0000_0000 <= scale <= 0x8000_0000_0000_0000,
            -0x8000_0000_0000_0000 <= v <= 0x8000_0000_0000_0000,
    ;
    let image: i128 = scale as i128 * v as i128 + shift as i128;
    if image >= i64::MIN as i128 && image <= i64::MAX as i128 {
        Some(image as i64)
    } else {
        None
    }
}

/// Projects a box from image pixels to display coordinates, corner by
/// corner. `None` if a corner's image does not fit into 64 bits.
pub fn to_screen_space(aabb: &Aabb, projection: &Projection) -> (r: Option<Aabb>)
    ensures
        r is Some <==> projection.covers(*aabb),
        r is Some ==> r->0 == projection.projected(*aabb),
{
    let min = projection.project(aabb.min);
    let max = projection.project(aabb.max);
    match (min, max) {
        (Some(min), Some(max)) => Some(Aabb { min, max }),
        _ => None,
    }
}

/// A word with its box projected.
pub open spec fn projected_word(projection: Projection) -> spec_fn(WordView) -> WordView {
    |w: WordView| WordView { text: w.text, bounds: projection.projected(w.bounds) }
}

/// A line with its box projected.
pub open spec fn projected_line(projection: Projection) -> spec_fn(Line) -> Line {
    |l: Line| Line { bounds: projection.projected(l.bounds), word_range: l.word_range }
}

/// An item with its box projected.
pub open spec fn projected_item(projection: Projection) -> spec_fn(ItemView) -> ItemView {
    |i: ItemView| ItemView { name: i.name, bounds: projection.projected(i.bounds) }
}

/// Whether every box of `results` has an image that fits into 64 bits.
pub open spec fn covers_all(projection: Projection, results: OcrResultsView) -> bool {
    &&& projection.covers(results.detect_aabb)
    &&& forall|i: int|
        0 <= i < results.words.len() ==> projection.covers(#[trigger] results.words[i].bounds)
    &&& forall|i: int|
        0 <= i < results.lines.len() ==> projection.covers(#[trigger] results.lines[i].bounds)
    &&& forall|i: int|
        0 <= i < results.items.len() ==> projection.covers(#[trigger] results.items[i].bounds)
}

/// `results` with every box projected: those of the words, the lines and
/// the items, and the box around the region.
pub open spec fn projected_results(
    projection: Projection,
    results: OcrResultsView,
) -> OcrResultsView {
    OcrResultsView {
        detect_aabb: projection.projected(results.detect_aabb),
        words: results.words.map_values(projected_word(projection)),
        lines: results.lines.map_values(projected_line(projection)),
        items: results.items.map_values(projected_item(projection)),
        space: CoordinateSpace::Screen,
    }
}

fn project_words(words: &Vec<Word>, projection: &Projection) -> (r: Option<Vec<Word>>)
    ensures
        r is Some <==> forall|i: int|
            0 <= i < words@.len() ==> projection.covers(#[trigger] word_views(words@)[i].bounds),
        r is Some ==> word_views(r->0@) == word_views(words@).map_values(
            projected_word(*projection),
        ),
{
    let ghost all = word_views(words@);
    let mut out: Vec<Word> = Vec::new();
    let mut i: usize = 0;
    while i < words.len()
        invariant
            0 <= i <= words@.len(),
            all == word_views(words@),
            out@.len() == i,
            forall|k: int| 0 <= k < i ==> projection.covers(#[trigger] all[k].bounds),
            forall|k: int|
                0 <= k < i ==> (#[trigger] out@[k])@ == projected_word(*projection)(all[k]),
        decreases words@.len() - i,
    {
        let word = &words[i];
        assert(all[i as int] == word@);
        match to_screen_space(&word.bounds, projection) {
            Some(bounds) => {
                out.push(Word { text: word.text.clone(), bounds });
            },
            None => {
                assert(!projection.covers(word_views(words@)[i as int].bounds));
                return None;
            },
        }
        i += 1;
    }
    assert(word_views(out@) =~= all.map_values(projected_word(*projection)));
    Some(out)
}

fn project_lines(lines: &Vec<Line>, projection: &Projection) -> (r: Option<Vec<Line>>)
    ensures
        r is Some <==> forall|i: int|
            0 <= i < lines@.len() ==> projection.covers(#[trigger] lines@[i].bounds),
        r is Some ==> r->0@ == lines@.map_values(projected_line(*projection)),
{
    let mut out: Vec<Line> = Vec::new();
    let mut i: usize = 0;
    while i < lines.len()
        invariant
            0 <= i <= lines@.len(),
            out@.len() == i,
            forall|k: int| 0 <= k < i ==> projection.covers(#[trigger] lines@[k].bounds),
            forall|k: int|
                0 <= k < i ==> #[trigger] out@[k] == projected_line(*projection)(lines@[k]),
        decreases lines@.len() - i,
    {
        let line = &lines[i];
        match to_screen_space(&line.bounds, projection) {
            Some(bounds) => {
                out.push(Line { bounds, word_range: line.word_range.start..line.word_range.end });
            },
            None => {
                return None;
            },
        }
        i += 1;
    }
    assert(out@ =~= lines@.map_values(projected_line(*projection)));
    Some(out)
}

fn project_items(items: &Vec<Item>, projection: &Projection) -> (r: Option<Vec<Item>>)
    ensures
        r is Some <==> forall|i: int|
            0 <= i < items@.len() ==> projection.covers(#[trigger] item_views(items@)[i].bounds),
        r is Some ==> item_views(r->0@) == item_views(items@).map_values(
            projected_item(*projection),
        ),
{
    let ghost all = item_views(items@);
    let mut out: Vec<Item> = Vec::new();
    let mut i: usize = 0;
    while i < items.len()
        invariant
            0 <= i <= items@.len(),
            all == item_views(items@),
            out@.len() == i,
            forall|k: int| 0 <= k < i ==> projection.covers(#[trigger] all[k].bounds),
            forall|k: int|
                0 <= k < i ==> (#[trigger] out@[k])@ == projected_item(*projection)(all[k]),
        decreases items@.len() - i,
    {
        let item = &items[i];
        assert(all[i as int] == item@);
        match to_screen_space(&item.bounds, projection) {
            Some(bounds) => {
                out.push(Item { name: item.name.clone(), bounds });
            },
            None => {
                assert(!projection.covers(item_views(items@)[i as int].bounds));
                return None;
            },
        }
        i += 1;
    }
    assert(item_views(out@) =~= all.map_values(projected_item(*projection)));
    Some(out)
}

impl OcrResults {
    /// Moves every box from image pixels to display coordinates: those of
    /// the words, the lines and the items, and the box around the region.
    ///
    /// Results that are in display coordinates already stay as they are, so
    /// that no box is ever projected twice. If the image of any box does not
    /// fit into 64 bits, nothing changes and the call fails with
    /// `ProjectionOverflow`.
    pub fn convert_aabbs_inplace(&mut self, projection: &Projection) -> (r: Result<(), OcrError>)
        ensures
            old(self)@.space is Screen ==> r is Ok && final(self)@ == old(self)@,
            old(self)@.space is Image && covers_all(*projection, old(self)@) ==> r is Ok
                && final(self)@ == projected_results(*projection, old(self)@),
            old(self)@.space is Image && !covers_all(*projection, old(self)@) ==> (r matches Err(
                OcrError::ProjectionOverflow,
            )) && final(self)@ == old(self)@,
    {
        match self.space {
            CoordinateSpace::Screen => {
                return Ok(());
            },
            CoordinateSpace::Image => {},
        }
        let detect_aabb = to_screen_space(&self.detect_aabb, projection);
        let words = project_words(&self.words, projection);
        let lines = project_lines(&self.lines, projection);
        let items = project_items(&self.items, projection);
        match (detect_aabb, words, lines, items) {
            (Some(detect_aabb), Some(words), Some(lines), Some(items)) => {
                self.detect_aabb = detect_aabb;
                self.words = words;
                self.lines = lines;
                self.items = items;
                self.space = CoordinateSpace::Screen;
                Ok(())
            },
            _ => Err(OcrError::ProjectionOverflow),
        }
    }
}

} // verus!
