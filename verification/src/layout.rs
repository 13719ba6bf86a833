//! Screen layouts and their selection: which configured layout a captured
//! frame shows, judged by the frame's aspect ratio and by colour probes, and
//! where in the frame that layout's text lies.

use crate::frame::{RgbaFrame, RgbaFrameView};
use crate::geometry::{Aabb, Point, UVec2};
use vstd::prelude::*;

verus! {

/// A colour of four 8-bit channels.
#[derive(Clone, Copy, Debug, PartialEq, Eq, Structural)]
pub struct Rgba8 {
    pub r: u8,
    pub g: u8,
    pub b: u8,
    pub a: u8,
}

/// A colour probe: the pixel in column `x` of row `y` is expected to show
/// `color`, give or take `tolerance`.
#[derive(Clone, Copy, Debug, PartialEq, Eq, Structural)]
pub struct PixelCheck {
    pub x: u32,
    pub y: u32,
    pub color: Rgba8,
    /// The largest accepted distance from `color`, in steps of one channel
    /// value; 0 asks for the very same colour.
    pub tolerance: u32,
}

/// A screen region that holds text, as laid out for a reference resolution.
#[derive(Clone, Copy, Debug, PartialEq, Eq, Structural)]
pub struct Layout {
    pub offset: UVec2,
    pub size: UVec2,
    /// The resolution that `offset` and `size` were measured at.
    pub reference_resolution: UVec2,
    pub theme_text_color: Rgba8,
    pub item_name_distance: u32,
}

/// A layout together with what tells that a frame shows it.
#[derive(Clone, Debug)]
pub struct LayoutOption {
    /// Width to height, as in `[16, 9]`.
    pub aspect_ratio: [u32; 2],
    pub pixel_checks: Vec<PixelCheck>,
    pub config: Layout,
}

/// The region of a frame to read text from, in that frame's pixels.
#[derive(Clone, Copy, Debug, PartialEq, Eq, Structural)]
pub struct OcrBounds {
    pub x: u32,
    pub y: u32,
    pub width: u32,
    pub height: u32,
}

/// The settings that the pipeline reads.
#[derive(Clone, Debug)]
pub struct Config {
    pub overlay: bool,
    /// Seconds after which a stored market price counts as stale.
    pub refresh_market_after: u64,
    pub show_keys: bool,
    /// Whether each normalised capture is also written to disk.
    pub save_to_disk: bool,
    /// The widest horizontal gap, in pixels, that still keeps two words in
    /// one item.
    pub column_gap: i64,
    /// The layouts to choose from, in order of preference.
    pub layouts: Vec<LayoutOption>,
}

/// The square of the distance between two colours in red, green and blue.
/// Alpha does not count.
pub open spec fn distance_squared(a: Rgba8, b: Rgba8) -> int {
    (a.r - b.r) * (a.r - b.r) + (a.g - b.g) * (a.g - b.g) + (a.b - b.b) * (a.b - b.b)
}

/// The colour that four bytes in red, green, blue, alpha order give.
pub open spec fn color_of(bytes: Seq<u8>) -> Rgba8 {
    Rgba8 { r: bytes[0], g: bytes[1], b: bytes[2], a: bytes[3] }
}

/// Whether a width-to-height ratio is that of a `width` x `height` frame,
/// by cross-multiplication.
pub open spec fn aspect_matches(ratio: [u32; 2], width: u32, height: u32) -> bool {
    ratio[0] * height == ratio[1] * width
}

fn abs_diff(a: u8, b: u8) -> (d: u64)
    ensures
        d * d == (a - b) * (a - b),
        d <= 255,
{
    let d: u64 = if a >= b {
        (a - b) as u64
    } else {
        (b - a) as u64
    };
    assert(d * d == (a - b) * (a - b)) by (nonlinear_arith)
        requires
            d == a - b || d == b - a,
    ;
    d
}

impl Rgba8 {
    /// The colour of four bytes in red, green, blue, alpha order.
    pub fn from_u8_array(bytes: [u8; 4]) -> (c: Rgba8)
        ensures
            c == color_of(bytes@),
    {
        Rgba8 { r: bytes[0], g: bytes[1], b: bytes[2], a: bytes[3] }
    }
}

impl PixelCheck {
    /// Whether `pixel` passes for the expected colour: with tolerance 0 all
    /// four channels have to be equal; with a greater tolerance the distance
    /// in red, green and blue may not exceed it.
    pub open spec fn accepts(self, pixel: Rgba8) -> bool {
        if self.tolerance == 0 {
            self.color == pixel
        } else {
            distance_squared(self.color, pixel) <= self.tolerance * self.tolerance
        }
    }

    /// Whether `frame` has the probed pixel and shows an accepted colour
    /// there. A probe outside the frame fails.
    pub open spec fn passes_on(self, frame: RgbaFrameView) -> bool {
        self.x < frame.width && self.y < frame.height && self.accepts(
            color_of(frame.pixel(self.x as int, self.y as int)),
        )
    }

    /// Compares a pixel with the expected colour.
    pub fn matches_pixel(&self, pixel: &Rgba8) -> (ok: bool)
        ensures
            ok == self.accepts(*pixel),
            self.tolerance == 0 ==> (ok <==> *pixel == self.color),
    {
        if self.tolerance == 0 {
            self.color.r == pixel.r && self.color.g == pixel.g && self.color.b == pixel.b
                && self.color.a == pixel.a
        } else {
            let dr = abs_diff(self.color.r, pixel.r);
            let dg = abs_diff(self.color.g, pixel.g);
            let db = abs_diff(self.color.b, pixel.b);
            assert(dr * dr <= 255 * 255 && dg * dg <= 255 * 255 && db * db <= 255 * 255)
                by (nonlinear_arith)
                requires
                    0 <= dr <= 255,
                    0 <= dg <= 255,
                    0 <= db <= 255,
            ;
            assert(self.tolerance * self.tolerance <= 0xffff_ffff * 0xffff_ffff)
                by (nonlinear_arith)
                requires
                    0 <= self.tolerance <= 0xffff_ffff,
            ;
            let distance2: u64 = dr * dr + dg * dg + db * db;
            let tolerance2: u64 = self.tolerance as u64 * self.tolerance as u64;
            distance2 <= tolerance2
        }
    }
}

impl LayoutOption {
    /// Whether every probe passes on `frame`.
    pub open spec fn probes_pass(self, frame: RgbaFrameView) -> bool {
        forall|i: int|
            0 <= i < self.pixel_checks@.len() ==> (#[trigger] self.pixel_checks@[i]).passes_on(
                frame,
            )
    }

    /// Whether `frame` shows this layout: the aspect ratio is the frame's,
    /// and every probe passes.
    pub open spec fn fits(self, frame: RgbaFrameView) -> bool {
        aspect_matches(self.aspect_ratio, frame.width, frame.height) && self.probes_pass(frame)
    }

    /// Compares the aspect ratio with a frame's size, exactly.
    pub fn aspect_ratio_matches(&self, img_width: u32, img_height: u32) -> (ok: bool)
        ensures
            ok == aspect_matches(self.aspect_ratio, img_width, img_height),
            ok <==> self.aspect_ratio[0] * img_height == self.aspect_ratio[1] * img_width,
    {
        let a: u32 = self.aspect_ratio[0];
        let b: u32 = self.aspect_ratio[1];
        assert(a * img_height <= 0xffff_ffff * 0xffff_ffff && b * img_width <= 0xffff_ffff
            * 0xffff_ffff) by (nonlinear_arith)
            requires
                0 <= a <= 0xffff_ffff,
                0 <= b <= 0xffff_ffff,
                0 <= img_width <= 0xffff_ffff,
                0 <= img_height <= 0xffff_ffff,
        ;
        a as u64 * img_height as u64 == b as u64 * img_width as u64
    }

    /// Runs every probe on `image`.
    pub fn verify_pixel_checks(&self, image: &RgbaFrame) -> (ok: bool)
        ensures
            ok == self.probes_pass(image@),
    {
        let mut i: usize = 0;
        while i < self.pixel_checks.len()
            invariant
                0 <= i <= self.pixel_checks@.len(),
                forall|k: int| 0 <= k < i ==> (#[trigger] self.pixel_checks@[k]).passes_on(image@),
            decreases self.pixel_checks@.len() - i,
        {
            let check = &self.pixel_checks[i];
            let passed = match image.get_pixel(check.x, check.y) {
                Some(bytes) => check.matches_pixel(&Rgba8::from_u8_array(bytes)),
                None => false,
            };
            if !passed {
                assert(!self.pixel_checks@[i as int].passes_on(image@));
                return false;
            }
            i += 1;
        }
        true
    }

    /// Whether `image` shows this layout.
    pub fn matches(&self, image: &RgbaFrame) -> (ok: bool)
        ensures
            ok == self.fits(image@),
    {
        let (width, height) = image.dimensions();
        self.aspect_ratio_matches(width, height) && self.verify_pixel_checks(image)
    }
}

/// The predicate "fits `frame`".
pub open spec fn fitting(frame: RgbaFrameView) -> spec_fn(LayoutOption) -> bool {
    |option: LayoutOption| option.fits(frame)
}

/// Whether `options[i]` fits `frame` and no earlier option does.
pub open spec fn is_first_fit(options: Seq<LayoutOption>, frame: RgbaFrameView, i: int) -> bool {
    &&& 0 <= i < options.len()
    &&& options[i].fits(frame)
    &&& forall|j: int| 0 <= j < i ==> !(#[trigger] options[j]).fits(frame)
}

/// The layout of the first option that fits `frame`, if any fits.
pub open spec fn first_fit(options: Seq<LayoutOption>, frame: RgbaFrameView) -> Option<Layout>
    decreases options.len(),
{
    if options.len() == 0 {
        None
    } else if options[0].fits(frame) {
        Some(options[0].config)
    } else {
        first_fit(options.drop_first(), frame)
    }
}

/// The first fit is the layout of the one option that fits while none
/// before it does; there is none exactly if no option fits.
pub proof fn lemma_first_fit(options: Seq<LayoutOption>, frame: RgbaFrameView)
    ensures
        first_fit(options, frame) is None <==> forall|i: int|
            0 <= i < options.len() ==> !(#[trigger] options[i]).fits(frame),
        forall|i: int|
            is_first_fit(options, frame, i) ==> first_fit(options, frame) == Some(
                options[i].config,
            ),
    decreases options.len(),
{
    if options.len() > 0 {
        let rest = options.drop_first();
        lemma_first_fit(rest, frame);
        if options[0].fits(frame) {
            assert forall|i: int| is_first_fit(options, frame, i) implies i == 0 by {
                if i > 0 {
                    assert(!options[0].fits(frame));
                }
            }
        } else {
            assert forall|i: int|
                0 <= i < options.len() && first_fit(options, frame) is None implies !(
                #[trigger] options[i]).fits(frame) by {
                if i > 0 {
                    assert(options[i] == rest[i - 1]);
                }
            }
            if first_fit(rest, frame) is Some {
                let k = choose|k: int| 0 <= k < rest.len() && (#[trigger] rest[k]).fits(frame);
                assert(options[k + 1] == rest[k]);
            }
            assert forall|i: int| is_first_fit(options, frame, i) implies first_fit(
                options,
                frame,
            ) == Some(options[i].config) by {
                assert(i > 0);
                assert(options[i] == rest[i - 1]);
                assert forall|j: int| 0 <= j < i - 1 implies !(#[trigger] rest[j]).fits(frame) by {
                    assert(rest[j] == options[j + 1]);
                }
                assert(is_first_fit(rest, frame, i - 1));
            }
        }
    }
}

/// The options that a sequence of references points at, in order.
pub open spec fn pointees(refs: Seq<&LayoutOption>) -> Seq<LayoutOption> {
    refs.map_values(|o: &LayoutOption| *o)
}

/// How many times larger one axis of a frame is than the reference: the
/// quotient, where the reference length is positive and divides the actual
/// length at least once without remainder.
pub open spec fn axis_factor(actual: u32, reference: u32) -> Option<int> {
    if reference > 0 && actual >= reference && actual % reference == 0 {
        Some(actual as int / reference as int)
    } else {
        None
    }
}

impl Layout {
    /// The text region in a frame of the resolution `actual`: offset and
    /// size multiplied, axis by axis, by the whole number of times that the
    /// frame is larger than the reference resolution. There is none where
    /// that is not a positive whole number on both axes, or where the region
    /// would reach beyond what 32 bits can address.
    pub open spec fn bounds_at(self, actual: UVec2) -> Option<OcrBounds> {
        match (
            axis_factor(actual.x, self.reference_resolution.x),
            axis_factor(actual.y, self.reference_resolution.y),
        ) {
            (Some(fx), Some(fy)) => {
                if self.offset.x * fx <= u32::MAX && self.size.x * fx <= u32::MAX && self.offset.y
                    * fy <= u32::MAX && self.size.y * fy <= u32::MAX {
                    Some(
                        OcrBounds {
                            x: (self.offset.x * fx) as u32,
                            y: (self.offset.y * fy) as u32,
                            width: (self.size.x * fx) as u32,
                            height: (self.size.y * fy) as u32,
                        },
                    )
                } else {
                    None
                }
            },
            _ => None,
        }
    }

    /// Scales the text region to a frame of the resolution `actual`.
    pub fn ocr_bounds(&self, actual: UVec2) -> (r: Option<OcrBounds>)
        ensures
            r == self.bounds_at(actual),
            actual == self.reference_resolution && actual.x > 0 && actual.y > 0 ==> r == Some(
                OcrBounds {
                    x: self.offset.x,
                    y: self.offset.y,
                    width: self.size.x,
                    height: self.size.y,
                },
            ),
    {
        let fx = match scale_of(actual.x, self.reference_resolution.x) {
            Some(f) => f,
            None => {
                return None;
            },
        };
        let fy = match scale_of(actual.y, self.reference_resolution.y) {
            Some(f) => f,
            None => {
                return None;
            },
        };
        proof {
            if fx == 1 {
                assert(self.offset.x * 1 == self.offset.x && self.size.x * 1 == self.size.x);
            }
            if fy == 1 {
                assert(self.offset.y * 1 == self.offset.y && self.size.y * 1 == self.size.y);
            }
        }
        let x = scaled(self.offset.x, fx);
        let y = scaled(self.offset.y, fy);
        let width = scaled(self.size.x, fx);
        let height = scaled(self.size.y, fy);
        match (x, y, width, height) {
            (Some(x), Some(y), Some(width), Some(height)) => {
                Some(OcrBounds { x, y, width, height })
            },
            _ => None,
        }
    }
}

fn scale_of(actual: u32, reference: u32) -> (f: Option<u32>)
    ensures
        f is Some <==> axis_factor(actual, reference) is Some,
        f is Some ==> f->0 == axis_factor(actual, reference)->0,
        actual == reference && actual > 0 ==> f == Some(1u32),
{
    proof {
        if actual == reference && actual > 0 {
            vstd::arithmetic::div_mod::lemma_div_basics(actual as int);
            vstd::arithmetic::div_mod::lemma_mod_self_0(actual as int);
        }
    }
    if reference > 0 && actual >= reference && actual % reference == 0 {
        Some(actual / reference)
    } else {
        None
    }
}

fn scaled(length: u32, factor: u32) -> (r: Option<u32>)
    ensures
        r is Some <==> length * factor <= u32::MAX,
        r is Some ==> r->0 == length * factor,
{
    assert(0 <= length * factor <= 0xffff_ffff * 0xffff_ffff) by (nonlinear_arith)
        requires
            0 <= length <= 0xffff_ffff,
            0 <= factor <= 0xffff_ffff,
    ;
    let product: u64 = length as u64 * factor as u64;
    if product <= u32::MAX as u64 {
        Some(product as u32)
    } else {
        None
    }
}

impl OcrBounds {
    /// The box drawn around the region: one pixel wider on every side.
    pub open spec fn framed(self) -> Aabb {
        Aabb {
            min: Point { x: (self.x - 1) as i64, y: (self.y - 1) as i64 },
            max: Point {
                x: (self.x + self.width + 1) as i64,
                y: (self.y + self.height + 1) as i64,
            },
        }
    }

    /// The box drawn around the region.
    pub fn detect_aabb(&self) -> (r: Aabb)
        ensures
            r == self.framed(),
    {
        Aabb {
            min: Point { x: self.x as i64 - 1, y: self.y as i64 - 1 },
            max: Point {
                x: self.x as i64 + self.width as i64 + 1,
                y: self.y as i64 + self.height as i64 + 1,
            },
        }
    }
}

impl Default for Layout {
    fn default() -> (r: Layout)
        ensures
            r == (Layout {
                offset: UVec2 { x: 478, y: 411 },
                size: UVec2 { x: 965, y: 49 },
                reference_resolution: UVec2 { x: 1920, y: 1080 },
                theme_text_color: Rgba8 { r: 0xbe, g: 0xa9, b: 0x66, a: 0xff },
                item_name_distance: 90,
            }),
    {
        Layout {
            offset: UVec2 { x: 478, y: 411 },
            size: UVec2 { x: 965, y: 49 },
            reference_resolution: UVec2 { x: 1920, y: 1080 },
            theme_text_color: Rgba8 { r: 0xbe, g: 0xa9, b: 0x66, a: 0xff },
            item_name_distance: 90,
        }
    }
}

impl Default for Config {
    /// One 16:9 layout without probes, and a column gap of 15 pixels.
    fn default() -> (r: Config)
        ensures
            r.overlay,
            r.refresh_market_after == 172800,
            !r.show_keys,
            !r.save_to_disk,
            r.column_gap == 15,
            r.layouts@.len() == 1,
            r.layouts@[0].aspect_ratio@ == seq![16u32, 9u32],
            r.layouts@[0].pixel_checks@.len() == 0,
            r.layouts@[0].config == (Layout {
                offset: UVec2 { x: 478, y: 411 },
                size: UVec2 { x: 965, y: 49 },
                reference_resolution: UVec2 { x: 1920, y: 1080 },
                theme_text_color: Rgba8 { r: 0xbe, g: 0xa9, b: 0x66, a: 0xff },
                item_name_distance: 90,
            }),
    {
        let mut layouts: Vec<LayoutOption> = Vec::new();
        let aspect_ratio: [u32; 2] = [16, 9];
        assert(aspect_ratio@ =~= seq![16u32, 9u32]);
        layouts.push(
            LayoutOption { aspect_ratio, pixel_checks: Vec::new(), config: Layout::default() },
        );
        Config {
            overlay: true,
            refresh_market_after: 172800,
            show_keys: false,
            save_to_disk: false,
            column_gap: 15,
            layouts,
        }
    }
}

impl Config {
    /// The layout of the first option that `image` shows, if any does.
    pub fn find_matching_layout(&self, image: &RgbaFrame) -> (r: Option<&Layout>)
        ensures
            r is None <==> forall|i: int|
                0 <= i < self.layouts@.len() ==> !(#[trigger] self.layouts@[i]).fits(image@),
            r is Some ==> exists|i: int|
                is_first_fit(self.layouts@, image@, i) && *r->0 == self.layouts@[i].config,
            r is Some <==> first_fit(self.layouts@, image@) is Some,
            r is Some ==> *r->0 == first_fit(self.layouts@, image@)->0,
    {
        proof {
            lemma_first_fit(self.layouts@, image@);
        }
        let mut i: usize = 0;
        while i < self.layouts.len()
            invariant
                0 <= i <= self.layouts@.len(),
                forall|j: int| 0 <= j < i ==> !(#[trigger] self.layouts@[j]).fits(image@),
            decreases self.layouts@.len() - i,
        {
            if self.layouts[i].matches(image) {
                proof {
                    assert(is_first_fit(self.layouts@, image@, i as int));
                    lemma_first_fit(self.layouts@, image@);
                }
                return Some(&self.layouts[i].config);
            }
            i += 1;
        }
        None
    }

    /// Every option that `image` shows, in configured order.
    pub fn find_all_matching_layouts(&self, image: &RgbaFrame) -> (r: Vec<&LayoutOption>)
        ensures
            pointees(r@) == self.layouts@.filter(fitting(image@)),
    {
        let mut found: Vec<&LayoutOption> = Vec::new();
        let ghost all = self.layouts@;
        let ghost pred = fitting(image@);
        let mut i: usize = 0;
        proof {
            assert(all.take(0) =~= Seq::<LayoutOption>::empty());
            all.take(0).lemma_filter_len(pred);
            assert(pointees(found@) =~= all.take(0).filter(pred));
        }
        while i < self.layouts.len()
            invariant
                0 <= i <= self.layouts@.len(),
                all == self.layouts@,
                pred == fitting(image@),
                pointees(found@) == all.take(i as int).filter(pred),
            decreases self.layouts@.len() - i,
        {
            let ghost before = found@;
            proof {
                all.lemma_take_succ_push(i as int);
                all.take(i as int).lemma_filter_push(all[i as int], pred);
            }
            if self.layouts[i].matches(image) {
                found.push(&self.layouts[i]);
                assert(pointees(found@) =~= pointees(before).push(all[i as int]));
            }
            i += 1;
        }
        proof {
            assert(all.take(i as int) =~= all);
        }
        found
    }
}

} // verus!
