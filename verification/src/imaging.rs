//! Image operations on frames: cutting out a region, and the fixed sequence
//! of filters that prepares a region of small, low-contrast text for the OCR
//! engine.

use crate::frame::{RgbaFrame, RgbaFrameView};
use crate::geometry::min_int;
use crate::layout::OcrBounds;
use vstd::prelude::*;

verus! {

/// One filter of the preparation.
#[derive(Clone, Copy, Debug, PartialEq, Eq, Structural)]
pub enum Filter {
    /// Unsharp masking: `sigma` is the amount of blur that the mask is made
    /// with, `threshold` the reach below which a difference is left alone.
    Unsharpen { sigma: u16, threshold: i32 },
    /// A change of contrast, in percent; positive values raise it.
    Contrast(i16),
    /// A Gaussian blur of the given strength.
    Blur(u16),
    /// Each colour channel replaced by its complement.
    Invert,
    /// The given value added to each colour channel.
    Brighten(i32),
}

/// The part of `frame` that `bounds` covers. A region that reaches beyond the
/// frame is cut off at the frame's border, and one that starts outside is
/// empty. The pixel in column `x` of row `y` of the result is the frame's
/// pixel in column `x + left` of row `y + top`, where `(left, top)` is the
/// region's corner.
pub open spec fn cropped(frame: RgbaFrameView, bounds: OcrBounds) -> RgbaFrameView {
    let left = min_int(bounds.x as int, frame.width as int);
    let top = min_int(bounds.y as int, frame.height as int);
    let width = min_int(bounds.width as int, frame.width - left);
    let height = min_int(bounds.height as int, frame.height - top);
    RgbaFrameView {
        width: width as u32,
        height: height as u32,
        bytes: Seq::new(
            (4 * width * height) as nat,
            |i: int|
                {
                    let x = (i / 4) % width;
                    let y = (i / 4) / width;
                    frame.bytes[4 * ((top + y) * frame.width + left + x) + i % 4]
                },
        ),
    }
}

/// `bytes` with every colour byte replaced by its complement to 255; every
/// fourth byte, the alpha, stays.
pub open spec fn inverted(bytes: Seq<u8>) -> Seq<u8> {
    Seq::new(
        bytes.len(),
        |i: int|
            if i % 4 == 3 {
                bytes[i]
            } else {
                (255 - bytes[i]) as u8
            },
    )
}

/// `value` kept within 0 and 255.
pub open spec fn channel(value: int) -> u8 {
    if value < 0 {
        0u8
    } else if value > 255 {
        255u8
    } else {
        value as u8
    }
}

/// `bytes` with `value` added to every colour byte, kept within 0 and 255;
/// every fourth byte, the alpha, stays.
pub open spec fn brightened(bytes: Seq<u8>, value: int) -> Seq<u8> {
    Seq::new(
        bytes.len(),
        |i: int|
            if i % 4 == 3 {
                bytes[i]
            } else {
                channel(bytes[i] + value)
            },
    )
}

/// The bytes that `image::imageops::unsharpen` gives for an image of the
/// given size and bytes.
pub uninterp spec fn unsharpened(
    bytes: Seq<u8>,
    width: u32,
    height: u32,
    sigma: u16,
    threshold: i32,
) -> Seq<u8>;

/// The bytes that `image::imageops::contrast` gives for an image of the given
/// size and bytes.
pub uninterp spec fn contrasted(bytes: Seq<u8>, width: u32, height: u32, amount: i16) -> Seq<u8>;

/// The bytes that `image::imageops::blur` gives for an image of the given
/// size and bytes.
pub uninterp spec fn blurred(bytes: Seq<u8>, width: u32, height: u32, sigma: u16) -> Seq<u8>;

/// The frame after one filter. A frame without pixels stays as it is, and so
/// does any frame under unsharp masking with a strength of zero.
pub open spec fn applied(frame: RgbaFrameView, filter: Filter) -> RgbaFrameView {
    if frame.width == 0 || frame.height == 0 {
        frame
    } else {
        match filter {
            Filter::Unsharpen { sigma, threshold } => if sigma == 0 {
                frame
            } else {
                RgbaFrameView {
                    bytes: unsharpened(frame.bytes, frame.width, frame.height, sigma, threshold),
                    ..frame
                }
            },
            Filter::Contrast(amount) => RgbaFrameView {
                bytes: contrasted(frame.bytes, frame.width, frame.height, amount),
                ..frame
            },
            Filter::Blur(sigma) => RgbaFrameView {
                bytes: blurred(frame.bytes, frame.width, frame.height, sigma),
                ..frame
            },
            Filter::Invert => RgbaFrameView { bytes: inverted(frame.bytes), ..frame },
            Filter::Brighten(value) => RgbaFrameView {
                bytes: brightened(frame.bytes, value as int),
                ..frame
            },
        }
    }
}

/// The frame after the first `count` of `filters`, one after the other.
pub open spec fn applied_first(
    frame: RgbaFrameView,
    filters: Seq<Filter>,
    count: nat,
) -> RgbaFrameView
    decreases count,
{
    if count == 0 {
        frame
    } else {
        applied(applied_first(frame, filters, (count - 1) as nat), filters[count - 1])
    }
}

/// A region that lies within the frame is cut out as it is: the result has
/// the region's size, and each of its pixels is the frame's pixel at the same
/// place in the region.
pub proof fn lemma_cropped_inside(frame: RgbaFrameView, bounds: OcrBounds, x: int, y: int)
    requires
        frame.wf(),
        bounds.x + bounds.width <= frame.width,
        bounds.y + bounds.height <= frame.height,
        0 <= x < bounds.width,
        0 <= y < bounds.height,
    ensures
        cropped(frame, bounds).width == bounds.width,
        cropped(frame, bounds).height == bounds.height,
        cropped(frame, bounds).wf(),
        cropped(frame, bounds).pixel(x, y) == frame.pixel(bounds.x + x, bounds.y + y),
{
    let part = cropped(frame, bounds);
    let width = bounds.width as int;
    let height = bounds.height as int;
    let at = y * width + x;
    assert(0 <= at && at + 1 <= width * height) by (nonlinear_arith)
        requires
            at == y * width + x,
            0 <= x < width,
            0 <= y < height,
    ;
    assert(4 * (width * height) == 4 * width * height) by (nonlinear_arith);
    vstd::arithmetic::div_mod::lemma_fundamental_div_mod_converse(at, width, y, x);
    let from = frame.offset_of(bounds.x + x, bounds.y + y);
    assert(0 <= from && from + 4 <= frame.bytes.len()) by (nonlinear_arith)
        requires
            from == 4 * ((bounds.y + y) * frame.width + (bounds.x + x)),
            frame.bytes.len() == 4 * frame.width * frame.height,
            0 <= bounds.x + x < frame.width,
            0 <= bounds.y + y < frame.height,
    ;
    assert forall|c: int| 0 <= c < 4 implies #[trigger] part.bytes[4 * at + c] == frame.bytes[from
        + c] by {
        let i = 4 * at + c;
        assert(i / 4 == at && i % 4 == c);
        assert((bounds.y + y) * frame.width + bounds.x + x == (bounds.y + y) * frame.width + (
        bounds.x + x));
    }
    assert(part.pixel(x, y) =~= frame.pixel(bounds.x + x, bounds.y + y)) by {
        assert(part.offset_of(x, y) == 4 * at);
        assert forall|c: int| 0 <= c < 4 implies part.pixel(x, y)[c] == frame.pixel(
            bounds.x + x,
            bounds.y + y,
        )[c] by {
            assert(part.bytes[4 * at + c] == frame.bytes[from + c]);
        }
    }
}

/// `image::imageops::crop_imm` and `SubImage::to_image`: a copy of the region
/// of the frame, cut off at the frame's border.
#[verifier::external_body]
fn crop_imm(frame: &RgbaFrame, bounds: &OcrBounds) -> (r: RgbaFrame)
    requires
        frame@.wf(),
    ensures
        r@ == cropped(frame@, *bounds),
        r@.wf(),
{
    let source = image::RgbaImage::from_raw(frame.width, frame.height, frame.data.clone()).expect(
        "a frame holds its whole image",
    );
    let part = image::imageops::crop_imm(
        &source,
        bounds.x,
        bounds.y,
        bounds.width,
        bounds.height,
    ).to_image();
    RgbaFrame { width: part.width(), height: part.height(), data: part.into_raw() }
}

/// `image::imageops::unsharpen`: a sharpened copy of the same size, whose
/// bytes are those that the function gives for these bytes, this size and
/// these two settings.
#[verifier::external_body]
fn unsharpen(frame: &RgbaFrame, sigma: u16, threshold: i32) -> (r: RgbaFrame)
    requires
        frame@.wf(),
        frame@.width > 0,
        frame@.height > 0,
        sigma > 0,
    ensures
        r@.width == frame@.width,
        r@.height == frame@.height,
        r@.bytes == unsharpened(frame@.bytes, frame@.width, frame@.height, sigma, threshold),
        r@.wf(),
{
    let source = image::ImageBuffer::<image::Rgba<u8>, &[u8]>::from_raw(
        frame.width,
        frame.height,
        frame.data.as_slice(),
    ).expect("a frame holds its whole image");
    let out = image::imageops::unsharpen(&source, sigma.into(), threshold);
    RgbaFrame { width: out.width(), height: out.height(), data: out.into_raw() }
}

/// `image::imageops::contrast`: a copy of the same size with the contrast
/// changed, whose bytes are those that the function gives for these bytes,
/// this size and this amount.
#[verifier::external_body]
fn contrast(frame: &RgbaFrame, amount: i16) -> (r: RgbaFrame)
    requires
        frame@.wf(),
        frame@.width > 0,
        frame@.height > 0,
    ensures
        r@.width == frame@.width,
        r@.height == frame@.height,
        r@.bytes == contrasted(frame@.bytes, frame@.width, frame@.height, amount),
        r@.wf(),
{
    let source = image::ImageBuffer::<image::Rgba<u8>, &[u8]>::from_raw(
        frame.width,
        frame.height,
        frame.data.as_slice(),
    ).expect("a frame holds its whole image");
    let out = image::imageops::contrast(&source, amount.into());
    RgbaFrame { width: out.width(), height: out.height(), data: out.into_raw() }
}

/// `image::imageops::blur`: a blurred copy of the same size, whose bytes are
/// those that the function gives for these bytes, this size and this
/// strength.
#[verifier::external_body]
fn blur(frame: &RgbaFrame, sigma: u16) -> (r: RgbaFrame)
    requires
        frame@.wf(),
        frame@.width > 0,
        frame@.height > 0,
    ensures
        r@.width == frame@.width,
        r@.height == frame@.height,
        r@.bytes == blurred(frame@.bytes, frame@.width, frame@.height, sigma),
        r@.wf(),
{
    let source = image::ImageBuffer::<image::Rgba<u8>, &[u8]>::from_raw(
        frame.width,
        frame.height,
        frame.data.as_slice(),
    ).expect("a frame holds its whole image");
    let out = image::imageops::blur(&source, sigma.into());
    RgbaFrame { width: out.width(), height: out.height(), data: out.into_raw() }
}

/// `image::imageops::invert`: every colour channel of every pixel replaced
/// by its complement; alpha stays.
#[verifier::external_body]
fn invert(frame: &RgbaFrame) -> (r: RgbaFrame)
    requires
        frame@.wf(),
    ensures
        r@.width == frame@.width,
        r@.height == frame@.height,
        r@.bytes == inverted(frame@.bytes),
        r@.wf(),
{
    let mut out = image::RgbaImage::from_raw(frame.width, frame.height, frame.data.clone()).expect(
        "a frame holds its whole image",
    );
    image::imageops::invert(&mut out);
    RgbaFrame { width: out.width(), height: out.height(), data: out.into_raw() }
}

/// `image::imageops::brighten`: `value` added to every colour channel of
/// every pixel, kept within the channel's range; alpha stays.
#[verifier::external_body]
fn brighten(frame: &RgbaFrame, value: i32) -> (r: RgbaFrame)
    requires
        frame@.wf(),
        -255 <= value <= 255,
    ensures
        r@.width == frame@.width,
        r@.height == frame@.height,
        r@.bytes == brightened(frame@.bytes, value as int),
        r@.wf(),
{
    let source = image::ImageBuffer::<image::Rgba<u8>, &[u8]>::from_raw(
        frame.width,
        frame.height,
        frame.data.as_slice(),
    ).expect("a frame holds its whole image");
    let out = image::imageops::brighten(&source, value);
    RgbaFrame { width: out.width(), height: out.height(), data: out.into_raw() }
}

/// The filters that prepare a region for the OCR engine, in the order in
/// which they are applied: unsharpen by 20 with 15, contrast up by 20, blur
/// by 1, unsharpen by 5 with 15, invert, brightness down by 30, contrast up
/// by 20. The sequence is tuned for small text of low contrast.
pub open spec fn preparation() -> Seq<Filter> {
    seq![
        Filter::Unsharpen { sigma: 20, threshold: 15 },
        Filter::Contrast(20),
        Filter::Blur(1),
        Filter::Unsharpen { sigma: 5, threshold: 15 },
        Filter::Invert,
        Filter::Brighten(-30i32),
        Filter::Contrast(20),
    ]
}

/// The filters that prepare a region for the OCR engine: sharpen strongly,
/// raise the contrast, blur slightly, sharpen again, invert, darken, and
/// raise the contrast once more.
pub fn preparation_filters() -> (filters: [Filter; 7])
    ensures
        filters@ == preparation(),
{
    let filters = [
        Filter::Unsharpen { sigma: 20, threshold: 15 },
        Filter::Contrast(20),
        Filter::Blur(1),
        Filter::Unsharpen { sigma: 5, threshold: 15 },
        Filter::Invert,
        Filter::Brighten(-30),
        Filter::Contrast(20),
    ];
    assert(filters@ =~= preparation());
    filters
}

/// Cuts the region `bounds` out of `frame`.
pub fn crop(frame: &RgbaFrame, bounds: &OcrBounds) -> (r: RgbaFrame)
    ensures
        r@ == cropped(frame@, *bounds),
        r@.wf(),
{
    proof {
        use_type_invariant(frame);
    }
    crop_imm(frame, bounds)
}

/// Adding more than 255 to a channel, or taking more than 255 away, does
/// what adding or taking away 255 does.
proof fn lemma_brightened_saturates(bytes: Seq<u8>, value: int)
    ensures
        value > 255 ==> brightened(bytes, value) == brightened(bytes, 255),
        value < -255 ==> brightened(bytes, value) == brightened(bytes, -255),
{
    if value > 255 {
        assert(brightened(bytes, value) =~= brightened(bytes, 255));
    }
    if value < -255 {
        assert(brightened(bytes, value) =~= brightened(bytes, -255));
    }
}

/// Applies one filter. A frame without pixels comes back as it is, and so
/// does any frame from unsharp masking with a strength of zero.
pub fn apply_filter(frame: RgbaFrame, filter: Filter) -> (r: RgbaFrame)
    ensures
        r@ == applied(frame@, filter),
        r@.wf(),
{
    proof {
        use_type_invariant(&frame);
    }
    if frame.width == 0 || frame.height == 0 {
        return frame;
    }
    match filter {
        Filter::Unsharpen { sigma, threshold } => {
            if sigma == 0 {
                frame
            } else {
                unsharpen(&frame, sigma, threshold)
            }
        },
        Filter::Contrast(amount) => contrast(&frame, amount),
        Filter::Blur(sigma) => blur(&frame, sigma),
        Filter::Invert => invert(&frame),
        Filter::Brighten(value) => {
            let bounded: i32 = if value > 255 {
                255
            } else if value < -255 {
                -255
            } else {
                value
            };
            proof {
                lemma_brightened_saturates(frame@.bytes, value as int);
            }
            brighten(&frame, bounded)
        },
    }
}

/// Filters keep the size of a frame.
pub proof fn lemma_applied_first_keeps_size(frame: RgbaFrameView, filters: Seq<Filter>, count: nat)
    ensures
        applied_first(frame, filters, count).width == frame.width,
        applied_first(frame, filters, count).height == frame.height,
    decreases count,
{
    if count > 0 {
        lemma_applied_first_keeps_size(frame, filters, (count - 1) as nat);
    }
}

/// Prepares a region for the OCR engine: the result is the frame after the
/// seven filters of `preparation`, applied one after the other in that
/// order. The size stays.
pub fn prepare(frame: RgbaFrame) -> (r: RgbaFrame)
    ensures
        r@ == applied_first(frame@, preparation(), 7),
        r@.width == frame@.width,
        r@.height == frame@.height,
        r@.wf(),
{
    proof {
        use_type_invariant(&frame);
    }
    let filters = preparation_filters();
    let ghost before = frame@;
    let mut current = frame;
    let mut i: usize = 0;
    while i < 7
        invariant
            0 <= i <= 7,
            filters@ == preparation(),
            filters@.len() == 7,
            current@ == applied_first(before, preparation(), i as nat),
            current@.wf(),
        decreases 7 - i,
    {
        current = apply_filter(current, filters[i]);
        i += 1;
    }
    proof {
        lemma_applied_first_keeps_size(before, preparation(), 7);
    }
    current
}

} // verus!
