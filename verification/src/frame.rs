//! Captured frames: the pixel formats a capture may declare, the normalised
//! RGBA image that the rest of the pipeline works on, and the holder of the
//! latest frame bytes and metadata.

use vstd::prelude::*;

verus! {

/// The pixel layout that a capture declares for its frames.
#[derive(Clone, Debug)]
pub enum VideoFormat {
    Bgra,
    Rgba,
    BGRx,
    RGBx,
    /// A layout this library cannot read, by the name the capture gave it.
    Other(String),
}

impl Default for VideoFormat {
    fn default() -> (r: VideoFormat)
        ensures
            r == VideoFormat::Bgra,
    {
        VideoFormat::Bgra
    }
}

/// The raw bytes of one captured frame.
#[derive(Clone)]
pub struct ScreencastFrame(pub Vec<u8>);

/// The size and pixel layout of the frames that a capture delivers.
#[derive(Clone)]
pub struct ScreencastMeta {
    pub width: u32,
    pub height: u32,
    pub format: VideoFormat,
}

impl Default for ScreencastMeta {
    fn default() -> (r: ScreencastMeta)
        ensures
            r.width == 0,
            r.height == 0,
            r.format == VideoFormat::Bgra,
    {
        ScreencastMeta { width: 0, height: 0, format: VideoFormat::Bgra }
    }
}

/// What an [`RgbaFrame`] stands for in contracts: its size and its bytes,
/// row by row, four bytes (red, green, blue, alpha) per pixel.
pub struct RgbaFrameView {
    pub width: u32,
    pub height: u32,
    pub bytes: Seq<u8>,
}

impl RgbaFrameView {
    /// Whether the bytes are exactly those of a `width` x `height` image.
    pub open spec fn wf(self) -> bool {
        self.bytes.len() == 4 * self.width * self.height
    }

    /// The index of the first byte of the pixel in column `x` of row `y`.
    pub open spec fn offset_of(self, x: int, y: int) -> int {
        4 * (y * self.width + x)
    }

    /// The four bytes of the pixel in column `x` of row `y`.
    pub open spec fn pixel(self, x: int, y: int) -> Seq<u8> {
        self.bytes.subrange(self.offset_of(x, y), self.offset_of(x, y) + 4)
    }
}

/// An image of 8-bit RGBA pixels. It always holds exactly
/// `4 * width * height` bytes.
#[derive(Debug)]
pub struct RgbaFrame {
    pub(crate) width: u32,
    pub(crate) height: u32,
    pub(crate) data: Vec<u8>,
}

impl View for RgbaFrame {
    type V = RgbaFrameView;

    open(crate) spec fn view(&self) -> RgbaFrameView {
        RgbaFrameView { width: self.width, height: self.height, bytes: self.data@ }
    }
}

/// The number of bytes of a `width` x `height` RGBA image.
pub open spec fn byte_len(width: u32, height: u32) -> int {
    4 * width * height
}

/// `bytes` with the first and the third byte of every complete group of four
/// exchanged: BGRA order becomes RGBA order and back.
pub open spec fn swapped_channels(bytes: Seq<u8>) -> Seq<u8> {
    Seq::new(
        bytes.len(),
        |i: int|
            if i % 4 == 0 && i + 2 < bytes.len() {
                bytes[i + 2]
            } else if i % 4 == 2 {
                bytes[i - 2]
            } else {
                bytes[i]
            },
    )
}

/// Exchanging the channels twice gives the bytes back, and exchanging them
/// once leaves the second and the fourth byte of every pixel, green and
/// alpha, where they are.
pub proof fn lemma_swapped_channels(bytes: Seq<u8>)
    requires
        bytes.len() % 4 == 0,
    ensures
        swapped_channels(swapped_channels(bytes)) == bytes,
        forall|i: int|
            0 <= i < bytes.len() && i % 2 == 1 ==> #[trigger] swapped_channels(bytes)[i]
                == bytes[i],
{
    assert(swapped_channels(swapped_channels(bytes)) =~= bytes);
}

/// The image that `bytes` hold when read as `width` x `height` pixels of the
/// layout `format`, if there is one: the buffer has to hold at least
/// `4 * width * height` bytes, of which the image takes the first, and the
/// layout has to be one of the four known ones. The x layouts are read like
/// their alpha counterparts, with the fourth byte left as it is.
pub open spec fn normalized(bytes: Seq<u8>, width: u32, height: u32, format: VideoFormat) -> Option<
    RgbaFrameView,
> {
    if bytes.len() < byte_len(width, height) {
        None
    } else {
        let pixels = bytes.take(byte_len(width, height));
        match format {
            VideoFormat::Bgra | VideoFormat::BGRx => Some(
                RgbaFrameView { width, height, bytes: swapped_channels(pixels) },
            ),
            VideoFormat::Rgba | VideoFormat::RGBx => Some(
                RgbaFrameView { width, height, bytes: pixels },
            ),
            VideoFormat::Other(_) => None,
        }
    }
}

/// The number of bytes of a `width` x `height` RGBA image, if `len` bytes
/// suffice for it.
fn fitting_len(width: u32, height: u32, len: usize) -> (r: Option<usize>)
    ensures
        r is Some <==> len >= byte_len(width, height),
        r is Some ==> r->0 == byte_len(width, height),
{
    assert(0 <= width * height <= 0xffff_ffff * 0xffff_ffff) by (nonlinear_arith)
        requires
            0 <= width <= 0xffff_ffff,
            0 <= height <= 0xffff_ffff,
    ;
    let pixels: u64 = width as u64 * height as u64;
    let needed: u128 = 4 * (pixels as u128);
    assert(needed == 4 * width * height) by (nonlinear_arith)
        requires
            needed == 4 * pixels,
            pixels == width * height,
    ;
    if needed <= len as u128 {
        Some(needed as usize)
    } else {
        None
    }
}

/// Reads four bytes in blue, green, red, alpha order as one big-endian word,
/// reverses the word's bytes, rotates it left by eight bits and writes it out
/// big-endian again: the bytes come out in red, green, blue, alpha order.
fn swap_pixel(b0: u8, b1: u8, b2: u8, b3: u8) -> (r: (u8, u8, u8, u8))
    ensures
        r == (b2, b1, b0, b3),
{
    let word: u32 = ((b0 as u32) << 24) | ((b1 as u32) << 16) | ((b2 as u32) << 8) | (b3 as u32);
    let reversed: u32 = (word << 24) | ((word & 0xff00) << 8) | ((word >> 8) & 0xff00) | (word
        >> 24);
    let rotated: u32 = (reversed << 8) | (reversed >> 24);
    let r0 = #[verifier::truncate]
    ((rotated >> 24) as u8);
    let r1 = #[verifier::truncate]
    ((rotated >> 16) as u8);
    let r2 = #[verifier::truncate]
    ((rotated >> 8) as u8);
    let r3 = #[verifier::truncate]
    (rotated as u8);
    assert(r0 == b2 && r1 == b1 && r2 == b0 && r3 == b3) by (bit_vector)
        requires
            word == ((b0 as u32) << 24) | ((b1 as u32) << 16) | ((b2 as u32) << 8) | (b3 as u32),
            reversed == (word << 24) | ((word & 0xff00) << 8) | ((word >> 8) & 0xff00) | (word
                >> 24),
            rotated == (reversed << 8) | (reversed >> 24),
            r0 == ((rotated >> 24) as u8),
            r1 == ((rotated >> 16) as u8),
            r2 == ((rotated >> 8) as u8),
            r3 == (rotated as u8),
    ;
    (r0, r1, r2, r3)
}

impl RgbaFrame {
    #[verifier::type_invariant]
    pub(crate) open spec fn holds_whole_image(self) -> bool {
        self.data@.len() == 4 * self.width * self.height
    }

    /// An image of the given size over the first `4 * width * height` bytes
    /// of `data`, read as RGBA; `None` if `data` holds fewer.
    pub fn from_raw(width: u32, height: u32, data: Vec<u8>) -> (r: Option<RgbaFrame>)
        ensures
            r is Some <==> data@.len() >= byte_len(width, height),
            r is Some ==> r->0@ == (RgbaFrameView {
                width,
                height,
                bytes: data@.take(byte_len(width, height)),
            }),
            r is Some ==> r->0@.wf(),
    {
        let mut data = data;
        match fitting_len(width, height, data.len()) {
            Some(len) => {
                data.truncate(len);
                Some(RgbaFrame { width, height, data })
            },
            None => None,
        }
    }

    /// The width in pixels.
    pub fn width(&self) -> (w: u32)
        ensures
            w == self@.width,
            self@.wf(),
    {
        proof {
            use_type_invariant(self);
        }
        self.width
    }

    /// The height in pixels.
    pub fn height(&self) -> (h: u32)
        ensures
            h == self@.height,
            self@.wf(),
    {
        proof {
            use_type_invariant(self);
        }
        self.height
    }

    /// The width and the height in pixels.
    pub fn dimensions(&self) -> (d: (u32, u32))
        ensures
            d == (self@.width, self@.height),
            self@.wf(),
    {
        proof {
            use_type_invariant(self);
        }
        (self.width, self.height)
    }

    /// The bytes of the image, row by row.
    pub fn as_raw(&self) -> (bytes: &Vec<u8>)
        ensures
            bytes@ == self@.bytes,
            self@.wf(),
    {
        proof {
            use_type_invariant(self);
        }
        &self.data
    }

    /// Gives up the image for its bytes.
    pub fn into_raw(self) -> (bytes: Vec<u8>)
        ensures
            bytes@ == self@.bytes,
            self@.wf(),
    {
        proof {
            use_type_invariant(&self);
        }
        self.data
    }

    /// The red, green, blue and alpha bytes of the pixel in column `x` of row
    /// `y`, or `None` if the image has no such pixel.
    pub fn get_pixel(&self, x: u32, y: u32) -> (p: Option<[u8; 4]>)
        ensures
            self@.wf(),
            p is Some <==> x < self@.width && y < self@.height,
            p is Some ==> p->0@ == self@.pixel(x as int, y as int),
    {
        proof {
            use_type_invariant(self);
        }
        if x >= self.width || y >= self.height {
            return None;
        }
        assert(0 <= y * self.width && y * self.width + x + 1 <= self.width * self.height)
            by (nonlinear_arith)
            requires
                0 <= x < self.width,
                0 <= y < self.height,
        ;
        assert(4 * (self.width * self.height) == 4 * self.width * self.height)
            by (nonlinear_arith);
        let len = self.data.len();
        assert(len == 4 * (self.width * self.height));
        let row: usize = y as usize * self.width as usize;
        let at: usize = 4 * (row + x as usize);
        let p = [self.data[at], self.data[at + 1], self.data[at + 2], self.data[at + 3]];
        assert(p@ =~= self@.pixel(x as int, y as int));
        Some(p)
    }
}

/// Reads `container` as `width` x `height` pixels in blue, green, red, alpha
/// order and gives the image in RGBA order. `None` if `container` holds fewer
/// than `4 * width * height` bytes.
pub fn from_raw_bgra(width: u32, height: u32, container: Vec<u8>) -> (r: Option<RgbaFrame>)
    ensures
        r is Some <==> container@.len() >= byte_len(width, height),
        r is Some ==> r->0@ == (RgbaFrameView {
            width,
            height,
            bytes: swapped_channels(container@.take(byte_len(width, height))),
        }),
        r is Some ==> r->0@.wf(),
{
    let mut data = container;
    let len = match fitting_len(width, height, data.len()) {
        Some(len) => len,
        None => {
            return None;
        },
    };
    data.truncate(len);
    let ghost pixels = data@;
    let mut at: usize = 0;
    assert(len == 4 * (width * height)) by (nonlinear_arith)
        requires
            len == 4 * width * height,
    ;
    while at < len
        invariant
            len == byte_len(width, height),
            len % 4 == 0,
            data@.len() == len,
            pixels.len() == len,
            at % 4 == 0,
            0 <= at <= len,
            forall|i: int| 0 <= i < at ==> data@[i] == swapped_channels(pixels)[i],
            forall|i: int| at <= i < len ==> data@[i] == pixels[i],
        decreases len - at,
    {
        let (r0, r1, r2, r3) = swap_pixel(data[at], data[at + 1], data[at + 2], data[at + 3]);
        data.set(at, r0);
        data.set(at + 1, r1);
        data.set(at + 2, r2);
        data.set(at + 3, r3);
        at += 4;
    }
    assert(data@ =~= swapped_channels(pixels));
    Some(RgbaFrame { width, height, data })
}

/// Normalises a raw frame to RGBA: blue-first layouts have their first and
/// third channel exchanged, red-first layouts pass through unchanged, and any
/// other layout, or a buffer too short for the declared size, gives nothing.
pub fn normalize(bytes: Vec<u8>, width: u32, height: u32, format: &VideoFormat) -> (r: Option<
    RgbaFrame,
>)
    ensures
        r is Some <==> normalized(bytes@, width, height, *format) is Some,
        r is Some ==> r->0@ == normalized(bytes@, width, height, *format)->0,
        r is Some ==> r->0@.wf(),
{
    match format {
        VideoFormat::Bgra | VideoFormat::BGRx => from_raw_bgra(width, height, bytes),
        VideoFormat::Rgba | VideoFormat::RGBx => RgbaFrame::from_raw(width, height, bytes),
        VideoFormat::Other(_) => None,
    }
}

/// What a [`LatestImage`] stands for in contracts.
pub struct LatestImageView {
    /// The bytes of the latest frame; empty once they were taken.
    pub buffer: Seq<u8>,
    /// The latest metadata.
    pub meta: ScreencastMeta,
    /// The names of the unreadable layouts met so far, each once.
    pub reported: Seq<Seq<char>>,
    /// A newly met unreadable layout that nobody has fetched yet.
    pub unreported: Option<Seq<char>>,
}

impl LatestImageView {
    /// The image that the held bytes give under the held metadata. Fewer
    /// than four bytes are no frame at all.
    pub open spec fn image(self) -> Option<RgbaFrameView> {
        if self.buffer.len() < 4 {
            None
        } else {
            normalized(self.buffer, self.meta.width, self.meta.height, self.meta.format)
        }
    }

    /// Whether the held frame declares an unreadable layout that was not met
    /// before.
    pub open spec fn meets_new_layout(self) -> bool {
        self.buffer.len() >= 4 && self.meta.format is Other && !self.reported.contains(
            self.meta.format->Other_0@,
        )
    }

    /// The holder after its frame was taken: without the bytes, and with a
    /// newly met unreadable layout noted down.
    pub open spec fn drained(self) -> LatestImageView {
        if self.buffer.len() < 4 {
            self
        } else if self.meets_new_layout() {
            LatestImageView {
                buffer: Seq::empty(),
                meta: self.meta,
                reported: self.reported.push(self.meta.format->Other_0@),
                unreported: Some(self.meta.format->Other_0@),
            }
        } else {
            LatestImageView { buffer: Seq::empty(), ..self }
        }
    }
}

/// The latest frame bytes and the latest metadata of a capture. The two
/// arrive apart, so for a moment the bytes may not fit the declared size;
/// such a frame gives no image.
pub struct LatestImage {
    buffer: Vec<u8>,
    meta: ScreencastMeta,
    reported: Vec<String>,
    unreported: Option<String>,
}

/// The texts of a sequence of strings, in order.
pub open spec fn texts(names: Seq<String>) -> Seq<Seq<char>> {
    names.map_values(|n: String| n@)
}

/// The text of an optional string.
pub open spec fn text_of(name: Option<String>) -> Option<Seq<char>> {
    match name {
        Some(n) => Some(n@),
        None => None,
    }
}

fn holds_name(names: &Vec<String>, name: &String) -> (found: bool)
    ensures
        found == texts(names@).contains(name@),
{
    let mut i: usize = 0;
    while i < names.len()
        invariant
            0 <= i <= names.len(),
            forall|k: int| 0 <= k < i ==> texts(names@)[k] != name@,
        decreases names.len() - i,
    {
        if names[i] == *name {
            assert(texts(names@)[i as int] == name@);
            return true;
        }
        i += 1;
    }
    false
}

impl View for LatestImage {
    type V = LatestImageView;

    closed spec fn view(&self) -> LatestImageView {
        LatestImageView {
            buffer: self.buffer@,
            meta: self.meta,
            reported: texts(self.reported@),
            unreported: text_of(self.unreported),
        }
    }
}

impl Default for LatestImage {
    fn default() -> (r: LatestImage)
        ensures
            r@.buffer.len() == 0,
            r@.meta.width == 0,
            r@.meta.height == 0,
            r@.meta.format == VideoFormat::Bgra,
            r@.reported.len() == 0,
            r@.unreported is None,
    {
        LatestImage {
            buffer: Vec::new(),
            meta: ScreencastMeta::default(),
            reported: Vec::new(),
            unreported: None,
        }
    }
}

impl LatestImage {
    /// Replaces the frame bytes.
    pub fn set_latest_img(&mut self, img: Vec<u8>)
        ensures
            final(self)@ == (LatestImageView { buffer: img@, ..old(self)@ }),
    {
        self.buffer = img;
    }

    /// Replaces the metadata.
    pub fn set_latest_meta(&mut self, meta: ScreencastMeta)
        ensures
            final(self)@ == (LatestImageView { meta: meta, ..old(self)@ }),
    {
        self.meta = meta;
    }

    /// Takes the latest frame as an RGBA image.
    ///
    /// With fewer than four bytes there is no frame, and nothing changes.
    /// Otherwise the bytes are used up, whether they give an image or not:
    /// they give one if they suffice for the declared size and the declared
    /// layout is a known one. An unknown layout whose name was not met before
    /// is noted down, to be fetched once with `take_format_report`.
    pub fn get_latest_rgba(&mut self) -> (r: Option<RgbaFrame>)
        ensures
            final(self)@ == old(self)@.drained(),
            r is Some <==> old(self)@.image() is Some,
            r is Some ==> r->0@ == old(self)@.image()->0 && r->0@.wf(),
    {
        if self.buffer.len() < 4 {
            return None;
        }
        let mut bytes: Vec<u8> = Vec::new();
        core::mem::swap(&mut self.buffer, &mut bytes);
        assert(self.buffer@ =~= Seq::<u8>::empty());
        match &self.meta.format {
            VideoFormat::Other(name) => {
                if !holds_name(&self.reported, name) {
                    let ghost before = self.reported@;
                    let fresh = name.clone();
                    self.unreported = Some(name.clone());
                    self.reported.push(fresh);
                    assert(texts(self.reported@) =~= texts(before).push(name@));
                }
                None
            },
            _ => normalize(bytes, self.meta.width, self.meta.height, &self.meta.format),
        }
    }

    /// Hands out, once, the name of an unreadable layout that was newly met.
    pub fn take_format_report(&mut self) -> (r: Option<String>)
        ensures
            text_of(r) == old(self)@.unreported,
            final(self)@ == (LatestImageView { unreported: None, ..old(self)@ }),
    {
        let mut taken: Option<String> = None;
        core::mem::swap(&mut self.unreported, &mut taken);
        taken
    }
}

} // verus!
