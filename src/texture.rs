//! Textures: normalizing decoded images of any supported pixel format to 8-bit RGBA, and checking
//! animation metadata.
use vstd::prelude::*;

use crate::location::{parts_of, Location};

verus! {

/// One normalized pixel.
#[derive(Clone, Copy, Debug, PartialEq, Eq, Structural)]
pub struct Rgba {
    pub r: u8,
    pub g: u8,
    pub b: u8,
    pub a: u8,
}

/// A decoded image as the PNG format lays it out: rows of packed samples, most significant bits
/// first, each row starting on a byte boundary.
#[derive(Clone, Debug)]
pub struct ImageData {
    pub width: u32,
    pub height: u32,
    /// The PNG color type: 0 grayscale, 2 RGB, 3 indexed, 4 grayscale with alpha, 6 RGBA.
    pub color: u8,
    /// Bits per sample: 1, 2, 4, 8 or 16.
    pub depth: u8,
    /// RGB triples of an indexed image.
    pub palette: Vec<u8>,
    /// The transparency chunk: one gray value, one RGB triple, or one alpha per palette index.
    pub trns: Option<Vec<u8>>,
    pub data: Vec<u8>,
}

/// Texture sizes passed to the upload sink.
#[derive(Clone, Copy, Debug, PartialEq, Eq, Structural)]
pub struct Info {
    pub width: u32,
    pub height: u32,
    pub index: u32,
}

/// Why a texture was rejected.
#[derive(Clone, Copy, Debug, PartialEq, Eq, Structural)]
pub enum TextureError {
    /// The bit depth is not supported for the color type (16 bits never are).
    UnsupportedFormat(u8, u8),
    /// The pixel data is shorter than the image.
    SizeMismatch,
    /// The transparency chunk has the wrong length for the color type.
    BadTransparency,
    /// A pixel refers to a palette entry that does not exist.
    PaletteIndex(u8),
    /// An animated texture's height is not a multiple of its width.
    NonProportional,
    /// An animation frame index is not below the number of frames.
    FrameOutOfRange(u32, u32),
    /// A row holds more samples than this machine can address.
    TooLarge,
    /// The file is not a PNG image this library can read.
    Decode,
}

/// The number of samples per pixel of a color type.
pub open spec fn channels(color: u8) -> nat {
    if color == 2 {
        3
    } else if color == 4 {
        2
    } else if color == 6 {
        4
    } else {
        1
    }
}

/// Whether the color type and bit depth are supported.
pub open spec fn format_ok(color: u8, depth: u8) -> bool {
    if color == 0 || color == 3 {
        depth == 1 || depth == 2 || depth == 4 || depth == 8
    } else {
        (color == 2 || color == 4 || color == 6) && depth == 8
    }
}

/// Sample `i` of a row packed at `depth` bits per sample.
pub open spec fn packed_sample(row: Seq<u8>, depth: u8, i: int) -> u8 {
    if depth == 8 {
        row[i]
    } else if depth == 4 {
        ((row[i / 2] >> (if i % 2 == 0 { 4u8 } else { 0u8 })) & 0xF) as u8
    } else if depth == 2 {
        ((row[i / 4] >> ((6 - 2 * (i % 4)) as u8)) & 0x3) as u8
    } else {
        ((row[i / 8] >> ((7 - i % 8) as u8)) & 0x1) as u8
    }
}

/// The number of bytes of a row of `width` pixels.
pub open spec fn stride_of(width: u32, color: u8, depth: u8) -> nat {
    ((width * channels(color) * depth + 7) / 8) as nat
}

/// The transparency chunk fits the color type.
pub open spec fn trns_ok(color: u8, trns: Option<Vec<u8>>) -> bool {
    match trns {
        None => true,
        Some(t) => if color == 0 {
            t@.len() == 1
        } else if color == 2 {
            t@.len() == 3
        } else {
            color == 3
        },
    }
}

/// Pixel `x` of a row of samples, or `None` when it names a missing palette entry.
pub open spec fn pixel_of(img: ImageData, s: Seq<u8>, x: int) -> Option<Rgba> {
    if img.color == 6 {
        Some(Rgba { r: s[4 * x], g: s[4 * x + 1], b: s[4 * x + 2], a: s[4 * x + 3] })
    } else if img.color == 4 {
        Some(Rgba { r: s[2 * x], g: s[2 * x], b: s[2 * x], a: s[2 * x + 1] })
    } else if img.color == 2 {
        let clear = match img.trns {
            Some(t) => t@ == seq![s[3 * x], s[3 * x + 1], s[3 * x + 2]],
            None => false,
        };
        Some(
            Rgba {
                r: s[3 * x],
                g: s[3 * x + 1],
                b: s[3 * x + 2],
                a: if clear {
                    0
                } else {
                    255
                },
            },
        )
    } else if img.color == 0 {
        let clear = match img.trns {
            Some(t) => t@[0] == s[x],
            None => false,
        };
        Some(Rgba { r: s[x], g: s[x], b: s[x], a: if clear { 0 } else { 255 } })
    } else {
        let i = s[x] as int;
        if 3 * i + 2 < img.palette@.len() {
            let a = match img.trns {
                Some(t) => if i < t@.len() {
                    t@[i]
                } else {
                    255u8
                },
                None => 255u8,
            };
            Some(
                Rgba {
                    r: img.palette@[3 * i],
                    g: img.palette@[3 * i + 1],
                    b: img.palette@[3 * i + 2],
                    a,
                },
            )
        } else {
            None
        }
    }
}

/// The samples of row `y`, unpacked to one byte each.
pub open spec fn row_samples(img: ImageData, y: int) -> Seq<u8> {
    let stride = stride_of(img.width, img.color, img.depth) as int;
    let row = img.data@.subrange(y * stride, y * stride + stride);
    Seq::new(
        (img.width * channels(img.color)) as nat,
        |i: int| packed_sample(row, img.depth, i),
    )
}

/// Whether every pixel of row `y` is defined.
pub open spec fn row_ok(img: ImageData, y: int) -> bool {
    forall|x: int| 0 <= x < img.width ==> (#[trigger] pixel_of(img, row_samples(img, y), x)) is Some
}

/// The pixels of row `y`.
pub open spec fn row_pixels(img: ImageData, y: int) -> Seq<Rgba> {
    Seq::new(img.width as nat, |x: int| pixel_of(img, row_samples(img, y), x)->Some_0)
}

/// The pixels of the first `n` rows, row after row.
pub open spec fn pixels_upto(img: ImageData, n: int) -> Seq<Rgba>
    decreases n,
{
    if n <= 0 {
        Seq::empty()
    } else {
        pixels_upto(img, n - 1) + row_pixels(img, n - 1)
    }
}

/// The first `n` rows hold `n` times the width in pixels.
pub proof fn lemma_pixels_len(img: ImageData, n: int)
    requires
        0 <= n,
    ensures
        pixels_upto(img, n).len() == n * img.width,
    decreases n,
{
    if n > 0 {
        lemma_pixels_len(img, n - 1);
        let w = img.width as int;
        assert(row_pixels(img, n - 1).len() == w);
        assert(pixels_upto(img, n).len() == pixels_upto(img, n - 1).len() + row_pixels(img, n - 1).len());
        assert(pixels_upto(img, n - 1).len() == (n - 1) * w);
        assert((n - 1) * w + w == n * w) by (nonlinear_arith);
    } else {
        assert(n * img.width == 0) by (nonlinear_arith)
            requires n == 0;
    }
}

/// Whether the image can be normalized: a supported format, a fitting transparency chunk,
/// enough data and defined pixels.
pub open spec fn image_ok(img: ImageData) -> bool {
    &&& format_ok(img.color, img.depth)
    &&& trns_ok(img.color, img.trns)
    &&& img.data@.len() >= img.height * stride_of(img.width, img.color, img.depth)
    &&& forall|y: int| 0 <= y < img.height ==> #[trigger] row_ok(img, y)
}

/// Animation metadata of a texture: its frames are squares stacked from top to bottom.
#[derive(Clone, Debug, PartialEq, Eq)]
pub struct Animation {
    pub interpolate: bool,
    /// Ticks per frame, at least one.
    pub frametime: u32,
    /// The order of the frames, by index; empty for all frames in order.
    pub frames: Vec<u32>,
}

impl Animation {
    /// Metadata without frame list: every frame once, one tick each.
    pub fn new() -> (r: Animation)
        ensures
            !r.interpolate,
            r.frametime == 1,
            r.frames@.len() == 0,
    {
        Animation { interpolate: false, frametime: 1, frames: Vec::new() }
    }

    /// Checks the metadata against the size of its texture.
    pub fn check(&self, width: u32, height: u32) -> (r: Result<(), TextureError>)
        ensures
            r is Ok <==> animation_ok(width, height, self.frames@),
            (width == 0 || height % width != 0) ==> r == Err::<(), TextureError>(
                TextureError::NonProportional,
            ),
            r matches Err(TextureError::FrameOutOfRange(f, n)) ==> width > 0 && n == height / width
                && self.frames@.contains(f) && f >= n,
            r matches Err(e) ==> (e is NonProportional || e is FrameOutOfRange),
    {
        check_animation(width, height, &self.frames)
    }
}

/// Whether the height of a texture is a whole number of square frames, each named frame index
/// below their count.
pub open spec fn animation_ok(width: u32, height: u32, frames: Seq<u32>) -> bool {
    &&& width > 0
    &&& height % width == 0
    &&& forall|k: int| 0 <= k < frames.len() ==> #[trigger] frames[k] < height / width
}

/// Checks animation metadata against the texture's size: the height must be a multiple of the
/// width (frames are stacked squares) and each frame index must name one of them.
pub fn check_animation(width: u32, height: u32, frames: &Vec<u32>) -> (r: Result<(), TextureError>)
    ensures
        r is Ok <==> animation_ok(width, height, frames@),
        (width == 0 || height % width != 0) ==> r == Err::<(), TextureError>(
            TextureError::NonProportional,
        ),
        r matches Err(TextureError::FrameOutOfRange(f, n)) ==> width > 0 && n == height / width
            && frames@.contains(f) && f >= n,
        r matches Err(e) ==> (e is NonProportional || e is FrameOutOfRange),
{
    if width == 0 || height % width != 0 {
        return Err(TextureError::NonProportional);
    }
    let count = height / width;
    let mut k: usize = 0;
    while k < frames.len()
        invariant
            width > 0,
            height % width == 0,
            count == height / width,
            k <= frames@.len(),
            forall|j: int| 0 <= j < k ==> #[trigger] frames@[j] < count,
        decreases frames@.len() - k,
    {
        if frames[k] >= count {
            assert(frames@[k as int] == frames[k as int]);
            return Err(TextureError::FrameOutOfRange(frames[k], count));
        }
        k = k + 1;
    }
    Ok(())
}


/// Unpacks `count` samples of the row that starts at `start` in `data`.
fn unpack_row(data: &Vec<u8>, start: usize, stride: usize, depth: u8, count: usize) -> (r: Vec<u8>)
    requires
        start + stride <= data@.len(),
        depth == 1 || depth == 2 || depth == 4 || depth == 8,
        count * depth <= stride * 8,
    ensures
        r@ == Seq::new(
            count as nat,
            |i: int| packed_sample(data@.subrange(start as int, start + stride), depth, i),
        ),
{
    let ghost row = data@.subrange(start as int, start + stride);
    let n = data.len();
    let mut out: Vec<u8> = Vec::new();
    let mut i: usize = 0;
    while i < count
        invariant
            start + stride <= data@.len(),
            n == data@.len(),
            depth == 1 || depth == 2 || depth == 4 || depth == 8,
            count * depth <= stride * 8,
            row == data@.subrange(start as int, start + stride),
            i <= count,
            out@.len() == i,
            forall|j: int| 0 <= j < i ==> out@[j] == packed_sample(row, depth, j),
        decreases count - i,
    {
        assert(i * depth < stride * 8) by (nonlinear_arith)
            requires i < count, count * depth <= stride * 8, depth >= 1;
        let v: u8 = if depth == 8 {
            assert(i < stride) by (nonlinear_arith)
                requires i * depth < stride * 8, depth == 8;
            data[start + i]
        } else if depth == 4 {
            assert(i / 2 < stride) by (nonlinear_arith)
                requires i * depth < stride * 8, depth == 4;
            (data[start + i / 2] >> (if i % 2 == 0 { 4u8 } else { 0u8 })) & 0xF
        } else if depth == 2 {
            assert(i / 4 < stride) by (nonlinear_arith)
                requires i * depth < stride * 8, depth == 2;
            (data[start + i / 4] >> ((6 - 2 * (i % 4)) as u8)) & 0x3
        } else {
            assert(i / 8 < stride) by (nonlinear_arith)
                requires i * depth < stride * 8, depth == 1;
            (data[start + i / 8] >> ((7 - i % 8) as u8)) & 0x1
        };
        out.push(v);
        i = i + 1;
    }
    assert(out@ =~= Seq::new(count as nat, |i: int| packed_sample(row, depth, i)));
    out
}

/// Computes pixel `x` of a row of samples.
fn pixel_exec(img: &ImageData, s: &Vec<u8>, x: usize) -> (r: Result<Rgba, TextureError>)
    requires
        format_ok(img.color, img.depth),
        trns_ok(img.color, img.trns),
        s@.len() == img.width * channels(img.color),
        x < img.width,
    ensures
        r is Ok <==> pixel_of(*img, s@, x as int) is Some,
        r is Ok ==> r->Ok_0 == pixel_of(*img, s@, x as int)->Some_0,
        r matches Err(e) ==> e is PaletteIndex,
{
    let n = s.len();
    assert(img.color == 6 ==> 4 * x + 3 < n) by (nonlinear_arith)
        requires x < img.width, img.color == 6 ==> n == img.width * 4;
    assert(img.color == 4 ==> 2 * x + 1 < n) by (nonlinear_arith)
        requires x < img.width, img.color == 4 ==> n == img.width * 2;
    assert(img.color == 2 ==> 3 * x + 2 < n) by (nonlinear_arith)
        requires x < img.width, img.color == 2 ==> n == img.width * 3;
    if img.color == 6 {
        Ok(Rgba { r: s[4 * x], g: s[4 * x + 1], b: s[4 * x + 2], a: s[4 * x + 3] })
    } else if img.color == 4 {
        Ok(Rgba { r: s[2 * x], g: s[2 * x], b: s[2 * x], a: s[2 * x + 1] })
    } else if img.color == 2 {
        let (r, g, b) = (s[3 * x], s[3 * x + 1], s[3 * x + 2]);
        let clear = match &img.trns {
            Some(t) => {
                let c = t[0] == r && t[1] == g && t[2] == b;
                assert(c == (t@ =~= seq![r, g, b]));
                c
            },
            None => false,
        };
        Ok(Rgba { r, g, b, a: if clear { 0 } else { 255 } })
    } else if img.color == 0 {
        let l = s[x];
        let clear = match &img.trns {
            Some(t) => t[0] == l,
            None => false,
        };
        Ok(Rgba { r: l, g: l, b: l, a: if clear { 0 } else { 255 } })
    } else {
        let i = s[x] as usize;
        if 3 * i + 2 < img.palette.len() {
            let a = match &img.trns {
                Some(t) => if i < t.len() {
                    t[i]
                } else {
                    255u8
                },
                None => 255u8,
            };
            Ok(Rgba { r: img.palette[3 * i], g: img.palette[3 * i + 1], b: img.palette[3 * i + 2], a })
        } else {
            Err(TextureError::PaletteIndex(s[x]))
        }
    }
}

/// Computes the pixels of one row of samples.
fn row_exec(img: &ImageData, samples: &Vec<u8>) -> (r: Result<Vec<Rgba>, TextureError>)
    requires
        format_ok(img.color, img.depth),
        trns_ok(img.color, img.trns),
        samples@.len() == img.width * channels(img.color),
    ensures
        r is Ok <==> forall|x: int| 0 <= x < img.width ==> (#[trigger] pixel_of(*img, samples@, x)) is Some,
        r is Ok ==> r->Ok_0@ == Seq::new(img.width as nat, |x: int| pixel_of(*img, samples@, x)->Some_0),
        r matches Err(e) ==> e is PaletteIndex,
{
    let mut out: Vec<Rgba> = Vec::new();
    let mut x: usize = 0;
    while x < img.width as usize
        invariant
            format_ok(img.color, img.depth),
            trns_ok(img.color, img.trns),
            samples@.len() == img.width * channels(img.color),
            x <= img.width,
            out@ == Seq::new(x as nat, |xx: int| pixel_of(*img, samples@, xx)->Some_0),
            forall|xx: int| 0 <= xx < x ==> (#[trigger] pixel_of(*img, samples@, xx)) is Some,
        decreases img.width - x,
    {
        match pixel_exec(img, samples, x) {
            Ok(p) => {
                out.push(p);
                assert(out@ =~= Seq::new((x + 1) as nat, |xx: int| pixel_of(*img, samples@, xx)->Some_0));
            },
            Err(e) => {
                return Err(e);
            },
        }
        x = x + 1;
    }
    Ok(out)
}

/// Normalizes a decoded image to 8-bit RGBA pixels, row after row.
pub fn normalize(img: &ImageData) -> (r: Result<Vec<Rgba>, TextureError>)
    ensures
        r is Ok ==> image_ok(*img),
        image_ok(*img) && img.width * channels(img.color) <= usize::MAX ==> r is Ok,
        r is Ok ==> r->Ok_0@ == pixels_upto(*img, img.height as int),
        r is Ok ==> r->Ok_0@.len() == img.width * img.height,
        !format_ok(img.color, img.depth) ==> r == Err::<Vec<Rgba>, TextureError>(
            TextureError::UnsupportedFormat(img.color, img.depth),
        ),
        format_ok(img.color, img.depth) && !trns_ok(img.color, img.trns) ==> r == Err::<
            Vec<Rgba>,
            TextureError,
        >(TextureError::BadTransparency),
        r == Err::<Vec<Rgba>, TextureError>(TextureError::TooLarge) ==> img.width * channels(img.color) > usize::MAX,
        r == Err::<Vec<Rgba>, TextureError>(TextureError::SizeMismatch) ==> img.data@.len()
            < img.height * stride_of(img.width, img.color, img.depth),
        r matches Err(TextureError::PaletteIndex(_)) ==> exists|y: int|
            0 <= y < img.height && !#[trigger] row_ok(*img, y),
        r matches Err(e) ==> !(e is Decode),
{
    let color = img.color;
    let depth = img.depth;
    let format = if color == 0 || color == 3 {
        depth == 1 || depth == 2 || depth == 4 || depth == 8
    } else {
        (color == 2 || color == 4 || color == 6) && depth == 8
    };
    if !format {
        return Err(TextureError::UnsupportedFormat(color, depth));
    }
    let trns_fits = match &img.trns {
        None => true,
        Some(t) => if color == 0 {
            t.len() == 1
        } else if color == 2 {
            t.len() == 3
        } else {
            color == 3
        },
    };
    if !trns_fits {
        return Err(TextureError::BadTransparency);
    }
    if img.height == 0 {
        return Ok(Vec::new());
    }
    let ch: u64 = if color == 2 {
        3
    } else if color == 4 {
        2
    } else if color == 6 {
        4
    } else {
        1
    };
    assert(ch == channels(color));
    let len = img.data.len();
    assert(img.width as u64 * ch <= 0x4_0000_0000) by (nonlinear_arith)
        requires ch <= 4, img.width <= 0xFFFF_FFFF;
    let count64 = img.width as u64 * ch;
    assert(count64 * depth as u64 + 7 <= 0x40_0000_0000) by (nonlinear_arith)
        requires count64 == img.width * ch, ch <= 4, depth <= 8, img.width <= 0xFFFF_FFFF;
    let stride64 = (count64 * depth as u64 + 7) / 8;
    assert(stride64 == stride_of(img.width, img.color, img.depth));
    assert(stride64 * (img.height as u64) <= 0x40_0000_0000 * 0x1_0000_0000) by (nonlinear_arith)
        requires stride64 <= 0x40_0000_0000, img.height <= 0xFFFF_FFFF;
    let total = stride64 as u128 * img.height as u128;
    assert(total == stride_of(img.width, img.color, img.depth) * img.height);
    if total > len as u128 {
        return Err(TextureError::SizeMismatch);
    }
    assert(stride64 <= img.data@.len()) by (nonlinear_arith)
        requires total == stride64 * img.height, total <= img.data@.len(), img.height >= 1;
    if count64 > usize::MAX as u64 {
        return Err(TextureError::TooLarge);
    }
    let stride = stride64 as usize;
    let count = count64 as usize;
    assert(count * depth <= stride * 8) by (nonlinear_arith)
        requires stride == (count * depth + 7) / 8;
    let mut out: Vec<Rgba> = Vec::new();
    let mut offset: usize = 0;
    let mut y: u32 = 0;
    while y < img.height
        invariant
            format_ok(img.color, img.depth),
            trns_ok(img.color, img.trns),
            len == img.data@.len(),
            depth == img.depth,
            stride == stride_of(img.width, img.color, img.depth),
            count == img.width * channels(img.color),
            count * depth <= stride * 8,
            img.height * stride <= img.data@.len(),
            y <= img.height,
            offset == y * stride,
            out@ == pixels_upto(*img, y as int),
            forall|yy: int| 0 <= yy < y ==> #[trigger] row_ok(*img, yy),
        decreases img.height - y,
    {
        assert(offset + stride <= img.data@.len()) by (nonlinear_arith)
            requires offset == y * stride, y < img.height, img.height * stride <= img.data@.len();
        let samples = unpack_row(&img.data, offset, stride, depth, count);
        assert(samples@ =~= row_samples(*img, y as int));
        let mut row = match row_exec(img, &samples) {
            Ok(row) => row,
            Err(e) => {
                assert(!row_ok(*img, y as int));
                return Err(e);
            },
        };
        assert(row_pixels(*img, y as int) =~= row@);
        let ghost before = out@;
        out.append(&mut row);
        assert(out@ =~= pixels_upto(*img, y + 1));
        offset = offset + stride;
        y = y + 1;
        assert(offset == y * stride) by (nonlinear_arith)
            requires offset == (y - 1) * stride + stride;
    }
    proof {
        lemma_pixels_len(*img, img.height as int);
    }
    Ok(out)
}


/// What the png crate decodes from `bytes`: the first frame with the header fields that
/// describe it, or `None` when it rejects the file.
pub uninterp spec fn png_decoded(bytes: Seq<u8>) -> Option<ImageData>;

/// Relies on png's `Decoder::read_info` and `Reader::next_frame`, which decode the first frame of
/// a PNG file without transformations (rows packed as in the file, color type and bit depth
/// handed on as their PNG codes): the result depends on the bytes alone.
#[verifier::external_body]
fn decode_png(bytes: &[u8]) -> (r: Option<ImageData>)
    ensures
        r == png_decoded(bytes@),
{
    let mut reader = png::Decoder::new(bytes).read_info().ok()?;
    let mut data = vec![0; reader.output_buffer_size()];
    reader.next_frame(&mut data).ok()?;
    let info = reader.info();
    let palette = info.palette.as_deref().map_or(Vec::new(), |p| p.to_vec());
    let trns = info.trns.as_deref().map(|t| t.to_vec());
    let (width, height) = (info.width, info.height);
    let (color, depth) = (info.color_type as u8, info.bit_depth as u8);
    Some(ImageData { width, height, color, depth, palette, trns, data })
}

/// Decodes a PNG file and normalizes its pixels.
pub fn decode_texture(bytes: &Vec<u8>) -> (r: Result<(ImageData, Vec<Rgba>), TextureError>)
    ensures
        png_decoded(bytes@) is None ==> r == Err::<(ImageData, Vec<Rgba>), TextureError>(
            TextureError::Decode,
        ),
        png_decoded(bytes@) matches Some(img) ==> (r is Ok ==> image_ok(img) && r->Ok_0.0 == img
            && r->Ok_0.1@ == pixels_upto(img, img.height as int)),
        png_decoded(bytes@) matches Some(img) ==> (image_ok(img) && img.width * channels(img.color)
            <= usize::MAX ==> r is Ok),
{
    match decode_png(bytes.as_slice()) {
        None => Err(TextureError::Decode),
        Some(img) => {
            let pixels = normalize(&img)?;
            Ok((img, pixels))
        },
    }
}

/// Receives each newly encountered texture.
pub trait Uploader {
    fn upload(&mut self, info: Info, pixels: &Vec<Rgba>) -> Result<(), String>;
}

/// Why a texture could not be loaded.
#[derive(Clone, Debug, PartialEq, Eq)]
pub enum TextureLoadError {
    Texture(TextureError),
    /// The upload sink failed.
    Upload(String),
    /// Every texture index is taken.
    TooMany,
}

/// Whether a texture at `l` is among `entries`.
pub open spec fn is_cached(entries: Seq<(Location, Info)>, l: Location) -> bool {
    exists|i: int| 0 <= i < entries.len() && parts_of((#[trigger] entries[i]).0@) == parts_of(l@)
}

/// The texture at `l` is not cached and a free index remains for it.
pub open spec fn fresh_slot(entries: Seq<(Location, Info)>, l: Location) -> bool {
    !is_cached(entries, l) && entries.len() < u32::MAX
}

/// Whether the animation metadata, if any, fits the image.
pub open spec fn animation_allows(a: Option<&Animation>, img: ImageData) -> bool {
    match a {
        Some(a) => animation_ok(img.width, img.height, a.frames@),
        None => true,
    }
}

/// The textures uploaded so far, each with its index.
#[derive(Debug)]
pub struct TextureCache {
    entries: Vec<(Location, Info)>,
}

impl TextureCache {
    /// The textures uploaded so far, in upload order.
    pub closed spec fn view_entries(&self) -> Seq<(Location, Info)> {
        self.entries@
    }

    /// Each texture's index is its position, and no location appears twice.
    pub closed spec fn wf(&self) -> bool {
        &&& self.entries@.len() <= u32::MAX
        &&& forall|i: int| 0 <= i < self.entries@.len() ==> (#[trigger] self.entries@[i]).1.index == i
        &&& forall|i: int, j: int|
            0 <= i < j < self.entries@.len() ==> parts_of((#[trigger] self.entries@[i]).0@) != parts_of(
                (#[trigger] self.entries@[j]).0@,
            )
    }

    /// In a consistent cache each texture's index is its upload position, and no texture
    /// appears twice: each distinct texture was uploaded once.
    pub proof fn lemma_uploaded_once(&self)
        requires
            self.wf(),
        ensures
            forall|i: int| 0 <= i < self.view_entries().len() ==> (#[trigger] self.view_entries()[i]).1.index == i,
            forall|i: int, j: int|
                0 <= i < j < self.view_entries().len() ==> parts_of((#[trigger] self.view_entries()[i]).0@)
                    != parts_of((#[trigger] self.view_entries()[j]).0@),
    {
    }

    /// An empty cache.
    pub fn new() -> (r: TextureCache)
        ensures
            r.wf(),
            r.view_entries().len() == 0,
    {
        TextureCache { entries: Vec::new() }
    }

    /// The info of the cached texture at `location`.
    pub fn find(&self, location: &Location) -> (r: Option<Info>)
        ensures
            r matches Some(info) ==> exists|i: int|
                0 <= i < self.view_entries().len() && parts_of((#[trigger] self.view_entries()[i]).0@)
                    == parts_of(location@) && self.view_entries()[i].1 == info,
            r is None ==> forall|i: int|
                0 <= i < self.view_entries().len() ==> parts_of(
                    (#[trigger] self.view_entries()[i]).0@,
                ) != parts_of(location@),
    {
        let mut i: usize = 0;
        while i < self.entries.len()
            invariant
                i <= self.entries@.len(),
                forall|j: int| 0 <= j < i ==> parts_of((#[trigger] self.entries@[j]).0@) != parts_of(location@),
            decreases self.entries@.len() - i,
        {
            if self.entries[i].0.same(location) {
                assert(self.view_entries()[i as int] == self.entries@[i as int]);
                return Some(self.entries[i].1);
            }
            i = i + 1;
        }
        None
    }

    /// Loads the texture at `location` from its PNG bytes and its animation metadata, if any,
    /// uploading it under the next free index; a texture already cached is returned as it is.
    pub fn load<U: Uploader>(
        &mut self,
        uploader: &mut U,
        location: &Location,
        png: &Vec<u8>,
        animation: Option<&Animation>,
    ) -> (r: Result<Info, TextureLoadError>)
        requires
            old(self).wf(),
        ensures
            final(self).wf(),
            (exists|i: int|
                0 <= i < old(self).view_entries().len() && parts_of(
                    (#[trigger] old(self).view_entries()[i]).0@,
                ) == parts_of(location@)) ==> final(self).view_entries() == old(self).view_entries()
                && r is Ok,
            r is Err ==> final(self).view_entries() == old(self).view_entries(),
            r is Ok ==> final(self).view_entries().len() <= old(self).view_entries().len() + 1,
            r is Ok && !is_cached(old(self).view_entries(), *location) ==> final(self).view_entries()
                == old(self).view_entries().push((*location, r->Ok_0)) && r->Ok_0.index
                == old(self).view_entries().len(),
            r is Ok && final(self).view_entries().len() == old(self).view_entries().len() + 1 ==> (
            final(self).view_entries() == old(self).view_entries().push((*location, r->Ok_0))
                && r->Ok_0.index == old(self).view_entries().len() && png_decoded(png@) is Some
                && image_ok(png_decoded(png@)->Some_0) && r->Ok_0.width == png_decoded(png@)->Some_0.width
                && r->Ok_0.height == png_decoded(png@)->Some_0.height),
            r is Ok ==> exists|i: int|
                0 <= i < final(self).view_entries().len() && parts_of(
                    (#[trigger] final(self).view_entries()[i]).0@,
                ) == parts_of(location@) && final(self).view_entries()[i].1 == r->Ok_0,
            r matches Err(TextureLoadError::Texture(TextureError::Decode)) ==> png_decoded(png@) is None,
            (r matches Err(TextureLoadError::TooMany)) <==> !is_cached(old(self).view_entries(), *location)
                && old(self).view_entries().len() >= u32::MAX,
            fresh_slot(old(self).view_entries(), *location) && png_decoded(png@) is None ==> r
                == Err::<Info, TextureLoadError>(TextureLoadError::Texture(TextureError::Decode)),
            fresh_slot(old(self).view_entries(), *location) && png_decoded(png@) is Some
                && !animation_allows(animation, png_decoded(png@)->Some_0) ==> (r matches Err(
                TextureLoadError::Texture(e),
            ) && (e is NonProportional || e is FrameOutOfRange)),
            fresh_slot(old(self).view_entries(), *location) && png_decoded(png@) is Some
                && animation_allows(animation, png_decoded(png@)->Some_0) && !image_ok(
                png_decoded(png@)->Some_0,
            ) ==> (r matches Err(TextureLoadError::Texture(_))),
            fresh_slot(old(self).view_entries(), *location) && png_decoded(png@) is Some
                && animation_allows(animation, png_decoded(png@)->Some_0) && image_ok(
                png_decoded(png@)->Some_0,
            ) && png_decoded(png@)->Some_0.width * channels(png_decoded(png@)->Some_0.color)
                <= usize::MAX ==> (r is Ok || r matches Err(TextureLoadError::Upload(_))),
            r is Ok && final(self).view_entries().len() == old(self).view_entries().len() + 1
                ==> animation_allows(animation, png_decoded(png@)->Some_0),
    {
        match self.find(location) {
            Some(info) => {
                return Ok(info);
            },
            None => {},
        }
        if self.entries.len() >= u32::MAX as usize {
            return Err(TextureLoadError::TooMany);
        }
        let img = match decode_png(png.as_slice()) {
            None => {
                return Err(TextureLoadError::Texture(TextureError::Decode));
            },
            Some(img) => img,
        };
        match animation {
            Some(a) => match a.check(img.width, img.height) {
                Ok(()) => {},
                Err(e) => {
                    return Err(TextureLoadError::Texture(e));
                },
            },
            None => {},
        }
        let pixels = match normalize(&img) {
            Ok(p) => p,
            Err(e) => {
                return Err(TextureLoadError::Texture(e));
            },
        };
        let info = Info { width: img.width, height: img.height, index: self.entries.len() as u32 };
        match uploader.upload(info, &pixels) {
            Ok(()) => {},
            Err(e) => {
                return Err(TextureLoadError::Upload(e));
            },
        }
        let ghost before = self.entries@;
        self.entries.push((location.duplicate(), info));
        proof {
            assert(self.entries@[before.len() as int] == (*location, info));
            assert forall|i: int, j: int|
                0 <= i < j < self.entries@.len() implies parts_of((#[trigger] self.entries@[i]).0@) != parts_of(
                    (#[trigger] self.entries@[j]).0@,
                ) by {
                if j < before.len() {
                    assert(self.entries@[i] == before[i] && self.entries@[j] == before[j]);
                } else {
                    assert(self.entries@[i] == before[i]);
                }
            }
            assert forall|i: int| 0 <= i < self.entries@.len() implies (#[trigger] self.entries@[i]).1.index == i by {
                if i < before.len() {
                    assert(self.entries@[i] == before[i]);
                }
            }
            assert(self.view_entries()[before.len() as int] == (*location, info));
        }
        Ok(info)
    }
}

} // verus!
