//! Decoding admitted input bytes into 8-bit RGBA samples in their displayed orientation: the
//! `image` crate decodes; the size, color, orientation and mask-coverage rules are here.
use crate::codec::encoding::Format;
use crate::codec::sniff::{inspect_input, input_outcome, InputMetadata};
use crate::error::{ErrorCode, PicError};
use crate::limits::ResourceLimits;
use crate::operation::grid::{idx, remap, remapped, sample_at, SampleMap};
use image::{ImageDecoder, ImageError, ImageFormat, ImageReader, Limits};
use std::io::Cursor;
use vstd::prelude::*;

verus! {

/// The color layout a decoder reports for an image.
#[derive(Debug, Clone, Copy, PartialEq, Eq, Structural)]
pub enum ColorKind {
    Gray,
    GrayAlpha,
    Rgb,
    Rgba,
    /// Any other layout (16-bit, floating point, ...).
    Other,
}

/// What decoding gives: the stored size, the reported color layout and the samples widened
/// to 8-bit RGBA, four bytes per pixel in row-major stored order.
#[derive(Debug)]
pub struct DecodedSamples {
    pub width: u32,
    pub height: u32,
    pub color: ColorKind,
    pub rgba: Vec<u8>,
}

/// What the decoder reports and gives: the stored size, the channel count and bytes per
/// pixel of its color type, and the samples widened to 8-bit RGBA, four bytes per pixel in
/// row-major stored order.
pub struct RawSamples {
    pub width: u32,
    pub height: u32,
    pub channels: u8,
    pub bytes_per_pixel: u8,
    pub rgba: Vec<u8>,
}

/// What the `image` crate decodes `bytes` of `format` to: stored width and height, the
/// color type's channel count and bytes per pixel, and 8-bit RGBA samples.
pub uninterp spec fn decoded(bytes: Seq<u8>, format: Format) -> (u32, u32, u8, u8, Seq<u8>);

/// The color layout of a color type with `channels` channels in `bytes_per_pixel` bytes:
/// one byte per channel is 8-bit gray, gray-alpha, RGB or RGBA; anything else is `Other`.
pub open spec fn color_of(channels: u8, bytes_per_pixel: u8) -> ColorKind {
    if channels != bytes_per_pixel {
        ColorKind::Other
    } else if channels == 1 {
        ColorKind::Gray
    } else if channels == 2 {
        ColorKind::GrayAlpha
    } else if channels == 3 {
        ColorKind::Rgb
    } else if channels == 4 {
        ColorKind::Rgba
    } else {
        ColorKind::Other
    }
}

fn color_kind(channels: u8, bytes_per_pixel: u8) -> (r: ColorKind)
    ensures
        r == color_of(channels, bytes_per_pixel),
{
    if channels != bytes_per_pixel {
        ColorKind::Other
    } else if channels == 1 {
        ColorKind::Gray
    } else if channels == 2 {
        ColorKind::GrayAlpha
    } else if channels == 3 {
        ColorKind::Rgb
    } else if channels == 4 {
        ColorKind::Rgba
    } else {
        ColorKind::Other
    }
}

/// Which error code, if any, the `image` crate's decoder refuses `bytes` of `format` with,
/// under the limits `max_dimension` (width and height) and `max_alloc`, leaving aside a
/// failed memory reservation (which depends on the machine).
pub uninterp spec fn decode_refusal(bytes: Seq<u8>, format: Format, max_dimension: u32, max_alloc: u64) -> Option<
    ErrorCode,
>;

/// `image::ImageReader::decode` with `format` under `image::Limits` whose
/// `max_image_width` and `max_image_height` are `max_dimension` and whose `max_alloc` is
/// `max_alloc`, then the color type's `channel_count` and `bytes_per_pixel`, and
/// `into_rgba8`. Whether the decoder refuses the
/// bytes and the code its error maps to (limits: `ResourceLimit`, unsupported:
/// `UnsupportedFormat`, any other: `DecodeFailed`) is named `decode_refusal`; a failed memory
/// reservation, which depends on the machine, is reported as a limit error
/// (`ResourceLimit`) as well, and may come before another refusal. On success the result is
/// the decoding of the bytes, with four samples per pixel.
#[verifier::external_body]
fn decode_samples(bytes: &[u8], format: Format, max_dimension: u32, max_alloc: u64) -> (r: Result<RawSamples, PicError>)
    ensures
        r matches Err(e) ==> decode_refusal(bytes@, format, max_dimension, max_alloc) == Some(e.code) || e.code
            == ErrorCode::ResourceLimit,
        r matches Ok(d) ==> decode_refusal(bytes@, format, max_dimension, max_alloc) is None && (d.width, d.height, d.channels, d.bytes_per_pixel, d.rgba@) == decoded(bytes@, format)
            && d.rgba@.len() == d.width * d.height * 4,
{
    let mut bounds = Limits::default();
    bounds.max_alloc = Some(max_alloc);
    bounds.max_image_width = Some(max_dimension);
    bounds.max_image_height = bounds.max_image_width;
    let mut reader = ImageReader::with_format(Cursor::new(bytes), match format { Format::Png => ImageFormat::Png, Format::Jpeg => ImageFormat::Jpeg });
    reader.limits(bounds);
    let image = reader.decode().map_err(|e| PicError::new(match e {
        ImageError::Limits(_) => ErrorCode::ResourceLimit,
        ImageError::Unsupported(_) => ErrorCode::UnsupportedFormat,
        _ => ErrorCode::DecodeFailed,
    }, &e.to_string()))?;
    Ok(RawSamples { width: image.width(), height: image.height(), channels: image.color().channel_count(),
        bytes_per_pixel: image.color().bytes_per_pixel(), rgba: image.into_rgba8().into_raw() })
}

/// What the `image` crate's decoder reads from the header of `bytes` of `format` under the
/// limits `max_dimension` (width and height) and `max_alloc`: the stored width and height
/// and the color type's channel count and bytes per pixel, or the code its refusal maps to
/// (limits: `ResourceLimit`, unsupported: `UnsupportedFormat`, any other: `DecodeFailed`).
pub uninterp spec fn decoder_header(bytes: Seq<u8>, format: Format, max_dimension: u32, max_alloc: u64) -> Result<
    (u32, u32, u8, u8),
    ErrorCode,
>;

/// `image::ImageReader::into_decoder` with `format` under the same `image::Limits` as
/// `decode_samples`, then the decoder's `dimensions` and its color type's `channel_count`
/// and `bytes_per_pixel`. What it reads, or the code its refusal maps to, is named
/// `decoder_header`.
#[verifier::external_body]
fn read_header(bytes: &[u8], format: Format, max_dimension: u32, max_alloc: u64) -> (r: Result<(u32, u32, u8, u8), PicError>)
    ensures
        match r {
            Ok(h) => decoder_header(bytes@, format, max_dimension, max_alloc) == Ok::<(u32, u32, u8, u8), ErrorCode>(h),
            Err(e) => decoder_header(bytes@, format, max_dimension, max_alloc) == Err::<(u32, u32, u8, u8), ErrorCode>(e.code),
        },
{
    let mut bounds = Limits::default();
    bounds.max_alloc = Some(max_alloc);
    bounds.max_image_width = Some(max_dimension);
    bounds.max_image_height = bounds.max_image_width;
    let mut reader = ImageReader::with_format(Cursor::new(bytes), match format { Format::Png => ImageFormat::Png, Format::Jpeg => ImageFormat::Jpeg });
    reader.limits(bounds);
    let decoder = reader.into_decoder().map_err(|e| PicError::new(match e {
        ImageError::Limits(_) => ErrorCode::ResourceLimit,
        ImageError::Unsupported(_) => ErrorCode::UnsupportedFormat,
        _ => ErrorCode::DecodeFailed,
    }, &e.to_string()))?;
    let (width, height) = decoder.dimensions();
    Ok((width, height, decoder.color_type().channel_count(), decoder.color_type().bytes_per_pixel()))
}

/// Why a decoder header is refused, if it is: the stored size must be admissible and the
/// color layout 8-bit gray, gray-alpha, RGB or RGBA.
pub open spec fn header_refusal(header: (u32, u32, u8, u8), limits: ResourceLimits) -> Option<ErrorCode> {
    if limits.dimensions_refusal(header.0, header.1) is Some {
        limits.dimensions_refusal(header.0, header.1)
    } else if color_of(header.2, header.3) == ColorKind::Other {
        Some(ErrorCode::UnsupportedColor)
    } else {
        None
    }
}

/// The pixels of row-major RGBA bytes.
pub open spec fn pixels_of(b: Seq<u8>) -> Seq<[u8; 4]> {
    Seq::new(b.len() / 4, |i: int| [b[4 * i], b[4 * i + 1], b[4 * i + 2], b[4 * i + 3]])
}

/// How EXIF orientation `o` turns stored pixels into displayed ones (1 or none: as stored).
pub open spec fn orientation_map(o: Option<u8>) -> SampleMap {
    match o {
        Some(2) => SampleMap::FlipHorizontal,
        Some(3) => SampleMap::Rotate180,
        Some(4) => SampleMap::FlipVertical,
        Some(5) => SampleMap::Transpose,
        Some(6) => SampleMap::Rotate90,
        Some(7) => SampleMap::Transverse,
        Some(8) => SampleMap::Rotate270,
        _ => SampleMap::Offset { dx: 0, dy: 0 },
    }
}

/// EXIF orientation `o` turns a `sw` x `sh` stored image upright. The displayed pixel at
/// `(x, y)` is the stored pixel at: 1 `(x, y)`; 2 `(sw - 1 - x, y)`; 3
/// `(sw - 1 - x, sh - 1 - y)`; 4 `(x, sh - 1 - y)`; and, on the `sh` x `sw` displayed image,
/// 5 `(y, x)`; 6 `(y, sh - 1 - x)`; 7 `(sw - 1 - y, sh - 1 - x)`; 8 `(sw - 1 - y, x)`.
pub proof fn exif_orientation_positions<T>(o: u8, out: Seq<T>, stored: Seq<T>, sw: int, sh: int, bg: T)
    requires
        1 <= o <= 8,
        sw > 0,
        sh > 0,
        stored.len() == sw * sh,
        remapped(
            out,
            stored,
            sw,
            sh,
            if o >= 5 { sh } else { sw },
            if o >= 5 { sw } else { sh },
            orientation_map(Some(o)),
            bg,
        ),
    ensures
        o == 1 ==> forall|x: int, y: int| 0 <= x < sw && 0 <= y < sh ==> #[trigger] out[idx(x, y, sw)] == stored[idx(x, y, sw)],
        o == 2 ==> forall|x: int, y: int|
            0 <= x < sw && 0 <= y < sh ==> #[trigger] out[idx(x, y, sw)] == stored[idx(sw - 1 - x, y, sw)],
        o == 3 ==> forall|x: int, y: int|
            0 <= x < sw && 0 <= y < sh ==> #[trigger] out[idx(x, y, sw)] == stored[idx(sw - 1 - x, sh - 1 - y, sw)],
        o == 4 ==> forall|x: int, y: int|
            0 <= x < sw && 0 <= y < sh ==> #[trigger] out[idx(x, y, sw)] == stored[idx(x, sh - 1 - y, sw)],
        o == 5 ==> forall|x: int, y: int| 0 <= x < sh && 0 <= y < sw ==> #[trigger] out[idx(x, y, sh)] == stored[idx(y, x, sw)],
        o == 6 ==> forall|x: int, y: int|
            0 <= x < sh && 0 <= y < sw ==> #[trigger] out[idx(x, y, sh)] == stored[idx(y, sh - 1 - x, sw)],
        o == 7 ==> forall|x: int, y: int|
            0 <= x < sh && 0 <= y < sw ==> #[trigger] out[idx(x, y, sh)] == stored[idx(sw - 1 - y, sh - 1 - x, sw)],
        o == 8 ==> forall|x: int, y: int|
            0 <= x < sh && 0 <= y < sw ==> #[trigger] out[idx(x, y, sh)] == stored[idx(sw - 1 - y, x, sw)],
{
    let dw = if o >= 5 { sh } else { sw };
    let dh = if o >= 5 { sw } else { sh };
    assert forall|x: int, y: int| 0 <= x < dw && 0 <= y < dh implies #[trigger] out[idx(x, y, dw)] == sample_at(
        stored,
        sw,
        sh,
        dw,
        dh,
        orientation_map(Some(o)),
        bg,
        x,
        y,
    ) by {}
}

/// Orientations 5 to 8 swap width and height.
pub open spec fn swaps(o: Option<u8>) -> bool {
    o matches Some(v) && v >= 5
}

pub open spec fn gray_pixel(p: [u8; 4]) -> bool {
    p[0] == p[1] && p[1] == p[2]
}

/// An image ready for use: displayed size, stored size, color layout and displayed pixels.
#[derive(Debug)]
pub struct AdmittedImage {
    pub width: u32,
    pub height: u32,
    pub stored_width: u32,
    pub stored_height: u32,
    pub color: ColorKind,
    pub pixels: Vec<[u8; 4]>,
}

/// Why decoded samples are refused, if they are: the stored size must be admissible, the
/// color layout 8-bit gray, gray-alpha, RGB or RGBA, the orientation 1 to 8, the displayed
/// size admissible, four samples present per pixel, and a coverage mask gray (R = G = B).
pub open spec fn admit_refusal(
    meta: InputMetadata,
    width: u32,
    height: u32,
    color: ColorKind,
    rgba: Seq<u8>,
    coverage: bool,
    limits: ResourceLimits,
) -> Option<ErrorCode> {
    if limits.dimensions_refusal(width, height) is Some {
        limits.dimensions_refusal(width, height)
    } else if color == ColorKind::Other {
        Some(ErrorCode::UnsupportedColor)
    } else if meta.exif_orientation matches Some(o) && !(1 <= o <= 8) {
        Some(ErrorCode::UnsupportedMetadata)
    } else if swaps(meta.exif_orientation) && limits.dimensions_refusal(height, width) is Some {
        limits.dimensions_refusal(height, width)
    } else if rgba.len() != width * height * 4 {
        Some(ErrorCode::DecodeFailed)
    } else if coverage && exists|i: int| 0 <= i < width * height && !gray_pixel(#[trigger] pixels_of(rgba)[i]) {
        Some(ErrorCode::InvalidMask)
    } else {
        None
    }
}

/// Admit decoded samples: check them, and turn the stored pixels to their displayed
/// orientation.
pub fn admit_decoded(meta: InputMetadata, d: DecodedSamples, coverage: bool, limits: &ResourceLimits) -> (r: Result<
    AdmittedImage,
    PicError,
>)
    ensures
        match r {
            Ok(img) => {
                &&& admit_refusal(meta, d.width, d.height, d.color, d.rgba@, coverage, *limits) is None
                &&& img.stored_width == d.width && img.stored_height == d.height
                &&& img.color == d.color
                &&& (img.width, img.height) == if swaps(meta.exif_orientation) {
                    (d.height, d.width)
                } else {
                    (d.width, d.height)
                }
                &&& remapped(
                    img.pixels@,
                    pixels_of(d.rgba@),
                    d.width as int,
                    d.height as int,
                    img.width as int,
                    img.height as int,
                    orientation_map(meta.exif_orientation),
                    [0u8, 0, 0, 0],
                )
            },
            Err(e) => admit_refusal(meta, d.width, d.height, d.color, d.rgba@, coverage, *limits) == Some(
                e.code,
            ),
        },
{
    let (w, h) = (d.width, d.height);
    match limits.check_dimensions(w, h) {
        Ok(_) => {},
        Err(e) => return Err(e),
    }
    if d.color == ColorKind::Other {
        return Err(PicError::new(ErrorCode::UnsupportedColor, "only 8-bit grayscale/RGB/RGBA inputs are supported"));
    }
    let (map, swapped) = match meta.exif_orientation {
        None => (SampleMap::Offset { dx: 0, dy: 0 }, false),
        Some(1) => (SampleMap::Offset { dx: 0, dy: 0 }, false),
        Some(2) => (SampleMap::FlipHorizontal, false),
        Some(3) => (SampleMap::Rotate180, false),
        Some(4) => (SampleMap::FlipVertical, false),
        Some(5) => (SampleMap::Transpose, true),
        Some(6) => (SampleMap::Rotate90, true),
        Some(7) => (SampleMap::Transverse, true),
        Some(8) => (SampleMap::Rotate270, true),
        Some(_) => return Err(PicError::new(ErrorCode::UnsupportedMetadata, "invalid EXIF orientation")),
    };
    let (ow, oh) = if swapped {
        (h, w)
    } else {
        (w, h)
    };
    if swapped {
        match limits.check_dimensions(ow, oh) {
            Ok(_) => {},
            Err(e) => return Err(e),
        }
    }
    let count = w as usize * h as usize;
    let n = d.rgba.len();
    if n % 4 != 0 || n / 4 != count {
        return Err(PicError::new(ErrorCode::DecodeFailed, "decoder gave an unexpected sample count"));
    }
    let ghost b = d.rgba@;
    let mut stored: Vec<[u8; 4]> = Vec::new();
    let mut i: usize = 0;
    while i < count
        invariant
            b == d.rgba@,
            n == b.len(),
            b.len() == count * 4,
            count == w * h,
            w == d.width,
            h == d.height,
            limits.dimensions_refusal(w, h) is None,
            d.color != ColorKind::Other,
            !(meta.exif_orientation matches Some(o) && !(1 <= o <= 8)),
            !(swaps(meta.exif_orientation) && limits.dimensions_refusal(h, w) is Some),
            i <= count,
            stored@.len() == i,
            forall|j: int| 0 <= j < i ==> #[trigger] stored@[j] == pixels_of(b)[j],
            coverage ==> forall|j: int| 0 <= j < i ==> gray_pixel(#[trigger] pixels_of(b)[j]),
        decreases count - i,
    {
        let p = [d.rgba[4 * i], d.rgba[4 * i + 1], d.rgba[4 * i + 2], d.rgba[4 * i + 3]];
        assert(p == pixels_of(b)[i as int]);
        if coverage && (p[0] != p[1] || p[1] != p[2]) {
            return Err(
                PicError::new(
                    ErrorCode::InvalidMask,
                    "mask must contain grayscale coverage (R=G=B), optionally multiplied by alpha",
                ),
            );
        }
        stored.push(p);
        i += 1;
    }
    assert(stored@ =~= pixels_of(b));
    let pixels = remap(&stored, w, h, ow, oh, map, [0u8, 0, 0, 0]);
    Ok(AdmittedImage { width: ow, height: oh, stored_width: w, stored_height: h, color: d.color, pixels })
}

/// The checks, decoding and orientation of one input: `inspect_input`, then the decoder's
/// header (its stored size and color layout are checked before any pixel is decoded), then
/// the decoder under the limits, then `admit_decoded` (a coverage mask must be gray).
pub fn decode(bytes: &[u8], coverage: bool, limits: &ResourceLimits) -> (r: Result<(InputMetadata, AdmittedImage), PicError>)
    ensures
        match input_outcome(bytes@, limits.max_input_bytes as nat) {
            Err(c) => r matches Err(e) && e.code == c,
            Ok(meta) => match decoder_header(bytes@, meta.format, limits.max_dimension, limits.max_buffer_bytes) {
                Err(c) => r matches Err(e) && e.code == c,
                Ok(header) => match header_refusal(header, *limits) {
                Some(c) => r matches Err(e) && e.code == c,
                None => match decode_refusal(bytes@, meta.format, limits.max_dimension, limits.max_buffer_bytes) {
                Some(c) => r matches Err(e) && (e.code == c || e.code == ErrorCode::ResourceLimit),
                None => (r matches Err(e) && e.code == ErrorCode::ResourceLimit) || ({
                    let (w, h, channels, bytes_per_pixel, rgba) = decoded(bytes@, meta.format);
                    let color = color_of(channels, bytes_per_pixel);
                    match admit_refusal(meta, w, h, color, rgba, coverage, *limits) {
                        Some(c) => r matches Err(e) && e.code == c,
                        None => r matches Ok((m, img)) && {
                            &&& m == meta
                            &&& img.stored_width == w && img.stored_height == h && img.color == color
                            &&& (img.width, img.height) == if swaps(meta.exif_orientation) { (h, w) } else { (w, h) }
                            &&& remapped(
                                img.pixels@,
                                pixels_of(rgba),
                                w as int,
                                h as int,
                                img.width as int,
                                img.height as int,
                                orientation_map(meta.exif_orientation),
                                [0u8, 0, 0, 0],
                            )
                        },
                    }
                }),
            },
            },
            },
        },
{
    let meta = match inspect_input(bytes, limits) {
        Ok(m) => m,
        Err(e) => return Err(e),
    };
    let (width, height, channels, bytes_per_pixel) = match read_header(
        bytes,
        meta.format,
        limits.max_dimension,
        limits.max_buffer_bytes,
    ) {
        Ok(h) => h,
        Err(e) => return Err(e),
    };
    match limits.check_dimensions(width, height) {
        Ok(_) => {},
        Err(e) => return Err(e),
    }
    if color_kind(channels, bytes_per_pixel) == ColorKind::Other {
        return Err(PicError::new(ErrorCode::UnsupportedColor, "only 8-bit grayscale/RGB/RGBA inputs are supported"));
    }
    let raw = match decode_samples(bytes, meta.format, limits.max_dimension, limits.max_buffer_bytes) {
        Ok(raw) => raw,
        Err(e) => return Err(e),
    };
    let color = color_kind(raw.channels, raw.bytes_per_pixel);
    let d = DecodedSamples { width: raw.width, height: raw.height, color, rgba: raw.rgba };
    match admit_decoded(meta, d, coverage, limits) {
        Ok(img) => Ok((meta, img)),
        Err(e) => Err(e),
    }
}

} // verus!
