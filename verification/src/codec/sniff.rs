//! Acceptance of encoded input: byte limit, format sniffing and the metadata gates.
use crate::codec::encoding::Format;
use crate::codec::input_contract::{exif_view, jpeg, jpeg_from, png, png_from};
use crate::error::{ErrorCode, PicError};
use crate::limits::ResourceLimits;
use std::path::PathBuf;
use vstd::prelude::*;

verus! {

/// What the format sniffer recognized.
#[derive(Debug, Clone, Copy, PartialEq, Eq, Structural)]
pub enum Sniffed {
    Png,
    Jpeg,
    Other,
}

/// The 8-byte PNG signature.
pub open spec fn png_signature() -> Seq<u8> {
    seq![0x89u8, 0x50, 0x4e, 0x47, 0x0d, 0x0a, 0x1a, 0x0a]
}

/// The JPEG start-of-image marker followed by a marker prefix.
pub open spec fn jpeg_signature() -> Seq<u8> {
    seq![0xffu8, 0xd8, 0xff]
}

pub open spec fn begins_with(bytes: Seq<u8>, prefix: Seq<u8>) -> bool {
    bytes.len() >= prefix.len() && bytes.take(prefix.len() as int) == prefix
}

/// What `image::guess_format` recognizes: it checks magic bytes in a fixed order, PNG's
/// signature first and the JPEG marker second; every other result (another format, or no
/// recognized format) is `Other`.
#[verifier::external_body]
fn sniff(bytes: &[u8]) -> (r: Sniffed)
    ensures
        r == Sniffed::Png <==> begins_with(bytes@, png_signature()),
        r == Sniffed::Jpeg <==> begins_with(bytes@, jpeg_signature()),
{
    match image::guess_format(bytes) {
        Ok(image::ImageFormat::Png) => Sniffed::Png,
        Ok(image::ImageFormat::Jpeg) => Sniffed::Jpeg,
        _ => Sniffed::Other,
    }
}

/// What the metadata gates report about an admitted input.
#[derive(Debug, Clone, Copy, PartialEq, Eq)]
pub struct InputMetadata {
    pub format: Format,
    pub exif_orientation: Option<u8>,
    pub declared_srgb: bool,
}

/// The metadata of `bytes` admitted under `max_input_bytes`, or the refusal: inputs over the
/// byte limit exceed the limits; only PNG and JPEG are accepted, each after its gate.
pub open spec fn input_outcome(bytes: Seq<u8>, max_input_bytes: nat) -> Result<InputMetadata, ErrorCode> {
    if bytes.len() > max_input_bytes {
        Err(ErrorCode::ResourceLimit)
    } else if begins_with(bytes, png_signature()) {
        match png_from(bytes, 8, false, false, None) {
            Ok((declared, exif)) => Ok(
                InputMetadata {
                    format: Format::Png,
                    exif_orientation: orientation_of(exif),
                    declared_srgb: declared || exif_srgb(exif),
                },
            ),
            Err(c) => Err(c),
        }
    } else if begins_with(bytes, jpeg_signature()) {
        match jpeg_from(bytes, 2, false, false, None) {
            Ok(exif) => Ok(
                InputMetadata {
                    format: Format::Jpeg,
                    exif_orientation: orientation_of(exif),
                    declared_srgb: exif_srgb(exif),
                },
            ),
            Err(c) => Err(c),
        }
    } else {
        Err(ErrorCode::UnsupportedFormat)
    }
}

/// The orientation an EXIF block gives, if the image has one.
pub open spec fn orientation_of(exif: Option<(nat, bool)>) -> Option<u8> {
    match exif {
        Some((o, _)) => Some(o as u8),
        None => None,
    }
}

/// Whether an EXIF block declares sRGB.
pub open spec fn exif_srgb(exif: Option<(nat, bool)>) -> bool {
    match exif {
        Some((_, srgb)) => srgb,
        None => false,
    }
}

fn split_exif(exif: Option<(u8, bool)>) -> (r: (Option<u8>, bool))
    ensures
        r.0 == orientation_of(exif_view(exif)),
        r.1 == exif_srgb(exif_view(exif)),
{
    match exif {
        Some((o, srgb)) => (Some(o), srgb),
        None => (None, false),
    }
}

/// Admit the exact bytes of an input image before any pixel decoding.
pub fn inspect_input(bytes: &[u8], limits: &ResourceLimits) -> (r: Result<InputMetadata, PicError>)
    ensures
        match r {
            Ok(m) => input_outcome(bytes@, limits.max_input_bytes as nat) == Ok::<InputMetadata, ErrorCode>(m),
            Err(e) => input_outcome(bytes@, limits.max_input_bytes as nat) == Err::<InputMetadata, ErrorCode>(e.code),
        },
{
    if bytes.len() as u64 > limits.max_input_bytes {
        return Err(PicError::new(ErrorCode::ResourceLimit, "image exceeds byte limit"));
    }
    match sniff(bytes) {
        Sniffed::Png => {
            let (declared, exif) = png(bytes)?;
            let (orientation, srgb) = split_exif(exif);
            Ok(InputMetadata { format: Format::Png, exif_orientation: orientation, declared_srgb: declared || srgb })
        },
        Sniffed::Jpeg => {
            let exif = jpeg(bytes)?;
            let (orientation, srgb) = split_exif(exif);
            Ok(InputMetadata { format: Format::Jpeg, exif_orientation: orientation, declared_srgb: srgb })
        },
        Sniffed::Other => Err(PicError::new(
            ErrorCode::UnsupportedFormat,
            "input is not a recognized PNG or JPEG",
        )),
    }
}

/// Decoded-image facts reported by `info` and runs.
#[derive(Debug)]
pub struct ImageInfo {
    pub path: PathBuf,
    pub format: Format,
    pub width: u32,
    pub height: u32,
    pub stored_width: u32,
    pub stored_height: u32,
    pub exif_orientation: Option<u8>,
    pub bit_depth: u8,
    pub color_type: &'static str,
    pub color_space: &'static str,
    pub color_source: &'static str,
    pub has_alpha: bool,
    pub has_transparency: bool,
    pub orientation: &'static str,
}

} // verus!
