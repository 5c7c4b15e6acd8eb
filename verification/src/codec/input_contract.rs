//! Conservative metadata gates: unsupported representations are refused before a decoder
//! could silently convert them, and the one EXIF block an image may carry is read for its
//! orientation and color declaration. Decoding itself stays with the `image` crate.
use crate::codec::exif::{exif_outcome, read};
use crate::error::{ErrorCode, PicError};
use vstd::prelude::*;

verus! {

/// What an EXIF block read as: its orientation and whether it declares sRGB.
pub open spec fn exif_view(e: Option<(u8, bool)>) -> Option<(nat, bool)> {
    match e {
        Some((o, srgb)) => Some((o as nat, srgb)),
        None => None,
    }
}

fn malformed<T>(message: &str) -> (r: Result<T, PicError>)
    ensures
        r matches Err(e) && e.code == ErrorCode::DecodeFailed,
{
    Err(PicError::new(ErrorCode::DecodeFailed, message))
}

fn refuse<T>(code: ErrorCode, message: &str) -> (r: Result<T, PicError>)
    ensures
        r matches Err(e) && e.code == code,
{
    Err(PicError::new(code, message))
}

/// Big-endian unsigned value of `bytes[at..at + 4]`.
pub open spec fn be32(bytes: Seq<u8>, at: int) -> nat {
    (bytes[at] as nat) * 0x100_0000 + (bytes[at + 1] as nat) * 0x1_0000 + (bytes[at + 2] as nat)
        * 0x100 + bytes[at + 3] as nat
}

/// Big-endian unsigned value of `bytes[at..at + 2]`.
pub open spec fn be16(bytes: Seq<u8>, at: int) -> nat {
    (bytes[at] as nat) * 0x100 + bytes[at + 1] as nat
}

/// A four-letter PNG chunk type as its big-endian number.
pub open spec fn tag(a: u8, b: u8, c: u8, d: u8) -> nat {
    (a as nat) * 0x100_0000 + (b as nat) * 0x1_0000 + (c as nat) * 0x100 + d as nat
}

pub open spec fn ihdr() -> nat { tag(73, 72, 68, 82) }
pub open spec fn srgb() -> nat { tag(115, 82, 71, 66) }
pub open spec fn iend() -> nat { tag(73, 69, 78, 68) }
pub open spec fn exif_chunk() -> nat { tag(101, 88, 73, 102) }
pub open spec fn actl() -> nat { tag(97, 99, 84, 76) }

/// ICC, gamma, chromaticity and HDR chunks (`iCCP gAMA cHRM cICP mDCV cLLI`).
pub open spec fn color_chunk(kind: nat) -> bool {
    kind == tag(105, 67, 67, 80) || kind == tag(103, 65, 77, 65) || kind == tag(99, 72, 82, 77)
        || kind == tag(99, 73, 67, 80) || kind == tag(109, 68, 67, 86) || kind == tag(99, 76, 76, 73)
}

/// The outcome of checking the PNG chunks from `offset` on: whether an `sRGB` chunk was
/// declared, or the refusal. Chunks are length, type, data and CRC; `IHDR` comes first,
/// exactly once, with 8-bit gray/RGB/gray-alpha/RGBA; `sRGB` holds one intent byte 0..=3;
/// color-management chunks and animation are refused; at most one `eXIf` chunk, which
/// must read as EXIF, gives the orientation; `IEND` is empty and last. The result is whether
/// `sRGB` was declared and what the EXIF block read as.
pub open spec fn png_from(
    bytes: Seq<u8>,
    offset: nat,
    declared: bool,
    saw_header: bool,
    exif: Option<(nat, bool)>,
) -> Result<(bool, Option<(nat, bool)>), ErrorCode>
    decreases bytes.len() - offset,
{
    if offset >= bytes.len() {
        Err(ErrorCode::DecodeFailed)
    } else if offset + 8 > bytes.len() {
        Err(ErrorCode::DecodeFailed)
    } else {
        let length = be32(bytes, offset as int);
        let end = offset + 12 + length;
        if end > bytes.len() {
            Err(ErrorCode::DecodeFailed)
        } else {
            let kind = be32(bytes, (offset + 4) as int);
            let data = bytes.subrange((offset + 8) as int, end - 4);
            if !saw_header && kind != ihdr() {
                Err(ErrorCode::DecodeFailed)
            } else if kind == ihdr() {
                if saw_header || data.len() != 13 {
                    Err(ErrorCode::DecodeFailed)
                } else if data[8] != 8 || !(data[9] == 0 || data[9] == 2 || data[9] == 4 || data[9]
                    == 6) {
                    Err(ErrorCode::UnsupportedColor)
                } else {
                    png_from(bytes, end, declared, true, exif)
                }
            } else if kind == srgb() {
                if data.len() != 1 || data[0] > 3 {
                    Err(ErrorCode::DecodeFailed)
                } else {
                    png_from(bytes, end, true, saw_header, exif)
                }
            } else if color_chunk(kind) {
                Err(ErrorCode::UnsupportedColor)
            } else if kind == exif_chunk() {
                if exif is Some {
                    Err(ErrorCode::UnsupportedMetadata)
                } else {
                    match exif_outcome(data) {
                        Err(c) => Err(c),
                        Ok(x) => png_from(bytes, end, declared, saw_header, Some(x)),
                    }
                }
            } else if kind == actl() {
                Err(ErrorCode::UnsupportedFormat)
            } else if kind == iend() {
                if data.len() != 0 || end != bytes.len() {
                    Err(ErrorCode::DecodeFailed)
                } else {
                    Ok((declared, exif))
                }
            } else {
                png_from(bytes, end, declared, saw_header, exif)
            }
        }
    }
}

fn read_be32(bytes: &[u8], at: usize) -> (v: u32)
    requires
        at + 4 <= bytes@.len(),
    ensures
        v as nat == be32(bytes@, at as int),
{
    let v = (bytes[at] as u32) * 0x100_0000 + (bytes[at + 1] as u32) * 0x1_0000 + (bytes[at + 2]
        as u32) * 0x100 + bytes[at + 3] as u32;
    v
}

fn read_be16(bytes: &[u8], at: usize) -> (v: u16)
    requires
        at + 2 <= bytes@.len(),
    ensures
        v as nat == be16(bytes@, at as int),
{
    (bytes[at] as u16) * 0x100 + bytes[at + 1] as u16
}

/// Check a PNG's chunks (after its 8-byte signature): whether it declares sRGB, and what
/// its EXIF block, if any, reads as.
pub fn png(bytes: &[u8]) -> (r: Result<(bool, Option<(u8, bool)>), PicError>)
    ensures
        match r {
            Ok((declared, exif)) => png_from(bytes@, 8, false, false, None) == Ok::<
                (bool, Option<(nat, bool)>),
                ErrorCode,
            >((declared, exif_view(exif))),
            Err(e) => png_from(bytes@, 8, false, false, None) == Err::<(bool, Option<(nat, bool)>), ErrorCode>(
                e.code,
            ),
        },
{
    let mut offset: usize = 8;
    let mut declared = false;
    let mut saw_header = false;
    let mut exif: Option<(u8, bool)> = None;
    while offset < bytes.len()
        invariant
            png_from(bytes@, 8, false, false, None) == png_from(
                bytes@,
                offset as nat,
                declared,
                saw_header,
                exif_view(exif),
            ),
        decreases bytes@.len() - offset,
    {
        if bytes.len() - offset < 8 {
            return malformed("truncated PNG chunk header");
        }
        let length = read_be32(bytes, offset) as usize;
        if bytes.len() - offset - 8 < 4 || bytes.len() - offset - 12 < length {
            return malformed("truncated PNG chunk");
        }
        let end = offset + 12 + length;
        let kind = read_be32(bytes, offset + 4);
        let data_start = offset + 8;
        let data_len = length;
        assert(bytes@.subrange(offset + 8, end - 4).len() == data_len);
        if !saw_header && kind != 0x4948_4452 {
            return malformed("PNG must start with IHDR");
        }
        if kind == 0x4948_4452 {
            if saw_header || data_len != 13 {
                return malformed("invalid PNG IHDR");
            }
            saw_header = true;
            let depth = bytes[data_start + 8];
            let color = bytes[data_start + 9];
            if depth != 8 || !(color == 0 || color == 2 || color == 4 || color == 6) {
                return refuse(
                    ErrorCode::UnsupportedColor,
                    "PNG requires 8-bit grayscale/RGB/RGBA; palette and other bit depths are not implemented",
                );
            }
        } else if kind == 0x7352_4742 {
            if data_len != 1 || bytes[data_start] > 3 {
                return malformed("invalid PNG sRGB chunk");
            }
            declared = true;
        } else if kind == 0x6943_4350 || kind == 0x6741_4d41 || kind == 0x6348_524d || kind
            == 0x6349_4350 || kind == 0x6d44_4356 || kind == 0x634c_4c49 {
            return refuse(
                ErrorCode::UnsupportedColor,
                "PNG ICC/gamma/chromaticity/HDR metadata is not implemented; supply 8-bit sRGB with only an sRGB tag or no color tags",
            );
        } else if kind == 0x6558_4966 {
            if exif.is_some() {
                return refuse(ErrorCode::UnsupportedMetadata, "PNG carries more than one eXIf chunk");
            }
            match read(&bytes[data_start..end - 4]) {
                Ok(found) => exif = Some(found),
                Err(e) => return Err(e),
            }
        } else if kind == 0x6163_544c {
            return refuse(ErrorCode::UnsupportedFormat, "animated PNG is not implemented");
        } else if kind == 0x4945_4e44 {
            if data_len != 0 || end != bytes.len() {
                return malformed("invalid PNG ending");
            }
            return Ok((declared, exif));
        }
        offset = end;
    }
    malformed("PNG has no IEND")
}

/// The first position at or after `at` that does not hold a `0xff` fill byte (or the end).
pub open spec fn skip_fill(bytes: Seq<u8>, at: nat) -> nat
    decreases bytes.len() - at,
{
    if at < bytes.len() && bytes[at as int] == 0xff {
        skip_fill(bytes, at + 1)
    } else {
        at
    }
}

pub proof fn lemma_skip_fill(bytes: Seq<u8>, at: nat)
    ensures
        skip_fill(bytes, at) >= at,
        at < bytes.len() && bytes[at as int] == 0xff ==> skip_fill(bytes, at) > at,
        skip_fill(bytes, at) < bytes.len() ==> bytes[skip_fill(bytes, at) as int] != 0xff,
        at <= bytes.len() ==> skip_fill(bytes, at) <= bytes.len(),
        forall|i: int| at <= i < skip_fill(bytes, at) ==> bytes[i] == 0xff,
    decreases bytes.len() - at,
{
    if at < bytes.len() && bytes[at as int] == 0xff {
        lemma_skip_fill(bytes, at + 1);
    }
}

/// Where entropy-coded scan data starting at `at` ends: at the first marker that is neither
/// a stuffed zero nor a restart marker (at the start of its fill bytes), or at the end of the
/// data; `None` when the data ends inside fill bytes.
pub open spec fn entropy_end(bytes: Seq<u8>, at: nat) -> Option<nat>
    decreases bytes.len() - at,
{
    if at >= bytes.len() {
        Some(at)
    } else if bytes[at as int] != 0xff {
        entropy_end(bytes, at + 1)
    } else {
        let after = skip_fill(bytes, at);
        proof {
            lemma_skip_fill(bytes, at);
        }
        if after >= bytes.len() {
            None
        } else if bytes[after as int] == 0 || (0xd0 <= bytes[after as int] <= 0xd7) {
            entropy_end(bytes, after + 1)
        } else {
            Some(at)
        }
    }
}

pub proof fn lemma_entropy_end(bytes: Seq<u8>, at: nat)
    ensures
        entropy_end(bytes, at) matches Some(p) ==> p >= at && (at <= bytes.len() ==> p <= bytes.len()),
    decreases bytes.len() - at,
{
    if at < bytes.len() {
        if bytes[at as int] != 0xff {
            lemma_entropy_end(bytes, at + 1);
        } else {
            lemma_skip_fill(bytes, at);
            let after = skip_fill(bytes, at);
            if after < bytes.len() {
                lemma_entropy_end(bytes, after + 1);
            }
        }
    }
}

/// Start-of-frame markers (baseline, extended, progressive, lossless, hierarchical, arithmetic).
pub open spec fn frame_marker(m: u8) -> bool {
    m == 0xc0 || m == 0xc1 || m == 0xc2 || m == 0xc3 || m == 0xc5 || m == 0xc6 || m == 0xc7 || m
        == 0xc9 || m == 0xca || m == 0xcb || m == 0xcd || m == 0xce || m == 0xcf
}

pub open spec fn starts_with(data: Seq<u8>, prefix: Seq<u8>) -> bool {
    data.len() >= prefix.len() && data.take(prefix.len() as int) == prefix
}

/// `Exif\0\0`.
pub open spec fn exif_signature() -> Seq<u8> {
    seq![0x45u8, 0x78, 0x69, 0x66, 0, 0]
}

/// `ICC_PROFILE\0`.
pub open spec fn icc_signature() -> Seq<u8> {
    seq![0x49u8, 0x43, 0x43, 0x5f, 0x50, 0x52, 0x4f, 0x46, 0x49, 0x4c, 0x45, 0]
}

/// The outcome of checking JPEG segments from `offset` on (after the 2-byte SOI). Every
/// segment starts with fill bytes and a marker; EOI must follow a frame and a scan and end
/// the data; other segments carry a length of at least 2 that stays in the data. At most
/// one EXIF application segment, which must read as EXIF, gives the orientation; ICC
/// segments are refused; frames must be baseline, extended or progressive, 8-bit, with 1 or
/// 3 components; a scan needs a frame and is followed by entropy data. The result is what
/// the EXIF block read as.
pub open spec fn jpeg_from(bytes: Seq<u8>, offset: nat, frame: bool, scan: bool, exif: Option<(nat, bool)>) -> Result<
    Option<(nat, bool)>,
    ErrorCode,
>
    decreases bytes.len() - offset,
{
    if offset >= bytes.len() || bytes[offset as int] != 0xff {
        Err(ErrorCode::DecodeFailed)
    } else {
        let m = skip_fill(bytes, offset);
        proof {
            lemma_skip_fill(bytes, offset);
        }
        if m >= bytes.len() {
            Err(ErrorCode::DecodeFailed)
        } else {
            let marker = bytes[m as int];
            let o = m + 1;
            if marker == 0xd9 {
                if frame && scan && o == bytes.len() {
                    Ok(exif)
                } else {
                    Err(ErrorCode::DecodeFailed)
                }
            } else if o + 2 > bytes.len() {
                Err(ErrorCode::DecodeFailed)
            } else {
                let length = be16(bytes, o as int);
                if length < 2 || o + length > bytes.len() {
                    Err(ErrorCode::DecodeFailed)
                } else {
                    let data = bytes.subrange((o + 2) as int, (o + length) as int);
                    if marker == 0xe1 && starts_with(data, exif_signature()) {
                        if exif is Some {
                            Err(ErrorCode::UnsupportedMetadata)
                        } else {
                            match exif_outcome(data.skip(6)) {
                                Err(c) => Err(c),
                                Ok(x) => jpeg_from(bytes, o + length, frame, scan, Some(x)),
                            }
                        }
                    } else if marker == 0xe2 && starts_with(data, icc_signature()) {
                        Err(ErrorCode::UnsupportedColor)
                    } else if frame_marker(marker) && data.len() < 6 {
                        Err(ErrorCode::DecodeFailed)
                    } else if frame_marker(marker) && (!(marker == 0xc0 || marker == 0xc1 || marker
                        == 0xc2) || data[0] != 8 || !(data[5] == 1 || data[5] == 3)) {
                        Err(ErrorCode::UnsupportedColor)
                    } else {
                        let frame2 = frame || frame_marker(marker);
                        let next = o + length;
                        if marker == 0xda && !frame2 {
                            Err(ErrorCode::DecodeFailed)
                        } else if marker == 0xda {
                            proof {
                                lemma_entropy_end(bytes, next);
                            }
                            match entropy_end(bytes, next) {
                                None => Err(ErrorCode::DecodeFailed),
                                Some(p) => jpeg_from(bytes, p, frame2, true, exif),
                            }
                        } else {
                            jpeg_from(bytes, next, frame2, scan, exif)
                        }
                    }
                }
            }
        }
    }
}

fn skip_fill_bytes(bytes: &[u8], at: usize) -> (r: usize)
    requires
        at <= bytes@.len(),
    ensures
        r == skip_fill(bytes@, at as nat),
{
    let mut i = at;
    while i < bytes.len() && bytes[i] == 0xff
        invariant
            at <= i <= bytes@.len(),
            skip_fill(bytes@, at as nat) == skip_fill(bytes@, i as nat),
        decreases bytes@.len() - i,
    {
        i += 1;
    }
    i
}

fn entropy_end_of(bytes: &[u8], at: usize) -> (r: Option<usize>)
    requires
        at <= bytes@.len(),
    ensures
        match entropy_end(bytes@, at as nat) {
            Some(p) => r == Some(p as usize),
            None => r is None,
        },
{
    let mut offset = at;
    while offset < bytes.len()
        invariant
            offset <= bytes@.len(),
            entropy_end(bytes@, at as nat) == entropy_end(bytes@, offset as nat),
        decreases bytes@.len() - offset,
    {
        if bytes[offset] != 0xff {
            offset += 1;
        } else {
            let after = skip_fill_bytes(bytes, offset);
            proof {
                lemma_skip_fill(bytes@, offset as nat);
            }
            if after >= bytes.len() {
                return None;
            }
            let next = bytes[after];
            if next == 0 || (0xd0 <= next && next <= 0xd7) {
                offset = after + 1;
            } else {
                return Some(offset);
            }
        }
    }
    Some(offset)
}

fn has_prefix(data: &[u8], start: usize, end: usize, prefix: &[u8]) -> (r: bool)
    requires
        start <= end <= data@.len(),
    ensures
        r == starts_with(data@.subrange(start as int, end as int), prefix@),
{
    if end - start < prefix.len() {
        return false;
    }
    let mut i: usize = 0;
    while i < prefix.len()
        invariant
            start <= end <= data@.len(),
            end - start >= prefix@.len(),
            i <= prefix@.len(),
            forall|j: int| 0 <= j < i ==> data@[start + j] == prefix@[j],
        decreases prefix@.len() - i,
    {
        if data[start + i] != prefix[i] {
            assert(data@.subrange(start as int, end as int).take(prefix@.len() as int)[i as int] != prefix@[i as int]);
            return false;
        }
        i += 1;
    }
    assert(data@.subrange(start as int, end as int).take(prefix@.len() as int) =~= prefix@);
    true
}

fn is_frame_marker(m: u8) -> (r: bool)
    ensures
        r == frame_marker(m),
{
    m == 0xc0 || m == 0xc1 || m == 0xc2 || m == 0xc3 || m == 0xc5 || m == 0xc6 || m == 0xc7 || m
        == 0xc9 || m == 0xca || m == 0xcb || m == 0xcd || m == 0xce || m == 0xcf
}

/// Check a JPEG's segments after its start-of-image marker, and report what its EXIF
/// block, if any, reads as.
pub fn jpeg(bytes: &[u8]) -> (r: Result<Option<(u8, bool)>, PicError>)
    ensures
        match r {
            Ok(exif) => jpeg_from(bytes@, 2, false, false, None) == Ok::<Option<(nat, bool)>, ErrorCode>(
                exif_view(exif),
            ),
            Err(e) => jpeg_from(bytes@, 2, false, false, None) == Err::<Option<(nat, bool)>, ErrorCode>(
                e.code,
            ),
        },
{
    let exif = [0x45u8, 0x78, 0x69, 0x66, 0, 0];
    let icc = [0x49u8, 0x43, 0x43, 0x5f, 0x50, 0x52, 0x4f, 0x46, 0x49, 0x4c, 0x45, 0];
    assert(exif@ =~= exif_signature());
    assert(icc@ =~= icc_signature());
    let mut offset: usize = 2;
    let mut frame = false;
    let mut scan = false;
    let mut found: Option<(u8, bool)> = None;
    while offset < bytes.len()
        invariant
            exif@ == exif_signature(),
            icc@ == icc_signature(),
            jpeg_from(bytes@, 2, false, false, None) == jpeg_from(
                bytes@,
                offset as nat,
                frame,
                scan,
                exif_view(found),
            ),
        decreases bytes@.len() - offset,
    {
        if bytes[offset] != 0xff {
            return malformed("invalid JPEG marker");
        }
        let m = skip_fill_bytes(bytes, offset);
        proof {
            lemma_skip_fill(bytes@, offset as nat);
        }
        if m >= bytes.len() {
            return malformed("truncated JPEG marker");
        }
        let marker = bytes[m];
        let o = m + 1;
        if marker == 0xd9 {
            if frame && scan && o == bytes.len() {
                return Ok(found);
            }
            return malformed("invalid JPEG ending");
        }
        if bytes.len() - o < 2 {
            return malformed("truncated JPEG segment");
        }
        let length = read_be16(bytes, o) as usize;
        if length < 2 || bytes.len() - o < length {
            return malformed("truncated JPEG segment data");
        }
        let data_start = o + 2;
        let data_end = o + length;
        if marker == 0xe1 && has_prefix(bytes, data_start, data_end, &exif) {
            if found.is_some() {
                return refuse(ErrorCode::UnsupportedMetadata, "JPEG carries more than one EXIF segment");
            }
            assert(bytes@.subrange(data_start + 6, data_end as int) =~= bytes@.subrange(
                data_start as int,
                data_end as int,
            ).skip(6));
            match read(&bytes[data_start + 6..data_end]) {
                Ok(x) => found = Some(x),
                Err(e) => return Err(e),
            }
            offset = data_end;
            continue;
        }
        if marker == 0xe2 && has_prefix(bytes, data_start, data_end, &icc) {
            return refuse(
                ErrorCode::UnsupportedColor,
                "ICC profiles are not implemented; supply untagged 8-bit sRGB JPEG",
            );
        }
        let is_frame = is_frame_marker(marker);
        if is_frame {
            if data_end - data_start < 6 {
                return malformed("truncated JPEG frame header");
            }
            let precision = bytes[data_start];
            let components = bytes[data_start + 5];
            if !(marker == 0xc0 || marker == 0xc1 || marker == 0xc2) || precision != 8 || !(
            components == 1 || components == 3) {
                return refuse(
                    ErrorCode::UnsupportedColor,
                    "JPEG requires 8-bit grayscale/RGB/YCbCr; CMYK and other coding modes are not implemented",
                );
            }
            frame = true;
        }
        if marker == 0xda {
            if !frame {
                return malformed("JPEG scan has no frame header");
            }
            scan = true;
        }
        offset = data_end;
        if marker == 0xda {
            proof {
                lemma_entropy_end(bytes@, offset as nat);
            }
            match entropy_end_of(bytes, offset) {
                Some(p) => offset = p,
                None => return malformed("truncated JPEG scan"),
            }
        }
    }
    malformed("JPEG has no end-of-image marker")
}

} // verus!
