//! Primary-image orientation and color declarations from classic TIFF EXIF. Other EXIF data is
//! not retained on pixel export; malformed or ambiguous orientation is refused instead of being
//! silently treated as orientation 1.
use crate::error::{ErrorCode, PicError};
use vstd::prelude::*;

verus! {

fn invalid<T>() -> (r: Result<T, PicError>)
    ensures
        r matches Err(e) && e.code == ErrorCode::UnsupportedMetadata,
{
    Err(PicError::new(
        ErrorCode::UnsupportedMetadata,
        "malformed or ambiguous EXIF; supply valid classic TIFF metadata",
    ))
}

/// The 16-bit value at `at`, in the file's byte order, if it lies inside the data.
pub open spec fn u16_at(b: Seq<u8>, little: bool, at: int) -> Option<nat> {
    if 0 <= at && at + 2 <= b.len() {
        if little {
            Some((b[at] as nat) + (b[at + 1] as nat) * 0x100)
        } else {
            Some((b[at] as nat) * 0x100 + b[at + 1] as nat)
        }
    } else {
        None
    }
}

/// The 32-bit value at `at`, in the file's byte order, if it lies inside the data.
pub open spec fn u32_at(b: Seq<u8>, little: bool, at: int) -> Option<nat> {
    if 0 <= at && at + 4 <= b.len() {
        if little {
            Some((b[at] as nat) + (b[at + 1] as nat) * 0x100 + (b[at + 2] as nat) * 0x1_0000 + (b[at
                + 3] as nat) * 0x100_0000)
        } else {
            Some((b[at] as nat) * 0x100_0000 + (b[at + 1] as nat) * 0x1_0000 + (b[at + 2] as nat)
                * 0x100 + b[at + 3] as nat)
        }
    } else {
        None
    }
}

/// Bytes per value of a TIFF field type, for the types that TIFF 6 defines.
pub open spec fn type_size(t: nat) -> Option<nat> {
    if t == 1 || t == 2 || t == 6 || t == 7 {
        Some(1)
    } else if t == 3 || t == 8 {
        Some(2)
    } else if t == 4 || t == 9 || t == 11 || t == 13 {
        Some(4)
    } else if t == 5 || t == 10 || t == 12 {
        Some(8)
    } else {
        None
    }
}

/// An entry has a known type, and values longer than four bytes lie inside the data.
pub open spec fn entry_ok(b: Seq<u8>, little: bool, e: int) -> bool {
    match (u16_at(b, little, e + 2), u32_at(b, little, e + 4)) {
        (Some(t), Some(count)) => match type_size(t) {
            Some(size) => count * size <= usize::MAX && (count * size > 4 ==> match u32_at(
                b,
                little,
                e + 8,
            ) {
                Some(off) => off + count * size <= b.len(),
                None => false,
            }),
            None => false,
        },
        _ => false,
    }
}

/// The single value of an entry of type `kind` (3 = SHORT, 4 = LONG) and count 1.
pub open spec fn scalar(b: Seq<u8>, little: bool, e: int, kind: nat) -> Option<nat> {
    if u16_at(b, little, e + 2) == Some(kind) && u32_at(b, little, e + 4) == Some(1nat) {
        if kind == 3 {
            u16_at(b, little, e + 8)
        } else {
            u32_at(b, little, e + 8)
        }
    } else {
        None
    }
}

/// The entry count of the directory at `off`, if the whole directory lies inside the data
/// after the 8-byte header.
pub open spec fn ifd(b: Seq<u8>, little: bool, off: nat) -> Option<nat> {
    if off < 8 {
        None
    } else {
        match u16_at(b, little, off as int) {
            Some(count) => if off + 2 + count * 12 + 4 <= b.len() {
                Some(count)
            } else {
                None
            },
            None => None,
        }
    }
}

/// Tags that declare transfer functions, chromaticities, ICC profiles or gamma.
pub open spec fn conversion_tag(tag: nat) -> bool {
    tag == 0x012d || tag == 0x013e || tag == 0x013f || tag == 0x8773 || tag == 0xa500
}

/// The color-space declaration after entry `e` with tag `tag`: only one, and only sRGB (1);
/// color conversions are refused.
pub open spec fn color_step(b: Seq<u8>, little: bool, e: int, tag: nat, color: Option<nat>) -> Result<
    Option<nat>,
    ErrorCode,
> {
    if tag == 0xa001 {
        if color is Some {
            Err(ErrorCode::UnsupportedMetadata)
        } else {
            match scalar(b, little, e, 3) {
                None => Err(ErrorCode::UnsupportedMetadata),
                Some(v) => if v != 1 {
                    Err(ErrorCode::UnsupportedColor)
                } else {
                    Ok(Some(v))
                },
            }
        }
    } else if conversion_tag(tag) {
        Err(ErrorCode::UnsupportedColor)
    } else {
        Ok(color)
    }
}

/// Orientation, color space and EXIF directory found in the primary directory.
pub struct Found {
    pub orientation: Option<nat>,
    pub color: Option<nat>,
    pub exif: Option<nat>,
}

/// Scan entries `i..count` of the primary directory at `off`.
pub open spec fn primary_scan(b: Seq<u8>, little: bool, off: nat, count: nat, i: nat, st: Found) -> Result<
    Found,
    ErrorCode,
>
    decreases count - i,
{
    if i >= count {
        Ok(st)
    } else {
        let e = (off + 2 + 12 * i) as int;
        if !entry_ok(b, little, e) {
            Err(ErrorCode::UnsupportedMetadata)
        } else {
            match u16_at(b, little, e) {
                None => Err(ErrorCode::UnsupportedMetadata),
                Some(tag) => if tag == 0x0112 {
                    match scalar(b, little, e, 3) {
                        None => Err(ErrorCode::UnsupportedMetadata),
                        Some(v) => if st.orientation is Some || !(1 <= v <= 8) {
                            Err(ErrorCode::UnsupportedMetadata)
                        } else {
                            primary_scan(b, little, off, count, i + 1, Found { orientation: Some(v), ..st })
                        },
                    }
                } else if tag == 0x8769 {
                    if st.exif is Some {
                        Err(ErrorCode::UnsupportedMetadata)
                    } else {
                        match scalar(b, little, e, 4) {
                            None => Err(ErrorCode::UnsupportedMetadata),
                            Some(v) => primary_scan(b, little, off, count, i + 1, Found { exif: Some(v), ..st }),
                        }
                    }
                } else {
                    match color_step(b, little, e, tag, st.color) {
                        Err(c) => Err(c),
                        Ok(color) => primary_scan(b, little, off, count, i + 1, Found { color, ..st }),
                    }
                },
            }
        }
    }
}

/// Scan entries `i..count` of the EXIF directory at `off` for color declarations.
pub open spec fn exif_scan(b: Seq<u8>, little: bool, off: nat, count: nat, i: nat, color: Option<nat>) -> Result<
    Option<nat>,
    ErrorCode,
>
    decreases count - i,
{
    if i >= count {
        Ok(color)
    } else {
        let e = (off + 2 + 12 * i) as int;
        if !entry_ok(b, little, e) {
            Err(ErrorCode::UnsupportedMetadata)
        } else {
            match u16_at(b, little, e) {
                None => Err(ErrorCode::UnsupportedMetadata),
                Some(tag) => match color_step(b, little, e, tag, color) {
                    Err(c) => Err(c),
                    Ok(color) => exif_scan(b, little, off, count, i + 1, color),
                },
            }
        }
    }
}

/// `II*\\0` (little-endian) or `MM\\0*` (big-endian).
pub open spec fn byte_order(b: Seq<u8>) -> Option<bool> {
    if b.len() >= 4 && b[0] == 0x49 && b[1] == 0x49 && b[2] == 0x2a && b[3] == 0 {
        Some(true)
    } else if b.len() >= 4 && b[0] == 0x4d && b[1] == 0x4d && b[2] == 0 && b[3] == 0x2a {
        Some(false)
    } else {
        None
    }
}

/// What a classic TIFF EXIF block declares: its orientation (1 when absent) and whether
/// it declares sRGB, or the refusal. The primary directory may hold one orientation and one
/// EXIF directory pointer; that directory (not the primary one again) may hold one sRGB
/// color-space declaration; every entry read must be well-formed.
pub open spec fn exif_outcome(b: Seq<u8>) -> Result<(nat, bool), ErrorCode> {
    match byte_order(b) {
        None => Err(ErrorCode::UnsupportedMetadata),
        Some(little) => match u32_at(b, little, 4) {
            None => Err(ErrorCode::UnsupportedMetadata),
            Some(first) => match ifd(b, little, first) {
                None => Err(ErrorCode::UnsupportedMetadata),
                Some(count) => match primary_scan(
                    b,
                    little,
                    first,
                    count,
                    0,
                    Found { orientation: None, color: None, exif: None },
                ) {
                    Err(c) => Err(c),
                    Ok(st) => {
                        let orientation = match st.orientation {
                            Some(o) => o,
                            None => 1,
                        };
                        match st.exif {
                            None => Ok((orientation, st.color == Some(1nat))),
                            Some(x) => if x == first {
                                Err(ErrorCode::UnsupportedMetadata)
                            } else {
                                match ifd(b, little, x) {
                                    None => Err(ErrorCode::UnsupportedMetadata),
                                    Some(c2) => match exif_scan(b, little, x, c2, 0, st.color) {
                                        Err(c) => Err(c),
                                        Ok(color) => Ok((orientation, color == Some(1nat))),
                                    },
                                }
                            },
                        }
                    },
                },
            },
        },
    }
}

struct Tiff<'a> {
    bytes: &'a [u8],
    little: bool,
}

impl<'a> Tiff<'a> {
    /// Whether `length` bytes from `offset` lie inside the data.
    fn slice(&self, offset: usize, length: usize) -> (r: Result<(), PicError>)
        ensures
            r is Ok <==> offset + length <= self.bytes@.len(),
            r matches Err(e) ==> e.code == ErrorCode::UnsupportedMetadata,
    {
        if offset > self.bytes.len() || self.bytes.len() - offset < length {
            return invalid();
        }
        Ok(())
    }

    fn short(&self, offset: usize) -> (r: Result<u16, PicError>)
        ensures
            match u16_at(self.bytes@, self.little, offset as int) {
                Some(v) => r == Ok::<u16, PicError>(v as u16) && v <= u16::MAX,
                None => r matches Err(e) && e.code == ErrorCode::UnsupportedMetadata,
            },
    {
        self.slice(offset, 2)?;
        let (a, b) = (self.bytes[offset] as u16, self.bytes[offset + 1] as u16);
        Ok(if self.little { a + b * 0x100 } else { a * 0x100 + b })
    }

    fn long(&self, offset: usize) -> (r: Result<u32, PicError>)
        ensures
            match u32_at(self.bytes@, self.little, offset as int) {
                Some(v) => r == Ok::<u32, PicError>(v as u32) && v <= u32::MAX,
                None => r matches Err(e) && e.code == ErrorCode::UnsupportedMetadata,
            },
    {
        self.slice(offset, 4)?;
        let (a, b, c, d) = (
            self.bytes[offset] as u32,
            self.bytes[offset + 1] as u32,
            self.bytes[offset + 2] as u32,
            self.bytes[offset + 3] as u32,
        );
        Ok(
            if self.little {
                a + b * 0x100 + c * 0x1_0000 + d * 0x100_0000
            } else {
                a * 0x100_0000 + b * 0x1_0000 + c * 0x100 + d
            },
        )
    }

    /// The entry count of the directory at `offset`.
    fn ifd(&self, offset: usize) -> (r: Result<usize, PicError>)
        ensures
            match ifd(self.bytes@, self.little, offset as nat) {
                Some(c) => r == Ok::<usize, PicError>(c as usize) && offset + 2 + c * 12 + 4 <= self.bytes@.len(),
                None => r matches Err(e) && e.code == ErrorCode::UnsupportedMetadata,
            },
    {
        if offset < 8 {
            return invalid();
        }
        let count = self.short(offset)? as usize;
        if self.bytes.len() - offset < 2 + count * 12 + 4 {
            return invalid();
        }
        Ok(count)
    }

    fn validate_entry(&self, entry: usize) -> (r: Result<(), PicError>)
        requires
            entry + 12 <= self.bytes@.len(),
        ensures
            r is Ok <==> entry_ok(self.bytes@, self.little, entry as int),
            r matches Err(e) ==> e.code == ErrorCode::UnsupportedMetadata,
    {
        let _n = self.bytes.len();
        let t = self.short(entry + 2)?;
        let size: usize = if t == 1 || t == 2 || t == 6 || t == 7 {
            1
        } else if t == 3 || t == 8 {
            2
        } else if t == 4 || t == 9 || t == 11 || t == 13 {
            4
        } else if t == 5 || t == 10 || t == 12 {
            8
        } else {
            return invalid();
        };
        let count = self.long(entry + 4)? as usize;
        let length = match count.checked_mul(size) {
            Some(length) => length,
            None => return invalid(),
        };
        if length > 4 {
            let offset = self.long(entry + 8)? as usize;
            self.slice(offset, length)?;
        }
        Ok(())
    }

    fn scalar(&self, entry: usize, kind: u16) -> (r: Result<u32, PicError>)
        requires
            kind == 3 || kind == 4,
            entry + 12 <= self.bytes@.len(),
        ensures
            match scalar(self.bytes@, self.little, entry as int, kind as nat) {
                Some(v) => r == Ok::<u32, PicError>(v as u32) && v <= u32::MAX,
                None => r matches Err(e) && e.code == ErrorCode::UnsupportedMetadata,
            },
    {
        let _n = self.bytes.len();
        if self.short(entry + 2)? != kind || self.long(entry + 4)? != 1 {
            return invalid();
        }
        if kind == 3 {
            Ok(self.short(entry + 8)? as u32)
        } else {
            self.long(entry + 8)
        }
    }
}

fn check_color(tiff: &Tiff, entry: usize, tag: u16, color_space: &mut Option<u32>) -> (r: Result<
    (),
    PicError,
>)
    requires
        entry + 12 <= tiff.bytes@.len(),
    ensures
        match color_step(
            tiff.bytes@,
            tiff.little,
            entry as int,
            tag as nat,
            match *old(color_space) {
                Some(c) => Some(c as nat),
                None => None,
            },
        ) {
            Ok(c) => r is Ok && c == match *final(color_space) {
                Some(c) => Some(c as nat),
                None => None::<nat>,
            },
            Err(code) => r matches Err(e) && e.code == code,
        },
{
    if tag == 0xa001 {
        if color_space.is_some() {
            return invalid();
        }
        let value = tiff.scalar(entry, 3)?;
        if value != 1 {
            return Err(PicError::new(
                ErrorCode::UnsupportedColor,
                "EXIF declares unsupported or uncalibrated color space; only sRGB (1) is supported",
            ));
        }
        *color_space = Some(value);
    } else if tag == 0x012d || tag == 0x013e || tag == 0x013f || tag == 0x8773 || tag == 0xa500 {
        return Err(PicError::new(
            ErrorCode::UnsupportedColor,
            "EXIF transfer function, chromaticity, ICC or gamma conversion is not implemented",
        ));
    }
    Ok(())
}

pub open spec fn opt_nat(o: Option<u32>) -> Option<nat> {
    match o {
        Some(v) => Some(v as nat),
        None => None,
    }
}

/// Read the orientation (1..=8, 1 when absent) and whether sRGB is declared.
pub fn read(bytes: &[u8]) -> (r: Result<(u8, bool), PicError>)
    ensures
        match r {
            Ok((o, srgb)) => exif_outcome(bytes@) == Ok::<(nat, bool), ErrorCode>((o as nat, srgb)),
            Err(e) => exif_outcome(bytes@) == Err::<(nat, bool), ErrorCode>(e.code),
        },
{
    if bytes.len() < 4 {
        return invalid();
    }
    let little = if bytes[0] == 0x49 && bytes[1] == 0x49 && bytes[2] == 0x2a && bytes[3] == 0 {
        true
    } else if bytes[0] == 0x4d && bytes[1] == 0x4d && bytes[2] == 0 && bytes[3] == 0x2a {
        false
    } else {
        return invalid();
    };
    let tiff = Tiff { bytes, little };
    let first = tiff.long(4)? as usize;
    let count = tiff.ifd(first)?;
    let ghost b = bytes@;
    let n = bytes.len();
    assert(b.len() == n);
    let mut orientation: Option<u32> = None;
    let mut color_space: Option<u32> = None;
    let mut exif_ifd: Option<u32> = None;
    let mut i: usize = 0;
    while i < count
        invariant
            tiff.bytes@ == b,
            b == bytes@,
            tiff.little == little,
            b.len() == n,
            byte_order(b) == Some(little),
            u32_at(b, little, 4) == Some(first as nat),
            ifd(b, little, first as nat) == Some(count as nat),
            first + 2 + count * 12 + 4 <= b.len(),
            i <= count,
            orientation matches Some(v) ==> 1 <= v <= 8,
            primary_scan(b, little, first as nat, count as nat, 0, Found { orientation: None, color: None, exif: None })
                == primary_scan(
                b,
                little,
                first as nat,
                count as nat,
                i as nat,
                found(orientation, color_space, exif_ifd),
            ),
        decreases count - i,
    {
        let (o, c, x) = match primary_step(&tiff, first, count, i, orientation, color_space, exif_ifd) {
            Ok(step) => step,
            Err(e) => return Err(e),
        };
        orientation = o;
        color_space = c;
        exif_ifd = x;
        i += 1;
    }
    let o: u8 = match orientation {
        Some(v) => v as u8,
        None => 1,
    };
    match exif_ifd {
        None => Ok((o, color_space == Some(1u32))),
        Some(x) => {
            let offset = x as usize;
            if offset == first {
                return invalid();
            }
            let count2 = tiff.ifd(offset)?;
            let ghost start_color = color_space;
            let mut j: usize = 0;
            while j < count2
                invariant
                    tiff.bytes@ == b,
                    b == bytes@,
                    tiff.little == little,
                    b.len() == n,
                    byte_order(b) == Some(little),
                    u32_at(b, little, 4) == Some(first as nat),
                    ifd(b, little, first as nat) == Some(count as nat),
                    primary_scan(b, little, first as nat, count as nat, 0, Found { orientation: None, color: None, exif: None })
                        == Ok::<Found, ErrorCode>(found(orientation, start_color, exif_ifd)),
                    exif_ifd == Some(x),
                    offset == x as usize,
                    offset != first,
                    o as nat == match orientation { Some(v) => v as nat, None => 1 },
                    ifd(b, little, offset as nat) == Some(count2 as nat),
                    offset + 2 + count2 * 12 + 4 <= b.len(),
                    j <= count2,
                    exif_scan(b, little, offset as nat, count2 as nat, 0, opt_nat(start_color))
                        == exif_scan(b, little, offset as nat, count2 as nat, j as nat, opt_nat(color_space)),
                decreases count2 - j,
            {
                color_space = exif_step(&tiff, offset, count2, j, color_space)?;
                j += 1;
            }
            Ok((o, color_space == Some(1u32)))
        },
    }
}

pub open spec fn found(orientation: Option<u32>, color: Option<u32>, exif: Option<u32>) -> Found {
    Found { orientation: opt_nat(orientation), color: opt_nat(color), exif: opt_nat(exif) }
}

/// One entry of the primary directory.
fn primary_step(
    tiff: &Tiff,
    first: usize,
    count: usize,
    i: usize,
    orientation: Option<u32>,
    color_space: Option<u32>,
    exif_ifd: Option<u32>,
) -> (r: Result<(Option<u32>, Option<u32>, Option<u32>), PicError>)
    requires
        first + 2 + count * 12 + 4 <= tiff.bytes@.len(),
        i < count,
        orientation matches Some(v) ==> 1 <= v <= 8,
    ensures
        match r {
            Ok((o, c, x)) => primary_scan(tiff.bytes@, tiff.little, first as nat, count as nat, i as nat, found(orientation, color_space, exif_ifd))
                == primary_scan(tiff.bytes@, tiff.little, first as nat, count as nat, (i + 1) as nat, found(o, c, x))
                && (o matches Some(v) ==> 1 <= v <= 8),
            Err(e) => primary_scan(tiff.bytes@, tiff.little, first as nat, count as nat, i as nat, found(orientation, color_space, exif_ifd))
                == Err::<Found, ErrorCode>(e.code),
        },
{
    let _n = tiff.bytes.len();
    let entry = first + 2 + i * 12;
    tiff.validate_entry(entry)?;
    let tag = tiff.short(entry)?;
    let mut orientation = orientation;
    let mut color_space = color_space;
    let mut exif_ifd = exif_ifd;
    if tag == 0x0112 {
        let value = tiff.scalar(entry, 3)?;
        if orientation.is_some() || !(1 <= value && value <= 8) {
            return invalid();
        }
        orientation = Some(value);
    } else if tag == 0x8769 {
        if exif_ifd.is_some() {
            return invalid();
        }
        exif_ifd = Some(tiff.scalar(entry, 4)?);
    } else {
        check_color(tiff, entry, tag, &mut color_space)?;
    }
    Ok((orientation, color_space, exif_ifd))
}

/// One entry of the EXIF directory.
fn exif_step(tiff: &Tiff, offset: usize, count: usize, j: usize, color_space: Option<u32>) -> (r: Result<
    Option<u32>,
    PicError,
>)
    requires
        offset + 2 + count * 12 + 4 <= tiff.bytes@.len(),
        j < count,
    ensures
        match r {
            Ok(c) => exif_scan(tiff.bytes@, tiff.little, offset as nat, count as nat, j as nat, opt_nat(color_space))
                == exif_scan(tiff.bytes@, tiff.little, offset as nat, count as nat, (j + 1) as nat, opt_nat(c)),
            Err(e) => exif_scan(tiff.bytes@, tiff.little, offset as nat, count as nat, j as nat, opt_nat(color_space))
                == Err::<Option<nat>, ErrorCode>(e.code),
        },
{
    let _n = tiff.bytes.len();
    let entry = offset + 2 + j * 12;
    tiff.validate_entry(entry)?;
    let tag = tiff.short(entry)?;
    let mut color_space = color_space;
    check_color(tiff, entry, tag, &mut color_space)?;
    Ok(color_space)
}

} // verus!
