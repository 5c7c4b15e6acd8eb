//! Geometry v1 parameters and the exact, sample-preserving geometry on row-major grids.
use crate::error::{ErrorCode, PicError};
use crate::text::text_eq;
use vstd::prelude::*;
use vstd::string::*;

verus! {

fn invalid<T>(message: &str) -> (r: Result<T, PicError>)
    ensures
        r matches Err(e) && e.code == ErrorCode::InvalidArgument,
{
    Err(PicError::new(ErrorCode::InvalidArgument, message))
}

/// An 8-bit sRGB color with straight alpha.
#[derive(Debug, Clone, Copy, PartialEq, Eq)]
pub struct RgbaColor(pub [u8; 4]);

/// The value of a hexadecimal digit, either case.
pub open spec fn hex_value(c: char) -> Option<nat> {
    if '0' <= c <= '9' {
        Some((c as nat - '0' as nat) as nat)
    } else if 'a' <= c <= 'f' {
        Some((c as nat - 'a' as nat + 10) as nat)
    } else if 'A' <= c <= 'F' {
        Some((c as nat - 'A' as nat + 10) as nat)
    } else {
        None
    }
}

/// `#RRGGBB` (opaque) or `#RRGGBBAA`, hex digits in either case.
pub open spec fn color_text(text: Seq<char>) -> Option<[u8; 4]> {
    if (text.len() == 7 || text.len() == 9) && text[0] == '#' && forall|i: int|
        1 <= i < text.len() ==> hex_value(#[trigger] text[i]) is Some {
        let byte = |k: int| (hex_value(text[1 + 2 * k])->Some_0 * 16 + hex_value(text[2 + 2 * k])->Some_0) as u8;
        Some([byte(0), byte(1), byte(2), if text.len() == 9 { byte(3) } else { 255u8 }])
    } else {
        None
    }
}

fn hex_digit(c: char) -> (r: Option<u8>)
    ensures
        match hex_value(c) {
            Some(v) => r == Some(v as u8),
            None => r is None,
        },
{
    if '0' <= c && c <= '9' {
        Some((c as u32 - '0' as u32) as u8)
    } else if 'a' <= c && c <= 'f' {
        Some((c as u32 - 'a' as u32 + 10) as u8)
    } else if 'A' <= c && c <= 'F' {
        Some((c as u32 - 'A' as u32 + 10) as u8)
    } else {
        None
    }
}

impl RgbaColor {
    /// Parse `#RRGGBB` or `#RRGGBBAA`.
    pub fn parse(value: &str) -> (r: Result<RgbaColor, PicError>)
        ensures
            match r {
                Ok(c) => color_text(value@) == Some(c.0),
                Err(e) => color_text(value@) is None && e.code == ErrorCode::InvalidArgument,
            },
    {
        let n = value.unicode_len();
        if !(n == 7 || n == 9) || value.get_char(0) != '#' {
            return invalid("color requires #RRGGBB or #RRGGBBAA");
        }
        let mut channels: [u8; 4] = [255, 255, 255, 255];
        let mut k: usize = 0;
        while k < (n - 1) / 2
            invariant
                n == value@.len(),
                n == 7 || n == 9,
                value@[0] == '#',
                k <= (n - 1) / 2,
                forall|i: int| 1 <= i < 1 + 2 * k ==> hex_value(#[trigger] value@[i]) is Some,
                forall|m: int| 0 <= m < k ==> channels[m] == (hex_value(value@[1 + 2 * m])->Some_0 * 16
                    + hex_value(value@[2 + 2 * m])->Some_0) as u8,
                forall|m: int| k <= m < 4 ==> channels[m] == 255,
            decreases (n - 1) / 2 - k,
        {
            let high = hex_digit(value.get_char(1 + 2 * k));
            let low = hex_digit(value.get_char(2 + 2 * k));
            match (high, low) {
                (Some(h), Some(l)) => {
                    channels[k] = h * 16 + l;
                },
                _ => {
                    return invalid("color requires #RRGGBB or #RRGGBBAA");
                },
            }
            k += 1;
        }
        let color = RgbaColor(channels);
        assert(color_text(value@) == Some(color.0)) by {
            assert(color_text(value@) is Some);
            if n == 7 {
                assert(channels[3] == 255);
            }
            assert(color_text(value@)->Some_0 =~= channels);
        }
        Ok(color)
    }
}

impl std::str::FromStr for RgbaColor {
    type Err = PicError;

    /// As `RgbaColor::parse`.
    fn from_str(value: &str) -> (r: Result<Self, PicError>)
        ensures
            match r {
                Ok(c) => color_text(value@) == Some(c.0),
                Err(e) => color_text(value@) is None && e.code == ErrorCode::InvalidArgument,
            },
    {
        RgbaColor::parse(value)
    }
}

/// Sampling filter for resize, rotation and layer transforms.
#[derive(Debug, Clone, Copy, PartialEq, Eq, Structural)]
pub enum Interpolation {
    Nearest,
    Bilinear,
}

#[derive(Debug, Clone, Copy, PartialEq, Eq, Structural)]
pub enum FlipAxis {
    Horizontal,
    Vertical,
}

/// Where the current image sits on a resized canvas.
#[derive(Debug, Clone, Copy, PartialEq, Eq, Structural)]
pub enum Anchor {
    TopLeft,
    Top,
    TopRight,
    Left,
    Center,
    Right,
    BottomLeft,
    Bottom,
    BottomRight,
}

impl Interpolation {
    /// The wire name: `nearest` or `bilinear`.
    pub fn parse(value: &str) -> (r: Result<Interpolation, PicError>)
        ensures
            match r {
                Ok(Interpolation::Nearest) => value@ == "nearest"@,
                Ok(Interpolation::Bilinear) => value@ == "bilinear"@,
                Err(e) => value@ != "nearest"@ && value@ != "bilinear"@ && e.code
                    == ErrorCode::InvalidArgument,
            },
    {
        if text_eq(value, "nearest") {
            Ok(Interpolation::Nearest)
        } else if text_eq(value, "bilinear") {
            Ok(Interpolation::Bilinear)
        } else {
            invalid("unknown variant; expected `nearest` or `bilinear`")
        }
    }
}

impl FlipAxis {
    /// The wire name: `horizontal` or `vertical`.
    pub fn parse(value: &str) -> (r: Result<FlipAxis, PicError>)
        ensures
            match r {
                Ok(FlipAxis::Horizontal) => value@ == "horizontal"@,
                Ok(FlipAxis::Vertical) => value@ == "vertical"@,
                Err(e) => value@ != "horizontal"@ && value@ != "vertical"@ && e.code
                    == ErrorCode::InvalidArgument,
            },
    {
        if text_eq(value, "horizontal") {
            Ok(FlipAxis::Horizontal)
        } else if text_eq(value, "vertical") {
            Ok(FlipAxis::Vertical)
        } else {
            invalid("unknown variant; expected `horizontal` or `vertical`")
        }
    }
}

/// The snake_case wire name of an anchor.
pub open spec fn anchor_text(a: Anchor) -> Seq<char> {
    match a {
        Anchor::TopLeft => "top_left"@,
        Anchor::Top => "top"@,
        Anchor::TopRight => "top_right"@,
        Anchor::Left => "left"@,
        Anchor::Center => "center"@,
        Anchor::Right => "right"@,
        Anchor::BottomLeft => "bottom_left"@,
        Anchor::Bottom => "bottom"@,
        Anchor::BottomRight => "bottom_right"@,
    }
}

impl Anchor {
    /// The wire name, e.g. `top_left` or `center`.
    pub fn parse(value: &str) -> (r: Result<Anchor, PicError>)
        ensures
            match r {
                Ok(a) => value@ == anchor_text(a),
                Err(e) => (forall|a: Anchor| value@ != anchor_text(a)) && e.code
                    == ErrorCode::InvalidArgument,
            },
    {
        if text_eq(value, "top_left") {
            Ok(Anchor::TopLeft)
        } else if text_eq(value, "top") {
            Ok(Anchor::Top)
        } else if text_eq(value, "top_right") {
            Ok(Anchor::TopRight)
        } else if text_eq(value, "left") {
            Ok(Anchor::Left)
        } else if text_eq(value, "center") {
            Ok(Anchor::Center)
        } else if text_eq(value, "right") {
            Ok(Anchor::Right)
        } else if text_eq(value, "bottom_left") {
            Ok(Anchor::BottomLeft)
        } else if text_eq(value, "bottom") {
            Ok(Anchor::Bottom)
        } else if text_eq(value, "bottom_right") {
            Ok(Anchor::BottomRight)
        } else {
            assert forall|a: Anchor| value@ != anchor_text(a) by {
                match a {
                    Anchor::TopLeft => {},
                    Anchor::Top => {},
                    Anchor::TopRight => {},
                    Anchor::Left => {},
                    Anchor::Center => {},
                    Anchor::Right => {},
                    Anchor::BottomLeft => {},
                    Anchor::Bottom => {},
                    Anchor::BottomRight => {},
                }
            }
            invalid("unknown anchor variant")
        }
    }

    /// Offset of the current image on a canvas that is `dx` wider and `dy` taller
    /// (negative when smaller): start, center (rounded down) or end, per axis.
    pub fn offset(self, dx: i64, dy: i64) -> (r: (i64, i64))
        requires
            -0x1_0000_0000 <= dx <= 0x1_0000_0000,
            -0x1_0000_0000 <= dy <= 0x1_0000_0000,
        ensures
            r.0 == match self {
                Anchor::TopLeft | Anchor::Left | Anchor::BottomLeft => 0,
                Anchor::Top | Anchor::Center | Anchor::Bottom => dx / 2,
                _ => dx as int,
            },
            r.1 == match self {
                Anchor::TopLeft | Anchor::Top | Anchor::TopRight => 0,
                Anchor::Left | Anchor::Center | Anchor::Right => dy / 2,
                _ => dy as int,
            },
    {
        let left = match self {
            Anchor::TopLeft | Anchor::Left | Anchor::BottomLeft => 0,
            Anchor::Top | Anchor::Center | Anchor::Bottom => floor_half(dx),
            _ => dx,
        };
        let top = match self {
            Anchor::TopLeft | Anchor::Top | Anchor::TopRight => 0,
            Anchor::Left | Anchor::Center | Anchor::Right => floor_half(dy),
            _ => dy,
        };
        (left, top)
    }
}

/// `value.div_euclid(2)`: half, rounded toward negative infinity.
fn floor_half(value: i64) -> (r: i64)
    requires
        -0x1_0000_0000 <= value <= 0x1_0000_0000,
    ensures
        r == value / 2,
{
    if value >= 0 {
        value / 2
    } else {
        let magnitude = -value;
        let r = -((magnitude + 1) / 2);
        assert(r == value / 2) by (nonlinear_arith)
            requires
                magnitude == -value,
                value < 0,
                r == -((magnitude + 1) / 2),
        ;
        r
    }
}

#[derive(Debug, Clone, Copy, PartialEq, Eq)]
pub struct CropParams {
    pub x: u32,
    pub y: u32,
    pub width: u32,
    pub height: u32,
}

#[derive(Debug, Clone, Copy, PartialEq, Eq)]
pub struct ResizeParams {
    /// One absent dimension is inferred from the current aspect ratio, rounded half up.
    pub width: Option<u32>,
    pub height: Option<u32>,
    pub filter: Interpolation,
}

#[derive(Debug, Clone, Copy, PartialEq, Eq)]
pub struct FlipParams {
    pub axis: FlipAxis,
}

#[derive(Debug, Clone, Copy, PartialEq, Eq)]
pub struct CanvasParams {
    pub width: u32,
    pub height: u32,
    pub anchor: Anchor,
    pub background: RgbaColor,
}

/// Both sides must be positive.
pub fn positive(width: u32, height: u32) -> (r: Result<(), PicError>)
    ensures
        r is Ok <==> width > 0 && height > 0,
        r matches Err(e) ==> e.code == ErrorCode::InvalidArgument,
{
    if width == 0 || height == 0 {
        return invalid("width and height must be positive");
    }
    Ok(())
}

impl CropParams {
    /// A positive rectangle whose far edges stay within `u32` pixel coordinates.
    pub open spec fn valid(&self) -> bool {
        self.width > 0 && self.height > 0 && self.x + self.width <= u32::MAX && self.y
            + self.height <= u32::MAX
    }

    pub fn validate(&self) -> (r: Result<(), PicError>)
        ensures
            r is Ok <==> self.valid(),
            r matches Err(e) ==> e.code == ErrorCode::InvalidArgument,
    {
        positive(self.width, self.height)?;
        if self.x.checked_add(self.width).is_none() || self.y.checked_add(self.height).is_none() {
            return invalid("crop rectangle overflows pixel coordinates");
        }
        Ok(())
    }

    /// Whether the rectangle lies entirely inside a `width` x `height` canvas.
    pub open spec fn inside(&self, width: u32, height: u32) -> bool {
        self.x + self.width <= width && self.y + self.height <= height
    }
}

/// `requested * numerator / denominator` rounded half up, at least one.
pub open spec fn scaled(requested: nat, numerator: nat, denominator: nat) -> nat {
    let v = (requested * numerator + denominator / 2) / denominator;
    if v < 1 { 1 } else { v }
}

fn scale(requested: u32, numerator: u32, denominator: u32) -> (r: Result<u32, PicError>)
    requires
        denominator > 0,
    ensures
        match r {
            Ok(v) => v == scaled(requested as nat, numerator as nat, denominator as nat),
            Err(e) => scaled(requested as nat, numerator as nat, denominator as nat) > u32::MAX
                && e.code == ErrorCode::ResourceLimit,
        },
{
    assert((requested as int) * (numerator as int) <= 0xffff_fffe_0000_0001) by (nonlinear_arith)
        requires
            0 <= requested <= u32::MAX,
            0 <= numerator <= u32::MAX,
    ;
    let product = requested as u64 * numerator as u64;
    let mut value = (product + denominator as u64 / 2) / denominator as u64;
    if value < 1 {
        value = 1;
    }
    if value > u32::MAX as u64 {
        return Err(PicError::new(ErrorCode::ResourceLimit, "inferred resize dimension overflows u32"));
    }
    Ok(value as u32)
}

impl ResizeParams {
    /// At least one side, and every given side positive.
    pub open spec fn valid(&self) -> bool {
        (self.width is Some || self.height is Some) && (self.width matches Some(w) ==> w > 0) && (
        self.height matches Some(h) ==> h > 0)
    }

    pub fn validate(&self) -> (r: Result<(), PicError>)
        ensures
            r is Ok <==> self.valid(),
            r matches Err(e) ==> e.code == ErrorCode::InvalidArgument,
    {
        if self.width.is_none() && self.height.is_none() {
            return invalid("resize requires width or height");
        }
        let w = match self.width {
            Some(w) => w,
            None => 1,
        };
        let h = match self.height {
            Some(h) => h,
            None => 1,
        };
        positive(w, h)
    }

    /// The output size for a `width` x `height` input: the given sides, an absent side
    /// inferred from the aspect ratio (rounded half up, at least one).
    pub open spec fn output_size(&self, width: u32, height: u32) -> (nat, nat) {
        match (self.width, self.height) {
            (Some(w), Some(h)) => (w as nat, h as nat),
            (Some(w), None) => (w as nat, scaled(w as nat, height as nat, width as nat)),
            (None, Some(h)) => (scaled(h as nat, width as nat, height as nat), h as nat),
            (None, None) => (0, 0),
        }
    }

    pub fn dimensions(&self, width: u32, height: u32) -> (r: Result<(u32, u32), PicError>)
        ensures
            match r {
                Ok((w, h)) => self.valid() && width > 0 && height > 0 && self.output_size(width, height)
                    == (w as nat, h as nat),
                Err(e) => if !self.valid() || width == 0 || height == 0 {
                    e.code == ErrorCode::InvalidArgument
                } else {
                    e.code == ErrorCode::ResourceLimit && (self.output_size(width, height).0 > u32::MAX
                        || self.output_size(width, height).1 > u32::MAX)
                },
            },
    {
        self.validate()?;
        positive(width, height)?;
        match (self.width, self.height) {
            (Some(w), Some(h)) => Ok((w, h)),
            (Some(w), None) => {
                let h = scale(w, height, width)?;
                Ok((w, h))
            },
            (None, Some(h)) => {
                let w = scale(h, width, height)?;
                Ok((w, h))
            },
            (None, None) => invalid("resize requires width or height"),
        }
    }
}

impl CanvasParams {
    pub fn validate(&self) -> (r: Result<(), PicError>)
        ensures
            r is Ok <==> self.width > 0 && self.height > 0,
            r matches Err(e) ==> e.code == ErrorCode::InvalidArgument,
    {
        positive(self.width, self.height)
    }
}

} // verus!
