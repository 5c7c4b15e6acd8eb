//! Photo adjustment channels. The scalar linear-light mappings themselves work on floating
//! point pixels and stay with the renderer.
use crate::error::{ErrorCode, PicError};
use crate::limits::ResourceLimits;
use crate::text::text_eq;
use vstd::prelude::*;

verus! {

/// RGB means the same scalar mapping applied independently to all three color channels.
/// Alpha is never a selectable color channel.
#[derive(Debug, Clone, Copy, PartialEq, Eq, Structural)]
pub enum Channel {
    Rgb,
    Red,
    Green,
    Blue,
}

impl Channel {
    /// Whether the mapping touches pixel component `index` (0 red, 1 green, 2 blue).
    pub fn includes(self, index: usize) -> (r: bool)
        ensures
            r == match self {
                Channel::Rgb => true,
                Channel::Red => index == 0,
                Channel::Green => index == 1,
                Channel::Blue => index == 2,
            },
    {
        match self {
            Channel::Rgb => true,
            Channel::Red => index == 0,
            Channel::Green => index == 1,
            Channel::Blue => index == 2,
        }
    }

    /// The wire name: `rgb`, `red`, `green` or `blue`.
    pub fn parse(value: &str) -> (r: Result<Channel, PicError>)
        ensures
            match r {
                Ok(Channel::Rgb) => value@ == "rgb"@,
                Ok(Channel::Red) => value@ == "red"@,
                Ok(Channel::Green) => value@ == "green"@,
                Ok(Channel::Blue) => value@ == "blue"@,
                Err(e) => value@ != "rgb"@ && value@ != "red"@ && value@ != "green"@ && value@
                    != "blue"@ && e.code == ErrorCode::InvalidArgument,
            },
    {
        if text_eq(value, "rgb") {
            Ok(Channel::Rgb)
        } else if text_eq(value, "red") {
            Ok(Channel::Red)
        } else if text_eq(value, "green") {
            Ok(Channel::Green)
        } else if text_eq(value, "blue") {
            Ok(Channel::Blue)
        } else {
            Err(
                PicError::new(
                    ErrorCode::InvalidArgument,
                    "unknown variant; expected one of `rgb`, `red`, `green`, `blue`",
                ),
            )
        }
    }
}

impl std::str::FromStr for Channel {
    type Err = PicError;

    /// As `Channel::parse`.
    fn from_str(value: &str) -> (r: Result<Self, PicError>)
        ensures
            match r {
                Ok(Channel::Rgb) => value@ == "rgb"@,
                Ok(Channel::Red) => value@ == "red"@,
                Ok(Channel::Green) => value@ == "green"@,
                Ok(Channel::Blue) => value@ == "blue"@,
                Err(e) => value@ != "rgb"@ && value@ != "red"@ && value@ != "green"@ && value@
                    != "blue"@ && e.code == ErrorCode::InvalidArgument,
            },
    {
        Channel::parse(value)
    }
}

/// Admit the buffers of a photo operation over `pixels` pixels: `bytes_per_pixel` bytes for
/// each plus `extra`, within the buffer budget and the address space.
pub fn photo_buffers(pixels: u64, bytes_per_pixel: u64, extra: u64, limits: &ResourceLimits) -> (r: Result<
    (),
    PicError,
>)
    ensures
        r is Ok <==> pixels * bytes_per_pixel + extra <= limits.max_buffer_bytes && pixels * bytes_per_pixel
            + extra <= usize::MAX,
        r matches Err(e) ==> e.code == ErrorCode::ResourceLimit,
{
    let total = match pixels.checked_mul(bytes_per_pixel) {
        Some(product) => product.checked_add(extra),
        None => None,
    };
    let fits = match total {
        Some(bytes) => bytes <= limits.max_buffer_bytes && bytes <= usize::MAX as u64,
        None => false,
    };
    if !fits {
        return Err(
            PicError::new(
                ErrorCode::ResourceLimit,
                "photo operation buffers exceed memory or address-space limit",
            ),
        );
    }
    Ok(())
}

} // verus!
