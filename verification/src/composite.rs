//! Blend modes of the linear-light source-over compositor.
use crate::error::{ErrorCode, PicError};
use crate::text::text_eq;
use vstd::prelude::*;

verus! {

#[derive(Debug, Clone, Copy, PartialEq, Eq, Structural)]
pub enum BlendMode {
    Normal,
    Multiply,
    Screen,
    Overlay,
}

impl Default for BlendMode {
    fn default() -> (b: Self)
        ensures
            b == BlendMode::Normal,
    {
        BlendMode::Normal
    }
}

impl BlendMode {
    /// The wire name: `normal`, `multiply`, `screen` or `overlay`.
    pub fn parse(value: &str) -> (r: Result<BlendMode, PicError>)
        ensures
            match r {
                Ok(BlendMode::Normal) => value@ == "normal"@,
                Ok(BlendMode::Multiply) => value@ == "multiply"@,
                Ok(BlendMode::Screen) => value@ == "screen"@,
                Ok(BlendMode::Overlay) => value@ == "overlay"@,
                Err(e) => value@ != "normal"@ && value@ != "multiply"@ && value@ != "screen"@ && value@
                    != "overlay"@ && e.code == ErrorCode::InvalidArgument,
            },
    {
        if text_eq(value, "normal") {
            Ok(BlendMode::Normal)
        } else if text_eq(value, "multiply") {
            Ok(BlendMode::Multiply)
        } else if text_eq(value, "screen") {
            Ok(BlendMode::Screen)
        } else if text_eq(value, "overlay") {
            Ok(BlendMode::Overlay)
        } else {
            Err(
                PicError::new(
                    ErrorCode::InvalidArgument,
                    "unknown variant; expected one of `normal`, `multiply`, `screen`, `overlay`",
                ),
            )
        }
    }
}

impl std::str::FromStr for BlendMode {
    type Err = PicError;

    /// As `BlendMode::parse`.
    fn from_str(value: &str) -> (r: Result<Self, PicError>)
        ensures
            match r {
                Ok(BlendMode::Normal) => value@ == "normal"@,
                Ok(BlendMode::Multiply) => value@ == "multiply"@,
                Ok(BlendMode::Screen) => value@ == "screen"@,
                Ok(BlendMode::Overlay) => value@ == "overlay"@,
                Err(e) => value@ != "normal"@ && value@ != "multiply"@ && value@ != "screen"@ && value@
                    != "overlay"@ && e.code == ErrorCode::InvalidArgument,
            },
    {
        BlendMode::parse(value)
    }
}

} // verus!
