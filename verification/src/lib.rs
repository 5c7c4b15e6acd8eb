//! Shared processing core: the rules, formats and history logic behind the `pic` image editor.
pub mod capabilities;
pub mod codec;
pub mod command;
pub mod composite;
pub mod document;
pub mod error;
pub mod limits;
pub mod operation;
pub mod pipeline;
pub mod project;
pub mod result;
pub mod text;

pub use error::{ErrorCode, PicError};
