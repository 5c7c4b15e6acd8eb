//! Command-line requests in the shape the library accepts, and their result names.
use crate::codec::encoding::{EncodeOptions, Format};
use crate::operation::geometry::RgbaColor;
use std::path::PathBuf;
use vstd::prelude::*;

verus! {

/// Where and how an image is written.
#[derive(Debug)]
pub struct OutputArgs {
    pub output: PathBuf,
    /// Output format: png or jpeg (jpg); defaults to the output extension.
    pub format: Option<Format>,
    /// JPEG quality, 1..100 (default 90); invalid for PNG.
    pub jpeg_quality: Option<u8>,
    /// PNG deflate level 0..9 (default 6), adaptive row filter; invalid for JPEG.
    pub png_compression: Option<u8>,
    /// Flatten JPEG alpha over this opaque #RRGGBB color in linear sRGB.
    pub jpeg_background: Option<RgbaColor>,
    /// Atomically replace an existing regular output file.
    pub overwrite: bool,
}

impl OutputArgs {
    /// The encoder options these arguments request.
    pub fn encoding(&self) -> (e: EncodeOptions)
        ensures
            e.format == self.format,
            e.jpeg_quality == self.jpeg_quality,
            e.png_compression == self.png_compression,
            e.jpeg_background == self.jpeg_background,
    {
        EncodeOptions {
            format: self.format,
            jpeg_quality: self.jpeg_quality,
            png_compression: self.png_compression,
            jpeg_background: self.jpeg_background,
        }
    }
}

#[derive(Debug)]
pub struct RenderArgs {
    pub project: PathBuf,
    pub revision: Option<String>,
    pub output: OutputArgs,
}

#[derive(Debug)]
pub struct CursorArgs {
    pub project: PathBuf,
    pub expect_revision: String,
}

/// The project subcommands.
#[derive(Debug)]
pub enum ProjectCommand {
    /// Import original PNG/JPEG bytes into a new .pic directory; starts at r0.
    Create { input: PathBuf, output: PathBuf },
    /// Execute and atomically commit a nonempty pipeline as one undo group.
    Apply { project: PathBuf, pipeline: PathBuf, expect_revision: String, revision: Option<String> },
    /// Restore and inspect a step, all immutable records and active group boundaries.
    Inspect { project: PathBuf, revision: Option<String> },
    /// Restore a committed revision and export with the ordinary codec options.
    Export(RenderArgs),
    /// Read-only full-resolution step preview.
    Preview(RenderArgs),
    /// Restore the previous whole group boundary; append no operations.
    Undo(CursorArgs),
    /// Restore the next active group boundary; abandoned redo paths stay read-only.
    Redo(CursorArgs),
}

impl ProjectCommand {
    /// The command name reported in the result envelope.
    pub fn name(&self) -> (n: &'static str)
        ensures
            n@ == match self {
                ProjectCommand::Create { .. } => "project create"@,
                ProjectCommand::Apply { .. } => "project apply"@,
                ProjectCommand::Inspect { .. } => "project inspect"@,
                ProjectCommand::Export(_) => "project export"@,
                ProjectCommand::Preview(_) => "project preview"@,
                ProjectCommand::Undo(_) => "project undo"@,
                ProjectCommand::Redo(_) => "project redo"@,
            },
    {
        match self {
            ProjectCommand::Create { .. } => "project create",
            ProjectCommand::Apply { .. } => "project apply",
            ProjectCommand::Inspect { .. } => "project inspect",
            ProjectCommand::Export(_) => "project export",
            ProjectCommand::Preview(_) => "project preview",
            ProjectCommand::Undo(_) => "project undo",
            ProjectCommand::Redo(_) => "project redo",
        }
    }
}

} // verus!
