//! Self-contained source assets and immutable semantic ops. No raster snapshot is authoritative.
pub mod cache;
pub mod history;
pub mod preview;
pub mod snapshot;
pub mod storage;
pub mod template;

use crate::codec::encoding::{EncodeOptions, Format};
use crate::document::{RevisionId, TargetId};
use crate::project::cache::ReplayReport;
use std::path::{Path, PathBuf};
use vstd::prelude::*;

verus! {

/// What to render and where to write it.
pub struct ExportRequest<'a> {
    pub revision: Option<&'a str>,
    pub output: &'a Path,
    pub encoding: EncodeOptions,
    pub overwrite: bool,
}

#[derive(Debug)]
pub struct ProjectExport {
    pub project: PathBuf,
    pub revision: RevisionId,
    pub target: TargetId,
    pub op_id: Option<String>,
    pub output: PathBuf,
    pub width: u32,
    pub height: u32,
    pub operations_replayed: usize,
    pub replay: ReplayReport,
    pub format: Format,
    pub jpeg_quality: Option<u8>,
    pub png_compression: Option<u8>,
}

} // verus!
