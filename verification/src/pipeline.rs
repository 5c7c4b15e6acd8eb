//! Pipeline files: their schema version, their length in operations, the record of executed
//! steps, and where their resource operands are found.
use crate::codec::encoding::Format;
use crate::codec::sniff::ImageInfo;
use crate::document::TargetId;
use crate::error::{ErrorCode, PicError};
use crate::limits::ResourceLimits;
use crate::operation::OperationSpec;
use crate::text::push_decimal;
use std::path::PathBuf;
use vstd::prelude::*;

verus! {

pub const PIPELINE_SCHEMA_VERSION: u32 = 1;

/// What joining `path` onto the directory `base` gives, as `Path::join` does on POSIX text
/// paths: an absolute `path` (one that starts with `/`) replaces `base`; otherwise `path`
/// follows `base` after one `/`, which is not added when `base` is empty or already ends
/// with one.
pub open spec fn joined(base: Seq<char>, path: Seq<char>) -> Seq<char> {
    if path.len() > 0 && path[0] == '/' {
        path
    } else if base.len() == 0 || base.last() == '/' {
        base + path
    } else {
        base + seq!['/'] + path
    }
}

fn join_path(base: &str, path: &str) -> (r: String)
    ensures
        r@ == joined(base@, path@),
{
    proof {
        reveal_strlit("/");
    }
    if path.unicode_len() > 0 && path.get_char(0) == '/' {
        return String::from_str(path);
    }
    let n = base.unicode_len();
    let mut out = String::from_str(base);
    if n > 0 && base.get_char(n - 1) != '/' {
        out.append("/");
    }
    out.append(path);
    out
}

/// Resolve resource operands relative to the canonical pipeline file's directory. CLI
/// input/output paths are deliberately not resolved through this object.
#[derive(Debug, Clone)]
pub struct ResourceResolver {
    base_dir: String,
}

impl ResourceResolver {
    pub closed spec fn base(&self) -> Seq<char> {
        self.base_dir@
    }

    /// A resolver for `base_dir`, a canonical UTF-8 path that the caller has resolved on
    /// disk; `is_directory` says whether it names a directory.
    pub fn from_canonical(base_dir: String, is_directory: bool) -> (r: Result<Self, PicError>)
        ensures
            r is Ok <==> is_directory,
            r matches Ok(resolver) ==> resolver.base() == base_dir@,
            r matches Err(e) ==> e.code == ErrorCode::InvalidArgument,
    {
        if !is_directory {
            return Err(PicError::new(ErrorCode::InvalidArgument, "resource base must be a directory"));
        }
        Ok(ResourceResolver { base_dir })
    }

    pub fn base_dir(&self) -> (p: &str)
        ensures
            p@ == self.base(),
    {
        self.base_dir.as_str()
    }

    /// Absolute paths stay absolute; `..` is permitted. This is not a filesystem sandbox.
    pub fn resolve(&self, path: &str) -> (r: Result<String, PicError>)
        ensures
            r is Err <==> path@.len() == 0,
            r matches Err(e) ==> e.code == ErrorCode::InvalidArgument,
            r matches Ok(p) ==> p@ == joined(self.base(), path@),
            r matches Ok(p) ==> (path@[0] == '/' ==> p@ == path@),
    {
        if path.unicode_len() == 0 {
            return Err(PicError::new(ErrorCode::InvalidArgument, "resource path cannot be empty"));
        }
        Ok(join_path(self.base_dir.as_str(), path))
    }
}

/// The pipeline-level rules, before any operation is validated: the pipeline's bytes fit the
/// limit (when they came from a file or a string), its schema version is known and it has no
/// more operations than the limit.
pub fn check_pipeline(bytes: Option<u64>, schema_version: u32, operations: usize, limits: &ResourceLimits) -> (r:
    Result<(), PicError>)
    ensures
        match r {
            Ok(()) => (bytes matches Some(n) ==> n <= limits.max_pipeline_bytes) && schema_version
                == PIPELINE_SCHEMA_VERSION && operations <= limits.max_operations,
            Err(e) => if bytes matches Some(n) && n > limits.max_pipeline_bytes {
                e.code == ErrorCode::ResourceLimit
            } else if schema_version != PIPELINE_SCHEMA_VERSION {
                e.code == ErrorCode::UnsupportedVersion
            } else {
                operations > limits.max_operations && e.code == ErrorCode::ResourceLimit
            },
        },
{
    match bytes {
        Some(n) => {
            if n > limits.max_pipeline_bytes {
                return Err(PicError::new(ErrorCode::ResourceLimit, "pipeline exceeds byte limit"));
            }
        },
        None => {},
    }
    if schema_version != PIPELINE_SCHEMA_VERSION {
        let mut message = String::from_str("unsupported pipeline schema_version ");
        push_decimal(&mut message, schema_version as u64);
        message.append("; expected 1");
        return Err(PicError::new(ErrorCode::UnsupportedVersion, message.as_str()));
    }
    if operations > limits.max_operations {
        return Err(PicError::new(ErrorCode::ResourceLimit, "pipeline exceeds operation limit"));
    }
    Ok(())
}

/// One logical step as it ran.
#[derive(Debug)]
pub struct ExecutedStep {
    /// Zero-based logical index. No fusion or reordering is performed.
    pub index: usize,
    pub op: String,
    pub op_version: u32,
    pub target: TargetId,
}

/// The record of running `steps` in order: one entry per step, with its position, name,
/// version and target.
pub fn executed_steps(steps: &Vec<OperationSpec>) -> (r: Vec<ExecutedStep>)
    ensures
        r@.len() == steps@.len(),
        forall|i: int|
            0 <= i < r@.len() ==> (#[trigger] r@[i]).index == i && r@[i].op@ == steps@[i].op@
                && r@[i].op_version == steps@[i].op_version && r@[i].target.0@ == steps@[i].target.0@,
{
    let mut out: Vec<ExecutedStep> = Vec::new();
    let mut i: usize = 0;
    while i < steps.len()
        invariant
            i <= steps@.len(),
            out@.len() == i,
            forall|j: int|
                0 <= j < i ==> (#[trigger] out@[j]).index == j && out@[j].op@ == steps@[j].op@
                    && out@[j].op_version == steps@[j].op_version && out@[j].target.0@
                    == steps@[j].target.0@,
        decreases steps@.len() - i,
    {
        let step = &steps[i];
        out.push(
            ExecutedStep {
                index: i,
                op: step.op.clone(),
                op_version: step.op_version,
                target: step.target.clone(),
            },
        );
        i += 1;
    }
    out
}

#[derive(Debug)]
pub struct RunResult {
    pub input: ImageInfo,
    pub output: PathBuf,
    pub format: Format,
    pub width: u32,
    pub height: u32,
    pub operations_applied: usize,
    pub steps: Vec<ExecutedStep>,
    pub resource_base: PathBuf,
    pub jpeg_quality: Option<u8>,
}

} // verus!
