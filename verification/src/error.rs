//! Machine-readable error codes and the library's error value.
use std::path::Path;
use vstd::prelude::*;

verus! {

#[verifier::external_type_specification]
#[verifier::external_body]
pub struct ExIoError(std::io::Error);

#[verifier::external_type_specification]
#[verifier::external_body]
pub struct ExPath(Path);

#[verifier::external_type_specification]
#[verifier::external_body]
pub struct ExPathBuf(std::path::PathBuf);

/// Machine-readable codes are part of result schema version 1.
#[derive(Debug, Clone, Copy, PartialEq, Eq, Structural)]
pub enum ErrorCode {
    InvalidArgument,
    InvalidJson,
    UnsupportedVersion,
    UnknownOperation,
    InvalidTarget,
    InvalidMask,
    UnsupportedTemplate,
    FileNotFound,
    IoError,
    UnsupportedFormat,
    UnsupportedColor,
    UnsupportedMetadata,
    DecodeFailed,
    EncodeFailed,
    OutputExists,
    AlphaNotSupported,
    ResourceLimit,
    InvalidProject,
    AssetMissing,
    IntegrityMismatch,
    UnsafePath,
    RevisionNotFound,
    RevisionConflict,
    HistoryBoundary,
    InvalidHierarchy,
    DependencyCycle,
    InvalidFont,
    UnsupportedText,
    MissingGlyph,
}

/// The kinds of I/O failure that the error codes distinguish.
#[derive(Debug, Clone, Copy, PartialEq, Eq, Structural)]
pub enum IoFailure {
    NotFound,
    AlreadyExists,
    Other,
}

#[derive(Debug, Clone)]
pub struct PicError {
    pub code: ErrorCode,
    pub message: String,
}

/// The error code that an I/O failure of `kind` reports.
pub open spec fn io_code(kind: IoFailure) -> ErrorCode {
    match kind {
        IoFailure::NotFound => ErrorCode::FileNotFound,
        IoFailure::AlreadyExists => ErrorCode::OutputExists,
        IoFailure::Other => ErrorCode::IoError,
    }
}

/// Classifies `std::io::Error::kind`: `NotFound` and `AlreadyExists` are kept apart,
/// every other kind is `Other`. Nothing is stated about which kind an error carries.
#[verifier::external_body]
fn io_failure_kind(error: &std::io::Error) -> (kind: IoFailure) {
    match error.kind() {
        std::io::ErrorKind::NotFound => IoFailure::NotFound,
        std::io::ErrorKind::AlreadyExists => IoFailure::AlreadyExists,
        _ => IoFailure::Other,
    }
}

/// `Path::display` as a `String`. Nothing is stated about the text.
#[verifier::external_body]
fn path_text(path: &Path) -> String {
    path.display().to_string()
}

/// The `Display` text of a `std::io::Error`. Nothing is stated about the text.
#[verifier::external_body]
fn error_text(error: &std::io::Error) -> String {
    error.to_string()
}

impl PicError {
    pub fn new(code: ErrorCode, message: &str) -> (e: Self)
        ensures
            e.code == code,
            e.message@ == message@,
    {
        PicError { code, message: String::from_str(message) }
    }

    /// The code of an I/O failure of a known kind.
    pub fn io_kind(kind: IoFailure, message: String) -> (e: Self)
        ensures
            e.code == io_code(kind),
            e.message@ == message@,
    {
        let code = match kind {
            IoFailure::NotFound => ErrorCode::FileNotFound,
            IoFailure::AlreadyExists => ErrorCode::OutputExists,
            IoFailure::Other => ErrorCode::IoError,
        };
        PicError { code, message }
    }

    /// An I/O failure of `action` on `path`: missing files and existing outputs keep their
    /// codes; the message is `"{action} '{path}': {error}"`.
    pub fn io(action: &str, path: &Path, error: std::io::Error) -> (e: Self)
        ensures
            exists|kind: IoFailure| e.code == io_code(kind),
            exists|p: Seq<char>, t: Seq<char>| e.message@ == action@ + " '"@ + p + "': "@ + t,
    {
        let kind = io_failure_kind(&error);
        let shown = path_text(path);
        let told = error_text(&error);
        let mut message = String::from_str(action);
        message.append(" '");
        message.append(shown.as_str());
        message.append("': ");
        message.append(told.as_str());
        assert(message@ == action@ + " '"@ + shown@ + "': "@ + told@);
        Self::io_kind(kind, message)
    }
}

} // verus!
