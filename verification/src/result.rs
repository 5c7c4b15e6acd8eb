//! The result envelope's schema version and its advisory warnings.
use vstd::prelude::*;

verus! {

pub const RESULT_SCHEMA_VERSION: u32 = 1;

/// An advisory that does not fail the command.
#[derive(Debug, Clone, Copy)]
pub struct Warning {
    pub code: &'static str,
    pub message: &'static str,
}

} // verus!
