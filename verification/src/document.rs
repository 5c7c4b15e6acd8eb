//! Stable identities of editing targets and immutable revisions, and the structure of a
//! layer stack.
pub mod editing;
pub mod hierarchy;
pub mod stack;
pub mod targets;

use vstd::prelude::*;

verus! {

pub const DOCUMENT_SCHEMA_VERSION: u32 = 1;

/// Opaque identity, never a display name or an index. Stateless images use `canvas`.
#[derive(Debug)]
pub struct TargetId(pub String);

/// An immutable state identifier, independent of the document schema version.
#[derive(Debug)]
pub struct RevisionId(pub String);

pub open spec fn canvas_text() -> Seq<char> {
    seq!['c', 'a', 'n', 'v', 'a', 's']
}

impl TargetId {
    pub fn canvas() -> (t: Self)
        ensures
            t.0@ == canvas_text(),
    {
        proof {
            reveal_strlit("canvas");
        }
        assert("canvas"@ =~= canvas_text());
        TargetId(String::from_str("canvas"))
    }
}

impl Clone for TargetId {
    fn clone(&self) -> (t: Self)
        ensures
            t.0@ == self.0@,
    {
        TargetId(self.0.clone())
    }
}

impl Clone for RevisionId {
    fn clone(&self) -> (r: Self)
        ensures
            r.0@ == self.0@,
    {
        RevisionId(self.0.clone())
    }
}

} // verus!
