//! Explicit layer authoring parameters and the rules for stable layer identities.
use crate::document::{canvas_text, TargetId};
use crate::error::{ErrorCode, PicError};
use crate::text::text_eq;
use vstd::prelude::*;
use vstd::string::*;
use vstd::utf8::encode_utf8;

verus! {

#[derive(Debug, Clone)]
pub struct LayerAddParams {
    pub id: TargetId,
    pub source: String,
    pub name: String,
}

#[derive(Debug, Clone)]
pub struct ReorderParams {
    /// Insert immediately below this stable ID; `None` moves to the top.
    pub before: Option<TargetId>,
}

#[derive(Debug, Clone)]
pub struct MaskParams {
    pub source: String,
}

/// ASCII letters, digits, `_` and `-`.
pub open spec fn id_byte(b: u8) -> bool {
    (48 <= b <= 57) || (65 <= b <= 90) || (97 <= b <= 122) || b == 95 || b == 45
}

/// A layer ID is 1..=128 bytes of ASCII letters, digits, `_` or `-`, and never `canvas`.
pub open spec fn is_layer_id(text: Seq<char>) -> bool {
    let bytes = encode_utf8(text);
    &&& 1 <= bytes.len() <= 128
    &&& text != canvas_text()
    &&& forall|i: int| 0 <= i < bytes.len() ==> id_byte(#[trigger] bytes[i])
}

/// Layer IDs are stable identities, never display names.
pub fn valid_id(id: &TargetId) -> (r: Result<(), PicError>)
    ensures
        r is Ok <==> is_layer_id(id.0@),
        r matches Err(e) ==> e.code == ErrorCode::InvalidTarget,
{
    let bytes = id.0.as_str().as_bytes();
    let mut ok = bytes.len() >= 1 && bytes.len() <= 128;
    proof {
        reveal_strlit("canvas");
    }
    assert("canvas"@ =~= canvas_text());
    if ok && text_eq(id.0.as_str(), "canvas") {
        ok = false;
    }
    let ghost shape = 1 <= bytes@.len() <= 128 && id.0@ != canvas_text();
    assert(ok == shape);
    let mut i: usize = 0;
    while ok && i < bytes.len()
        invariant
            bytes@ == encode_utf8(id.0@),
            i <= bytes@.len(),
            ok ==> shape && forall|j: int| 0 <= j < i ==> id_byte(#[trigger] bytes@[j]),
            !ok ==> !is_layer_id(id.0@),
        decreases bytes@.len() - i,
    {
        let b = bytes[i];
        if !((48 <= b && b <= 57) || (65 <= b && b <= 90) || (97 <= b && b <= 122) || b == 95 || b == 45) {
            ok = false;
        }
        i += 1;
    }
    if !ok {
        return Err(PicError::new(
            ErrorCode::InvalidTarget,
            "layer ID must contain 1..128 ASCII letters, digits, '_' or '-', and cannot be 'canvas'",
        ));
    }
    Ok(())
}

/// An asset source operand must name something.
pub fn source(value: &str) -> (r: Result<(), PicError>)
    ensures
        r is Ok <==> value@.len() > 0,
        r matches Err(e) ==> e.code == ErrorCode::InvalidArgument,
{
    if value.is_empty() {
        return Err(PicError::new(ErrorCode::InvalidArgument, "asset source cannot be empty"));
    }
    Ok(())
}

impl LayerAddParams {
    pub fn validate(&self) -> (r: Result<(), PicError>)
        ensures
            r is Ok <==> is_layer_id(self.id.0@) && self.source@.len() > 0,
            r matches Err(e) ==> if !is_layer_id(self.id.0@) {
                e.code == ErrorCode::InvalidTarget
            } else {
                e.code == ErrorCode::InvalidArgument
            },
    {
        valid_id(&self.id)?;
        source(self.source.as_str())
    }
}

impl ReorderParams {
    pub fn validate(&self) -> (r: Result<(), PicError>)
        ensures
            r is Ok <==> (self.before matches Some(b) ==> is_layer_id(b.0@)),
            r matches Err(e) ==> e.code == ErrorCode::InvalidTarget,
    {
        match &self.before {
            Some(before) => valid_id(before),
            None => Ok(()),
        }
    }
}

impl MaskParams {
    pub fn validate(&self) -> (r: Result<(), PicError>)
        ensures
            r is Ok <==> self.source@.len() > 0,
            r matches Err(e) ==> e.code == ErrorCode::InvalidArgument,
    {
        source(self.source.as_str())
    }
}

} // verus!
