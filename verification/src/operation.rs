//! Validated operation parameters shared by the CLI, pipelines and project replay, and the
//! authoring wire format of one operation.
pub mod adjustments;
pub mod decimal;
pub mod geometry;
pub mod grid;
pub mod layers;
pub mod normal;
pub mod params;

use crate::document::{canvas_text, TargetId};
use crate::error::{ErrorCode, PicError};
use crate::operation::geometry::{CanvasParams, CropParams, FlipParams, Interpolation, ResizeParams, RgbaColor};
use crate::operation::params::{
    canvas_from, canvas_params, crop_from, crop_params, entries_view, flip_from, flip_params, resize_from,
    resize_params, rotate_from, rotate_params, ParamValue, ParamValueView, Params, ParamsView, RotateView,
    adjustment_from, adjustment_params, pair_texts, texts, AdjustmentView, adjustment_field_ranges,
    adjustment_ranges, curve_points_ok, points_in_range,
};
use crate::operation::decimal::{number_in_tenths, tenths_within};
use crate::operation::adjustments::Channel;
use crate::text::{decimal, push_decimal, text_eq};
use vstd::prelude::*;

verus! {

pub const OP_VERSION: u32 = 1;

/// Authoring wire format. No omitted versions, targets, or parameter defaults in v1.
#[derive(Debug, Clone)]
pub struct OperationSpec {
    pub op: String,
    pub op_version: u32,
    pub target: TargetId,
    pub params: Params,
}

/// A validated rotation: the angle in degrees, within [-360, 360], as the JSON number it was
/// written as; whether the canvas grows to the rotated bounds; the sampling filter and the
/// uncovered background.
#[derive(Debug, Clone, PartialEq)]
pub struct RotateStep {
    pub degrees: String,
    pub expand: bool,
    pub filter: Interpolation,
    pub background: RgbaColor,
}

/// The photo adjustments: per-pixel color edits and Gaussian filters.
#[derive(Debug, Clone, Copy, PartialEq, Eq, Structural)]
pub enum Adjustment {
    Adjust,
    Levels,
    Curves,
    Grayscale,
    Invert,
    Blur,
    Sharpen,
}

pub open spec fn adjustment_named(op: Seq<char>) -> Option<Adjustment> {
    if op == "adjust"@ {
        Some(Adjustment::Adjust)
    } else if op == "levels"@ {
        Some(Adjustment::Levels)
    } else if op == "curves"@ {
        Some(Adjustment::Curves)
    } else if op == "grayscale"@ {
        Some(Adjustment::Grayscale)
    } else if op == "invert"@ {
        Some(Adjustment::Invert)
    } else if op == "blur"@ {
        Some(Adjustment::Blur)
    } else if op == "sharpen"@ {
        Some(Adjustment::Sharpen)
    } else {
        None
    }
}

/// The operation name of an adjustment.
pub open spec fn adjustment_text(kind: Adjustment) -> Seq<char> {
    match kind {
        Adjustment::Adjust => "adjust"@,
        Adjustment::Levels => "levels"@,
        Adjustment::Curves => "curves"@,
        Adjustment::Grayscale => "grayscale"@,
        Adjustment::Invert => "invert"@,
        Adjustment::Blur => "blur"@,
        Adjustment::Sharpen => "sharpen"@,
    }
}

fn adjustment_name(kind: Adjustment) -> (r: &'static str)
    ensures
        r@ == adjustment_text(kind),
{
    match kind {
        Adjustment::Adjust => "adjust",
        Adjustment::Levels => "levels",
        Adjustment::Curves => "curves",
        Adjustment::Grayscale => "grayscale",
        Adjustment::Invert => "invert",
        Adjustment::Blur => "blur",
        Adjustment::Sharpen => "sharpen",
    }
}

fn adjustment_kind(op: &str) -> (r: Option<Adjustment>)
    ensures
        r == adjustment_named(op@),
{
    if text_eq(op, "adjust") {
        Some(Adjustment::Adjust)
    } else if text_eq(op, "levels") {
        Some(Adjustment::Levels)
    } else if text_eq(op, "curves") {
        Some(Adjustment::Curves)
    } else if text_eq(op, "grayscale") {
        Some(Adjustment::Grayscale)
    } else if text_eq(op, "invert") {
        Some(Adjustment::Invert)
    } else if text_eq(op, "blur") {
        Some(Adjustment::Blur)
    } else if text_eq(op, "sharpen") {
        Some(Adjustment::Sharpen)
    } else {
        None
    }
}

/// A validated photo adjustment: its kind, the channel it edits (levels and curves), its
/// numeric parameters as the JSON numbers they were written as (exposure, brightness,
/// contrast, saturation; input black, input white, gamma, output black, output white; sigma;
/// sigma and amount), each within its range, and the curve's control points. How the levels
/// endpoints and the curve inputs compare with each other is checked on the floating-point
/// values.
#[derive(Debug, Clone, PartialEq)]
pub struct AdjustmentStep {
    pub kind: Adjustment,
    pub channel: Option<Channel>,
    pub values: Vec<String>,
    pub points: Vec<(String, String)>,
}

/// Validated executable operations. Future commands must use this same dispatcher.
#[derive(Debug, Clone, PartialEq)]
pub enum Operation {
    Identity,
    Crop(CropParams),
    Resize(ResizeParams),
    Rotate(RotateStep),
    Flip(FlipParams),
    Canvas(CanvasParams),
    Adjustment(AdjustmentStep),
}

pub enum OperationView {
    Identity,
    Crop(CropParams),
    Resize(ResizeParams),
    Rotate(RotateView),
    Flip(FlipParams),
    Canvas(CanvasParams),
    Adjustment(Adjustment, AdjustmentView),
}

impl View for Operation {
    type V = OperationView;

    open spec fn view(&self) -> OperationView {
        match self {
            Operation::Identity => OperationView::Identity,
            Operation::Crop(p) => OperationView::Crop(*p),
            Operation::Resize(p) => OperationView::Resize(*p),
            Operation::Rotate(p) => OperationView::Rotate(
                RotateView { degrees: p.degrees@, expand: p.expand, filter: p.filter, background: p.background },
            ),
            Operation::Flip(p) => OperationView::Flip(*p),
            Operation::Canvas(p) => OperationView::Canvas(*p),
            Operation::Adjustment(a) => OperationView::Adjustment(
                a.kind,
                AdjustmentView { channel: a.channel, values: texts(a.values@), points: pair_texts(a.points@) },
            ),
        }
    }
}

impl Operation {
    /// Check the typed parameters again, as after they were edited in place.
    pub fn validate(&self) -> (r: Result<(), PicError>)
        ensures
            r is Ok <==> operation_valid(self@),
            r matches Err(e) ==> e.code == ErrorCode::InvalidArgument,
    {
        let ok = match self {
            Operation::Identity => true,
            Operation::Crop(c) => c.validate().is_ok(),
            Operation::Resize(p) => p.validate().is_ok(),
            Operation::Rotate(p) => number_in_tenths(p.degrees.as_str(), -3600, 3600),
            Operation::Flip(_) => true,
            Operation::Canvas(c) => c.validate().is_ok(),
            Operation::Adjustment(a) => {
                let ranges = adjustment_field_ranges(adjustment_name(a.kind));
                let ghost rs = adjustment_ranges(adjustment_text(a.kind));
                if a.values.len() != ranges.len() {
                    false
                } else {
                    let mut fine = true;
                    let mut i: usize = 0;
                    while i < ranges.len()
                        invariant
                            ranges@.len() == rs.len(),
                            a.values@.len() == rs.len(),
                            forall|j: int|
                                0 <= j < ranges@.len() ==> (#[trigger] ranges@[j]).0 as int == rs[j].0
                                    && ranges@[j].1 as int == rs[j].1 && -10000 < ranges@[j].0 <= ranges@[j].1
                                    < 10000,
                            i <= ranges@.len(),
                            fine ==> forall|j: int|
                                0 <= j < i ==> tenths_within(#[trigger] texts(a.values@)[j], rs[j].0, rs[j].1),
                            !fine ==> !(forall|j: int|
                                0 <= j < rs.len() ==> tenths_within(#[trigger] texts(a.values@)[j], rs[j].0, rs[j].1)),
                        decreases ranges@.len() - i,
                    {
                        let (lo, hi) = ranges[i];
                        assert(texts(a.values@)[i as int] == a.values@[i as int]@);
                        if !number_in_tenths(a.values[i].as_str(), lo, hi) {
                            fine = false;
                        }
                        i += 1;
                    }
                    let points_fine = match a.kind {
                        Adjustment::Curves => 2 <= a.points.len() && a.points.len() <= 256 && points_in_range(&a.points),
                        _ => true,
                    };
                    fine && points_fine
                }
            },
        };
        if ok {
            Ok(())
        } else {
            Err(PicError::new(ErrorCode::InvalidArgument, "operation parameters are out of range"))
        }
    }

    /// Whether a template may carry the operation without rebinding layers, assets or
    /// selections: every canvas operation may.
    pub fn template_safe(&self) -> (r: bool)
        ensures
            r,
    {
        match self {
            Operation::Identity => true,
            Operation::Crop(_) => true,
            Operation::Resize(_) => true,
            Operation::Rotate(_) => true,
            Operation::Flip(_) => true,
            Operation::Canvas(_) => true,
            Operation::Adjustment(_) => true,
        }
    }
}

/// Whether the typed parameters of an operation are within its rules: a positive crop
/// rectangle within `u32`, a resize with a positive side, an angle in [-360, 360], a positive
/// canvas, and adjustment values in their ranges (curves: 2 to 256 points in [0, 1] from
/// input 0 to input 1).
pub open spec fn operation_valid(o: OperationView) -> bool {
    match o {
        OperationView::Identity => true,
        OperationView::Crop(c) => c.valid(),
        OperationView::Resize(r) => r.valid(),
        OperationView::Rotate(v) => tenths_within(v.degrees, -3600, 3600),
        OperationView::Flip(_) => true,
        OperationView::Canvas(c) => c.width > 0 && c.height > 0,
        OperationView::Adjustment(kind, a) => {
            let rs = adjustment_ranges(adjustment_text(kind));
            &&& a.values.len() == rs.len()
            &&& forall|i: int| 0 <= i < rs.len() ==> tenths_within(#[trigger] a.values[i], rs[i].0, rs[i].1)
            &&& kind == Adjustment::Curves ==> 2 <= a.points.len() <= 256 && curve_points_ok(a.points)
        },
    }
}

pub open spec fn identity_text() -> Seq<char> {
    seq!['i', 'd', 'e', 'n', 't', 'i', 't', 'y']
}

/// The operations this dispatcher knows by name.
pub open spec fn known_operation(op: Seq<char>) -> bool {
    op == identity_text() || op == "crop"@ || op == "resize"@ || op == "rotate"@ || op == "flip"@ || op
        == "canvas"@ || adjustment_named(op) is Some
}

/// The operation that the fields `p` of a parameter object give for a known name, if they
/// are its parameters exactly.
pub open spec fn step_params(op: Seq<char>, p: Seq<(Seq<char>, ParamValueView)>) -> Option<OperationView> {
    if op == identity_text() {
        if p.len() == 0 {
            Some(OperationView::Identity)
        } else {
            None
        }
    } else if op == "crop"@ {
        match crop_params(p) {
            Some(c) => Some(OperationView::Crop(c)),
            None => None,
        }
    } else if op == "resize"@ {
        match resize_params(p) {
            Some(c) => Some(OperationView::Resize(c)),
            None => None,
        }
    } else if op == "rotate"@ {
        match rotate_params(p) {
            Some(c) => Some(OperationView::Rotate(c)),
            None => None,
        }
    } else if op == "flip"@ {
        match flip_params(p) {
            Some(c) => Some(OperationView::Flip(c)),
            None => None,
        }
    } else if adjustment_named(op) is Some {
        match adjustment_params(op, p) {
            Some(a) => Some(OperationView::Adjustment(adjustment_named(op)->0, a)),
            None => None,
        }
    } else {
        match canvas_params(p) {
            Some(c) => Some(OperationView::Canvas(c)),
            None => None,
        }
    }
}

/// What an authoring step validates to: the first rule it breaks (its name, its version,
/// its target, then its parameters, which must be an object holding exactly the operation's
/// parameters), or the operation.
pub open spec fn operation_outcome(op: Seq<char>, op_version: u32, target: Seq<char>, params: ParamsView) -> Result<
    OperationView,
    ErrorCode,
> {
    if !known_operation(op) {
        Err(ErrorCode::UnknownOperation)
    } else if op_version != OP_VERSION {
        Err(ErrorCode::UnsupportedVersion)
    } else if target != canvas_text() {
        Err(ErrorCode::InvalidTarget)
    } else {
        match params {
            ParamsView::Object(p) => match step_params(op, p) {
                Some(o) => Ok(o),
                None => Err(ErrorCode::InvalidArgument),
            },
            ParamsView::Other(_) => Err(ErrorCode::InvalidArgument),
        }
    }
}

fn params_invalid(op: &str) -> (r: PicError)
    ensures
        r.code == ErrorCode::InvalidArgument,
{
    let mut message = String::from_str("invalid ");
    message.append(op);
    message.append(" params");
    PicError::new(ErrorCode::InvalidArgument, message.as_str())
}

fn step_from(op: &str, p: &Vec<(String, ParamValue)>) -> (r: Option<Operation>)
    requires
        known_operation(op@),
    ensures
        match r {
            Some(o) => step_params(op@, entries_view(p@)) == Some(o@),
            None => step_params(op@, entries_view(p@)) is None,
        },
{
    proof {
        reveal_strlit("identity");
    }
    assert("identity"@ =~= identity_text());
    if text_eq(op, "identity") {
        assert(entries_view(p@).len() == p@.len());
        if p.len() == 0 {
            Some(Operation::Identity)
        } else {
            None
        }
    } else if text_eq(op, "crop") {
        match crop_from(p) {
            Some(c) => Some(Operation::Crop(c)),
            None => None,
        }
    } else if text_eq(op, "resize") {
        match resize_from(p) {
            Some(c) => Some(Operation::Resize(c)),
            None => None,
        }
    } else if text_eq(op, "rotate") {
        match rotate_from(p) {
            Some((degrees, expand, filter, background)) => {
                let o = Operation::Rotate(RotateStep { degrees, expand, filter, background });
                assert(o@ == OperationView::Rotate(
                    RotateView { degrees: degrees@, expand, filter, background },
                ));
                Some(o)
            },
            None => None,
        }
    } else if text_eq(op, "flip") {
        match flip_from(p) {
            Some(c) => Some(Operation::Flip(c)),
            None => None,
        }
    } else if let Some(kind) = adjustment_kind(op) {
        match adjustment_from(op, p) {
            Some((channel, values, points)) => Some(
                Operation::Adjustment(AdjustmentStep { kind, channel, values, points }),
            ),
            None => None,
        }
    } else {
        match canvas_from(p) {
            Some(c) => Some(Operation::Canvas(c)),
            None => None,
        }
    }
}

/// The operation that an authoring step names: its name, version and target are checked
/// first, in that order, then its parameters.
pub fn check_operation(op: &str, op_version: u32, target: &TargetId, params: &Params) -> (r: Result<
    Operation,
    PicError,
>)
    ensures
        match r {
            Ok(o) => operation_outcome(op@, op_version, target.0@, params@) == Ok::<OperationView, ErrorCode>(o@),
            Err(e) => operation_outcome(op@, op_version, target.0@, params@) == Err::<OperationView, ErrorCode>(
                e.code,
            ),
        },
{
    proof {
        reveal_strlit("identity");
        reveal_strlit("canvas");
    }
    assert("identity"@ =~= identity_text());
    let known = text_eq(op, "identity") || text_eq(op, "crop") || text_eq(op, "resize") || text_eq(op, "rotate")
        || text_eq(op, "flip") || text_eq(op, "canvas") || adjustment_kind(op).is_some();
    if !known {
        let mut message = String::from_str("operation '");
        message.append(op);
        message.append("' is not implemented");
        return Err(PicError::new(ErrorCode::UnknownOperation, message.as_str()));
    }
    if op_version != OP_VERSION {
        let mut message = String::from_str("unsupported ");
        message.append(op);
        message.append(" op_version ");
        push_decimal(&mut message, op_version as u64);
        message.append("; expected 1");
        return Err(PicError::new(ErrorCode::UnsupportedVersion, message.as_str()));
    }
    assert("canvas"@ =~= canvas_text());
    if !text_eq(target.0.as_str(), "canvas") {
        return Err(
            PicError::new(ErrorCode::InvalidTarget, "stateless operations require stable target 'canvas'"),
        );
    }
    match params {
        Params::Object(p) => match step_from(op, p) {
            Some(o) => Ok(o),
            None => Err(params_invalid(op)),
        },
        Params::Other(_) => Err(params_invalid(op)),
    }
}

impl OperationSpec {
    /// The identity step on the canvas, with empty parameters.
    pub fn identity() -> (s: Self)
        ensures
            s.op@ == identity_text(),
            s.op_version == OP_VERSION,
            s.target.0@ == canvas_text(),
            s.params@ == ParamsView::Object(Seq::empty()),
    {
        proof {
            reveal_strlit("identity");
        }
        assert("identity"@ =~= identity_text());
        OperationSpec {
            op: String::from_str("identity"),
            op_version: OP_VERSION,
            target: TargetId::canvas(),
            params: Params::empty(),
        }
    }

    /// The executable operation this step names.
    pub fn validate(&self) -> (r: Result<Operation, PicError>)
        ensures
            match r {
                Ok(o) => operation_outcome(self.op@, self.op_version, self.target.0@, self.params@) == Ok::<
                    OperationView,
                    ErrorCode,
                >(o@),
                Err(e) => operation_outcome(self.op@, self.op_version, self.target.0@, self.params@) == Err::<
                    OperationView,
                    ErrorCode,
                >(e.code),
            },
    {
        check_operation(self.op.as_str(), self.op_version, &self.target, &self.params)
    }
}

/// `"operations[i]: "` before `message`.
fn step_message(i: usize, message: &str) -> (r: String)
    ensures
        r@ == "operations["@ + decimal(i as nat) + "]: "@ + message@,
{
    let mut out = String::from_str("operations[");
    push_decimal(&mut out, i as u64);
    out.append("]: ");
    out.append(message);
    out
}

/// Validate every step of a pipeline in order: the operations, or the first step's refusal,
/// its message prefixed with the step's position.
pub fn validate_steps(steps: &Vec<OperationSpec>) -> (r: Result<Vec<Operation>, PicError>)
    ensures
        match r {
            Ok(ops) => ops@.len() == steps@.len() && forall|i: int|
                0 <= i < steps@.len() ==> operation_outcome(
                    (#[trigger] steps@[i]).op@,
                    steps@[i].op_version,
                    steps@[i].target.0@,
                    steps@[i].params@,
                ) == Ok::<OperationView, ErrorCode>(ops@[i]@),
            Err(e) => exists|i: int|
                0 <= i < steps@.len() && (forall|j: int|
                    0 <= j < i ==> operation_outcome(
                        (#[trigger] steps@[j]).op@,
                        steps@[j].op_version,
                        steps@[j].target.0@,
                        steps@[j].params@,
                    ) is Ok) && operation_outcome(
                    steps@[i].op@,
                    steps@[i].op_version,
                    steps@[i].target.0@,
                    steps@[i].params@,
                ) == Err::<OperationView, ErrorCode>(e.code) && ("operations["@ + decimal(i as nat)
                    + "]: "@).is_prefix_of(e.message@),
        },
{
    let mut ops: Vec<Operation> = Vec::new();
    let mut i: usize = 0;
    while i < steps.len()
        invariant
            i <= steps@.len(),
            ops@.len() == i,
            forall|j: int|
                0 <= j < i ==> operation_outcome(
                    (#[trigger] steps@[j]).op@,
                    steps@[j].op_version,
                    steps@[j].target.0@,
                    steps@[j].params@,
                ) == Ok::<OperationView, ErrorCode>(ops@[j]@),
        decreases steps@.len() - i,
    {
        match steps[i].validate() {
            Ok(o) => ops.push(o),
            Err(e) => {
                let message = step_message(i, e.message.as_str());
                proof {
                    let prefix = "operations["@ + decimal(i as nat) + "]: "@;
                    assert(message@.take(prefix.len() as int) =~= prefix);
                }
                return Err(PicError::new(e.code, message.as_str()));
            },
        }
        i += 1;
    }
    Ok(ops)
}

} // verus!
