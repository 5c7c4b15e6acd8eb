//! Portable authoring recipes, never a revision or saved content-dependent result: exporting
//! a revision's steps as a template, and binding a template to explicit inputs, targets and
//! parameters.
use crate::document::{canvas_text, TargetId};
use crate::error::{ErrorCode, PicError};
use crate::limits::ResourceLimits;
use crate::operation::params::Params;
use crate::operation::{operation_outcome, OperationSpec};
use crate::project::history::{same_asset, AssetRef, PIXEL_SEMANTICS};
use crate::text::{decimal, push_decimal, text_eq};
use std::path::Path;
use vstd::prelude::*;

verus! {

pub const TEMPLATE_VERSION: u32 = 1;

pub struct TemplateRunRequest<'a> {
    pub template: &'a Path,
    pub bindings: &'a Path,
    /// Always a new project; its revisions are local to this new history.
    pub output: &'a Path,
}

#[derive(Debug, Clone)]
pub struct TemplateStep {
    pub op: String,
    pub op_version: u32,
    pub target_slot: String,
    pub params_slot: String,
    /// Documentation for the caller; never substituted for a missing binding.
    pub suggested_params: Params,
}

#[derive(Debug, Clone)]
pub struct OperationTemplate {
    pub schema_version: u32,
    pub pixel_semantics: String,
    pub input_slot: String,
    pub target_slots: Vec<String>,
    pub operations: Vec<TemplateStep>,
}

/// The caller's bindings, each map as its entries in key order (a key at most once, as in a
/// JSON object).
#[derive(Debug)]
pub struct TemplateBindings {
    pub schema_version: u32,
    /// Paths resolve relative to the bindings file, not the source project or template.
    pub inputs: Vec<(String, String)>,
    pub targets: Vec<(String, TargetId)>,
    /// Every slot is mandatory, including empty parameter objects.
    pub params: Vec<(String, Params)>,
}

/// One committed step, as exporting it to a template reads it.
#[derive(Debug)]
pub struct TemplateSource {
    pub operation: OperationSpec,
    pub input_assets: Vec<AssetRef>,
    pub result_assets: Vec<AssetRef>,
}

pub open spec fn input_text() -> Seq<char> {
    seq!['i', 'n', 'p', 'u', 't']
}

/// The parameter slot of step `i` (zero-based): `step_1`, `step_2`, ...
pub open spec fn slot_name(i: nat) -> Seq<char> {
    seq!['s', 't', 'e', 'p', '_'] + decimal(i + 1)
}

/// The first entry of `entries` whose key is `key`.
pub open spec fn entry_of<V>(entries: Seq<(String, V)>, key: Seq<char>) -> Option<int> {
    if exists|i: int| 0 <= i < entries.len() && (#[trigger] entries[i]).0@ == key && forall|j: int|
        0 <= j < i ==> (#[trigger] entries[j]).0@ != key {
        Some(
            choose|i: int|
                0 <= i < entries.len() && (#[trigger] entries[i]).0@ == key && forall|j: int|
                    0 <= j < i ==> (#[trigger] entries[j]).0@ != key,
        )
    } else {
        None
    }
}

/// The refusal of a template and its bindings before any step is read, if any.
pub open spec fn header_error(t: OperationTemplate, b: TemplateBindings, limits: ResourceLimits) -> Option<ErrorCode> {
    if t.schema_version != TEMPLATE_VERSION || b.schema_version != TEMPLATE_VERSION
        || t.pixel_semantics@ != PIXEL_SEMANTICS@ {
        Some(ErrorCode::UnsupportedVersion)
    } else if t.input_slot@ != input_text() || t.target_slots@.len() != 1 || t.target_slots@[0]@
        != canvas_text() || b.inputs@.len() != 1 || b.inputs@[0].0@ != input_text()
        || b.targets@.len() != 1 || b.targets@[0].0@ != canvas_text() || b.targets@[0].1.0@
        != canvas_text() || b.params@.len() != t.operations@.len() {
        Some(ErrorCode::InvalidArgument)
    } else if t.operations@.len() > limits.max_operations {
        Some(ErrorCode::ResourceLimit)
    } else {
        None
    }
}

/// The refusal of step `i`: its slots, then its operation with the suggested parameters on
/// the canvas, then its parameter binding.
pub open spec fn step_error(t: OperationTemplate, b: TemplateBindings, i: int) -> Option<ErrorCode> {
    let s = t.operations@[i];
    if s.params_slot@ != slot_name(i as nat) || s.target_slot@ != canvas_text() {
        Some(ErrorCode::InvalidArgument)
    } else {
        match operation_outcome(s.op@, s.op_version, canvas_text(), s.suggested_params@) {
            Err(c) => Some(c),
            Ok(_) => if entry_of(b.params@, slot_name(i as nat)) is None {
                Some(ErrorCode::InvalidArgument)
            } else {
                None
            },
        }
    }
}

pub open spec fn first_step_error(t: OperationTemplate, b: TemplateBindings, k: nat) -> Option<
    ErrorCode,
>
    decreases k,
{
    if k == 0 {
        None
    } else {
        match first_step_error(t, b, (k - 1) as nat) {
            Some(c) => Some(c),
            None => step_error(t, b, k - 1),
        }
    }
}

/// The refusal of binding `t` to `b`: the header, then each step in order, then the input
/// path.
pub open spec fn bind_error(t: OperationTemplate, b: TemplateBindings, limits: ResourceLimits) -> Option<
    ErrorCode,
> {
    match header_error(t, b, limits) {
        Some(c) => Some(c),
        None => match first_step_error(t, b, t.operations@.len()) {
            Some(c) => Some(c),
            None => if b.inputs@[0].1@.len() == 0 {
                Some(ErrorCode::InvalidArgument)
            } else {
                None
            },
        },
    }
}

/// What a successful binding yields: the input path text and one canvas step per template
/// step, with the template's operation and the bound parameters of its slot.
pub open spec fn bound(t: OperationTemplate, b: TemplateBindings, r: (String, Vec<OperationSpec>)) -> bool {
    &&& r.0@ == b.inputs@[0].1@
    &&& r.1@.len() == t.operations@.len()
    &&& forall|i: int|
        0 <= i < r.1@.len() ==> {
            &&& (#[trigger] r.1@[i]).op@ == t.operations@[i].op@
            &&& r.1@[i].op_version == t.operations@[i].op_version
            &&& r.1@[i].target.0@ == canvas_text()
            &&& r.1@[i].params@ == b.params@[entry_of(b.params@, slot_name(i as nat))->0].1@
        }
}

proof fn lemma_entry_is<V>(entries: Seq<(String, V)>, key: Seq<char>, i: int)
    requires
        0 <= i < entries.len(),
        entries[i].0@ == key,
        forall|j: int| 0 <= j < i ==> (#[trigger] entries[j]).0@ != key,
    ensures
        entry_of(entries, key) == Some(i),
{
    let c = choose|c: int|
        0 <= c < entries.len() && (#[trigger] entries[c]).0@ == key && forall|j: int|
            0 <= j < c ==> (#[trigger] entries[j]).0@ != key;
    if c < i {
        assert(entries[c].0@ != key);
    } else if c > i {
        assert(entries[i].0@ != key);
    }
}

fn find_entry<V>(entries: &Vec<(String, V)>, key: &str) -> (r: Option<usize>)
    ensures
        match r {
            Some(i) => entry_of(entries@, key@) == Some(i as int),
            None => entry_of(entries@, key@) is None,
        },
{
    let mut i: usize = 0;
    while i < entries.len()
        invariant
            i <= entries@.len(),
            forall|j: int| 0 <= j < i ==> (#[trigger] entries@[j]).0@ != key@,
        decreases entries@.len() - i,
    {
        if text_eq(entries[i].0.as_str(), key) {
            proof {
                lemma_entry_is(entries@, key@, i as int);
            }
            return Some(i);
        }
        i += 1;
    }
    None
}

proof fn lemma_first_step_sticky(t: OperationTemplate, b: TemplateBindings, i: nat, k: nat)
    requires
        i <= k,
        first_step_error(t, b, i) is Some,
    ensures
        first_step_error(t, b, k) == first_step_error(t, b, i),
    decreases k - i,
{
    if i < k {
        lemma_first_step_sticky(t, b, i, (k - 1) as nat);
    }
}

fn slot(i: usize) -> (s: String)
    requires
        i < usize::MAX,
    ensures
        s@ == slot_name(i as nat),
{
    proof {
        reveal_strlit("step_");
    }
    let mut s = String::from_str("step_");
    assert("step_"@ =~= seq!['s', 't', 'e', 'p', '_']);
    push_decimal(&mut s, (i + 1) as u64);
    s
}

fn invalid<T>(message: &str) -> (r: Result<T, PicError>)
    ensures
        r matches Err(e) && e.code == ErrorCode::InvalidArgument,
{
    Err(PicError::new(ErrorCode::InvalidArgument, message))
}

impl OperationTemplate {
    /// Bind the template to explicit bindings: the input path text and the canvas steps to
    /// run. Each step must validate with its suggested parameters; the bound parameters of
    /// its slot are what runs.
    pub fn bind(&self, bindings: &TemplateBindings, limits: &ResourceLimits) -> (r: Result<
        (String, Vec<OperationSpec>),
        PicError,
    >)
        ensures
            match r {
                Ok(v) => bind_error(*self, *bindings, *limits) is None && bound(*self, *bindings, v),
                Err(e) => bind_error(*self, *bindings, *limits) == Some(e.code),
            },
    {
        proof {
            reveal_strlit("input");
            reveal_strlit("canvas");
        }
        assert("input"@ =~= input_text());
        assert("canvas"@ =~= canvas_text());
        if self.schema_version != TEMPLATE_VERSION || bindings.schema_version != TEMPLATE_VERSION
            || !text_eq(self.pixel_semantics.as_str(), PIXEL_SEMANTICS) {
            return Err(
                PicError::new(
                    ErrorCode::UnsupportedVersion,
                    "unsupported template/bindings schema or pixel semantics",
                ),
            );
        }
        let n = self.operations.len();
        let shaped = text_eq(self.input_slot.as_str(), "input") && self.target_slots.len() == 1
            && text_eq(self.target_slots[0].as_str(), "canvas") && bindings.inputs.len() == 1
            && text_eq(bindings.inputs[0].0.as_str(), "input") && bindings.targets.len() == 1
            && text_eq(bindings.targets[0].0.as_str(), "canvas") && text_eq(
            bindings.targets[0].1.0.as_str(),
            "canvas",
        ) && bindings.params.len() == n;
        if !shaped {
            return invalid(
                "template requires explicit input, canvas target and every step parameter binding; extra bindings are rejected",
            );
        }
        if n > limits.max_operations {
            return Err(PicError::new(ErrorCode::ResourceLimit, "template exceeds operation limit"));
        }
        let mut operations: Vec<OperationSpec> = Vec::new();
        let mut i: usize = 0;
        while i < n
            invariant
                n == self.operations@.len(),
                "canvas"@ == canvas_text(),
                bindings.params@.len() == n,
                header_error(*self, *bindings, *limits) is None,
                i <= n,
                first_step_error(*self, *bindings, i as nat) is None,
                operations@.len() == i,
                forall|j: int|
                    0 <= j < i ==> {
                        &&& (#[trigger] operations@[j]).op@ == self.operations@[j].op@
                        &&& operations@[j].op_version == self.operations@[j].op_version
                        &&& operations@[j].target.0@ == canvas_text()
                        &&& entry_of(bindings.params@, slot_name(j as nat)) is Some
                        &&& operations@[j].params@ == bindings.params@[entry_of(
                            bindings.params@,
                            slot_name(j as nat),
                        )->0].1@
                    },
            decreases n - i,
        {
            let step = &self.operations[i];
            let name = slot(i);
            if !(step.params_slot == name) || !text_eq(step.target_slot.as_str(), "canvas") {
                proof {
                    lemma_first_step_sticky(*self, *bindings, (i + 1) as nat, n as nat);
                }
                return invalid("template slots must use canvas and ordered step_N parameters");
            }
            let checked = crate::operation::check_operation(
                step.op.as_str(),
                step.op_version,
                &bindings.targets[0].1,
                &step.suggested_params,
            );
            match checked {
                Err(e) => {
                    proof {
                        lemma_first_step_sticky(*self, *bindings, (i + 1) as nat, n as nat);
                    }
                    return Err(e);
                },
                Ok(operation) => {
                    if !operation.template_safe() {
                        return Err(
                            PicError::new(
                                ErrorCode::UnsupportedTemplate,
                                "template operation requires layer/asset/selection rebinding support",
                            ),
                        );
                    }
                },
            }
            let k = match find_entry(&bindings.params, name.as_str()) {
                Some(k) => k,
                None => {
                    proof {
                        lemma_first_step_sticky(*self, *bindings, (i + 1) as nat, n as nat);
                    }
                    let mut message = String::from_str("missing required parameter binding '");
                    message.append(name.as_str());
                    message.append("'");
                    return Err(PicError::new(ErrorCode::InvalidArgument, message.as_str()));
                },
            };
            operations.push(
                OperationSpec {
                    op: step.op.clone(),
                    op_version: step.op_version,
                    target: bindings.targets[0].1.clone(),
                    params: bindings.params[k].1.clone(),
                },
            );
            i += 1;
        }
        let input = &bindings.inputs[0].1;
        if input.unicode_len() == 0 {
            return invalid("input binding must name a file");
        }
        Ok((input.clone(), operations))
    }
}

/// Why a revision's steps cannot be exported as a template, if they cannot: every step must
/// read exactly the project's source asset and write none, and must be a canvas operation
/// that validates.
pub open spec fn export_error(source: AssetRef, steps: Seq<TemplateSource>, k: nat) -> Option<ErrorCode>
    decreases k,
{
    if k == 0 {
        None
    } else {
        match export_error(source, steps, (k - 1) as nat) {
            Some(c) => Some(c),
            None => {
                let s = steps[k - 1];
                if s.result_assets@.len() != 0 || !(s.input_assets@.len() == 1 && same_asset(
                    s.input_assets@[0],
                    source,
                )) {
                    Some(ErrorCode::UnsupportedTemplate)
                } else if s.operation.target.0@ != canvas_text() {
                    Some(ErrorCode::UnsupportedTemplate)
                } else {
                    match operation_outcome(
                        s.operation.op@,
                        s.operation.op_version,
                        s.operation.target.0@,
                        s.operation.params@,
                    ) {
                        Err(c) => Some(c),
                        Ok(_) => None,
                    }
                }
            },
        }
    }
}

proof fn lemma_export_sticky(source: AssetRef, steps: Seq<TemplateSource>, i: nat, k: nat)
    requires
        i <= k,
        export_error(source, steps, i) is Some,
    ensures
        export_error(source, steps, k) == export_error(source, steps, i),
    decreases k - i,
{
    if i < k {
        lemma_export_sticky(source, steps, i, (k - 1) as nat);
    }
}

impl OperationTemplate {
    /// The template of a revision's steps: each step becomes a canvas step with its own
    /// parameter slot `step_N`, its parameters kept as the suggestion.
    pub fn from_steps(source: &AssetRef, steps: &Vec<TemplateSource>) -> (r: Result<OperationTemplate, PicError>)
        requires
            steps@.len() < usize::MAX,
        ensures
            match r {
                Ok(t) => {
                    &&& export_error(*source, steps@, steps@.len() as nat) is None
                    &&& t.schema_version == TEMPLATE_VERSION
                    &&& t.pixel_semantics@ == PIXEL_SEMANTICS@
                    &&& t.input_slot@ == input_text()
                    &&& t.target_slots@.len() == 1 && t.target_slots@[0]@ == canvas_text()
                    &&& t.operations@.len() == steps@.len()
                    &&& forall|i: int|
                        0 <= i < steps@.len() ==> {
                            &&& (#[trigger] t.operations@[i]).op@ == steps@[i].operation.op@
                            &&& t.operations@[i].op_version == steps@[i].operation.op_version
                            &&& t.operations@[i].target_slot@ == canvas_text()
                            &&& t.operations@[i].params_slot@ == slot_name(i as nat)
                            &&& t.operations@[i].suggested_params@ == steps@[i].operation.params@
                        }
                },
                Err(e) => export_error(*source, steps@, steps@.len() as nat) == Some(e.code),
            },
    {
        proof {
            reveal_strlit("canvas");
            reveal_strlit("input");
        }
        assert("canvas"@ =~= canvas_text());
        assert("input"@ =~= input_text());
        let n = steps.len();
        let mut operations: Vec<TemplateStep> = Vec::new();
        let mut i: usize = 0;
        while i < n
            invariant
                n == steps@.len(),
                "canvas"@ == canvas_text(),
                n < usize::MAX,
                i <= n,
                export_error(*source, steps@, i as nat) is None,
                operations@.len() == i,
                forall|j: int|
                    0 <= j < i ==> {
                        &&& (#[trigger] operations@[j]).op@ == steps@[j].operation.op@
                        &&& operations@[j].op_version == steps@[j].operation.op_version
                        &&& operations@[j].target_slot@ == canvas_text()
                        &&& operations@[j].params_slot@ == slot_name(j as nat)
                        &&& operations@[j].suggested_params@ == steps@[j].operation.params@
                    },
            decreases n - i,
        {
            let step = &steps[i];
            let only_source = step.input_assets.len() == 1 && crate::project::history::asset_eq(
                &step.input_assets[0],
                source,
            );
            if step.result_assets.len() != 0 || !only_source {
                proof {
                    lemma_export_sticky(*source, steps@, (i + 1) as nat, n as nat);
                }
                return Err(
                    PicError::new(
                        ErrorCode::UnsupportedTemplate,
                        "asset-dependent operations require explicit rebinding support before template export",
                    ),
                );
            }
            let on_canvas = text_eq(step.operation.target.0.as_str(), "canvas");
            let checked = step.operation.validate();
            let safe = match &checked {
                Ok(operation) => operation.template_safe(),
                Err(_) => true,
            };
            if !on_canvas || !safe {
                proof {
                    lemma_export_sticky(*source, steps@, (i + 1) as nat, n as nat);
                }
                return Err(
                    PicError::new(
                        ErrorCode::UnsupportedTemplate,
                        "layers, masks, selections and composite require explicit rebinding support before template export",
                    ),
                );
            }
            match checked {
                Err(e) => {
                    proof {
                        lemma_export_sticky(*source, steps@, (i + 1) as nat, n as nat);
                    }
                    return Err(e);
                },
                Ok(_) => {},
            }
            operations.push(
                TemplateStep {
                    op: step.operation.op.clone(),
                    op_version: step.operation.op_version,
                    target_slot: String::from_str("canvas"),
                    params_slot: slot(i),
                    suggested_params: step.operation.params.clone(),
                },
            );
            i += 1;
        }
        let mut target_slots: Vec<String> = Vec::new();
        target_slots.push(String::from_str("canvas"));
        Ok(
            OperationTemplate {
                schema_version: TEMPLATE_VERSION,
                pixel_semantics: String::from_str(PIXEL_SEMANTICS),
                input_slot: String::from_str("input"),
                target_slots,
                operations,
            },
        )
    }
}

/// Whether `t` is the template that exporting `steps` gives (see `from_steps`).
pub open spec fn exported_from(t: OperationTemplate, steps: Seq<TemplateSource>) -> bool {
    &&& t.schema_version == TEMPLATE_VERSION
    &&& t.pixel_semantics@ == PIXEL_SEMANTICS@
    &&& t.input_slot@ == input_text()
    &&& t.target_slots@.len() == 1 && t.target_slots@[0]@ == canvas_text()
    &&& t.operations@.len() == steps.len()
    &&& forall|i: int|
        0 <= i < steps.len() ==> {
            &&& (#[trigger] t.operations@[i]).op@ == steps[i].operation.op@
            &&& t.operations@[i].op_version == steps[i].operation.op_version
            &&& t.operations@[i].target_slot@ == canvas_text()
            &&& t.operations@[i].params_slot@ == slot_name(i as nat)
            &&& t.operations@[i].suggested_params@ == steps[i].operation.params@
        }
}

proof fn lemma_exported_steps_bind(
    source: AssetRef,
    steps: Seq<TemplateSource>,
    t: OperationTemplate,
    b: TemplateBindings,
    k: nat,
)
    requires
        k <= steps.len(),
        export_error(source, steps, k) is None,
        exported_from(t, steps),
        forall|i: int| 0 <= i < steps.len() ==> entry_of(b.params@, #[trigger] slot_name(i as nat)) is Some,
    ensures
        first_step_error(t, b, k) is None,
    decreases k,
{
    if k > 0 {
        lemma_exported_steps_bind(source, steps, t, b, (k - 1) as nat);
        let i = k - 1;
        assert(t.operations@[i].op@ == steps[i].operation.op@);
        assert(entry_of(b.params@, slot_name(i as nat)) is Some);
    }
}

/// A template exported from a revision's steps binds back: with bindings that name the
/// input, target the canvas and give every `step_N` slot parameters, binding succeeds within
/// the operation limit, and yields the steps' own operations and versions on the canvas, with
/// the bound parameters.
pub proof fn exported_template_binds_back(
    source: AssetRef,
    steps: Seq<TemplateSource>,
    t: OperationTemplate,
    b: TemplateBindings,
    limits: ResourceLimits,
)
    requires
        export_error(source, steps, steps.len()) is None,
        exported_from(t, steps),
        b.schema_version == TEMPLATE_VERSION,
        b.inputs@.len() == 1 && b.inputs@[0].0@ == input_text() && b.inputs@[0].1@.len() > 0,
        b.targets@.len() == 1 && b.targets@[0].0@ == canvas_text() && b.targets@[0].1.0@ == canvas_text(),
        b.params@.len() == steps.len(),
        forall|i: int| 0 <= i < steps.len() ==> entry_of(b.params@, #[trigger] slot_name(i as nat)) is Some,
        steps.len() <= limits.max_operations,
    ensures
        bind_error(t, b, limits) is None,
        forall|r: (String, Vec<OperationSpec>)|
            #[trigger] bound(t, b, r) ==> r.1@.len() == steps.len() && forall|i: int|
                0 <= i < steps.len() ==> (#[trigger] r.1@[i]).op@ == steps[i].operation.op@
                    && r.1@[i].op_version == steps[i].operation.op_version && r.1@[i].target.0@ == canvas_text(),
{
    lemma_exported_steps_bind(source, steps, t, b, steps.len());
    assert forall|r: (String, Vec<OperationSpec>)| #[trigger] bound(t, b, r) implies r.1@.len() == steps.len()
        && forall|i: int|
        0 <= i < steps.len() ==> (#[trigger] r.1@[i]).op@ == steps[i].operation.op@ && r.1@[i].op_version
            == steps[i].operation.op_version && r.1@[i].target.0@ == canvas_text() by {
        assert forall|i: int| 0 <= i < steps.len() implies (#[trigger] r.1@[i]).op@ == steps[i].operation.op@
            && r.1@[i].op_version == steps[i].operation.op_version && r.1@[i].target.0@ == canvas_text() by {
            assert(t.operations@[i].op@ == steps[i].operation.op@);
        }
    }
}

} // verus!
