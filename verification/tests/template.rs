use pic_core::document::TargetId;
use pic_core::limits::ResourceLimits;
use pic_core::operation::params::Params;
use pic_core::operation::OperationSpec;
use pic_core::project::history::AssetRef;
use pic_core::project::storage::hash;
use pic_core::project::template::{OperationTemplate, TemplateBindings, TemplateSource};
use pic_core::ErrorCode;

fn empty() -> Params {
    Params::empty()
}

fn source() -> AssetRef {
    AssetRef { sha256: hash(b"source"), bytes: 6 }
}

fn step() -> TemplateSource {
    TemplateSource { operation: OperationSpec::identity(), input_assets: vec![source()], result_assets: vec![] }
}

fn bindings(count: usize) -> TemplateBindings {
    TemplateBindings {
        schema_version: 1,
        inputs: vec![("input".into(), "photos/in.png".into())],
        targets: vec![("canvas".into(), TargetId::canvas())],
        params: (1..=count).map(|n| (format!("step_{n}"), empty())).collect(),
    }
}

#[test]
fn exported_templates_bind_back_to_their_steps() {
    let template = OperationTemplate::from_steps(&source(), &vec![step(), step()]).unwrap();
    assert_eq!(template.input_slot, "input");
    assert_eq!(template.target_slots, ["canvas"]);
    let slots: Vec<&str> = template.operations.iter().map(|s| s.params_slot.as_str()).collect();
    assert_eq!(slots, ["step_1", "step_2"]);
    let limits = ResourceLimits::default();
    let (input, operations) = template.bind(&bindings(2), &limits).unwrap();
    assert_eq!(input, "photos/in.png");
    assert_eq!(operations.len(), 2);
    for op in &operations {
        assert_eq!(op.op, "identity");
        assert_eq!(op.target.0, "canvas");
        assert!(op.validate().is_ok());
    }
}

#[test]
fn templates_require_explicit_complete_bindings() {
    let template = OperationTemplate::from_steps(&source(), &vec![step()]).unwrap();
    let limits = ResourceLimits::default();
    let mut extra = bindings(1);
    extra.params.push(("step_2".into(), empty()));
    assert_eq!(template.bind(&extra, &limits).unwrap_err().code, ErrorCode::InvalidArgument);
    let mut renamed = bindings(1);
    renamed.params[0].0 = "step_9".into();
    let e = template.bind(&renamed, &limits).unwrap_err();
    assert_eq!(e.code, ErrorCode::InvalidArgument);
    assert_eq!(e.message, "missing required parameter binding 'step_1'");
    let mut no_input = bindings(1);
    no_input.inputs[0].1 = String::new();
    assert_eq!(template.bind(&no_input, &limits).unwrap_err().code, ErrorCode::InvalidArgument);
    let mut layer_target = bindings(1);
    layer_target.targets[0].1 = TargetId("base".into());
    assert_eq!(template.bind(&layer_target, &limits).unwrap_err().code, ErrorCode::InvalidArgument);
    let mut future = bindings(1);
    future.schema_version = 2;
    assert_eq!(template.bind(&future, &limits).unwrap_err().code, ErrorCode::UnsupportedVersion);
    let tight = ResourceLimits { max_operations: 0, ..ResourceLimits::default() };
    assert_eq!(template.bind(&bindings(1), &tight).unwrap_err().code, ErrorCode::ResourceLimit);
    let mut misordered = template.clone();
    misordered.operations[0].params_slot = "step_0".into();
    assert_eq!(misordered.bind(&bindings(1), &limits).unwrap_err().code, ErrorCode::InvalidArgument);
    let mut unknown = template.clone();
    unknown.operations[0].op = "despeckle".into();
    assert_eq!(unknown.bind(&bindings(1), &limits).unwrap_err().code, ErrorCode::UnknownOperation);
}

#[test]
fn asset_dependent_or_layer_steps_do_not_export() {
    let mut with_result = step();
    with_result.result_assets.push(source());
    assert_eq!(
        OperationTemplate::from_steps(&source(), &vec![step(), with_result]).unwrap_err().code,
        ErrorCode::UnsupportedTemplate
    );
    let mut layer = step();
    layer.operation.target = TargetId("base".into());
    assert_eq!(OperationTemplate::from_steps(&source(), &vec![layer]).unwrap_err().code, ErrorCode::UnsupportedTemplate);
    let mut unknown = step();
    unknown.operation.op = "posterize".into();
    assert_eq!(OperationTemplate::from_steps(&source(), &vec![unknown]).unwrap_err().code, ErrorCode::UnknownOperation);
    let none = OperationTemplate::from_steps(&source(), &vec![]).unwrap();
    assert!(none.operations.is_empty());
}
