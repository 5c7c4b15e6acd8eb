use pic_core::capabilities::Support;
use pic_core::codec::encoding::{EncodeOptions, Format};
use pic_core::document::TargetId;
use pic_core::limits::ResourceLimits;
use pic_core::operation::geometry::RgbaColor;
use pic_core::operation::geometry::{Anchor, CanvasParams, CropParams, FlipAxis, FlipParams, Interpolation, ResizeParams};
use pic_core::operation::params::{ParamValue, Params};
use pic_core::operation::adjustments::Channel;
use pic_core::operation::decimal::number_in_tenths;
use pic_core::operation::{check_operation, validate_steps, Adjustment, AdjustmentStep, Operation, OperationSpec, RotateStep};
use pic_core::pipeline::{check_pipeline, executed_steps, ResourceResolver};
use pic_core::{ErrorCode, PicError};
use std::path::Path;

#[test]
fn encoding_options_do_not_ignore_invalid_parameters() {
    assert_eq!(
        EncodeOptions {
            format: None,
            jpeg_quality: Some(90),
            ..EncodeOptions::default()
        }
        .resolve("out.png")
        .unwrap_err()
        .code,
        ErrorCode::InvalidArgument
    );
    assert_eq!(
        EncodeOptions {
            format: None,
            jpeg_quality: Some(0),
            ..EncodeOptions::default()
        }
        .resolve("out.jpg")
        .unwrap_err()
        .code,
        ErrorCode::InvalidArgument
    );
    assert_eq!(
        EncodeOptions::default()
            .resolve("out.webp")
            .unwrap_err()
            .code,
        ErrorCode::UnsupportedFormat
    );
    assert_eq!(
        EncodeOptions {
            format: Some(Format::Png),
            jpeg_quality: None,
            ..EncodeOptions::default()
        }
        .resolve("out.data")
        .unwrap()
        .format,
        Format::Png
    );
}

#[test]
fn encoding_defaults_follow_the_extension_case_insensitively() {
    let png = EncodeOptions::default().resolve("result.PNG").unwrap();
    assert_eq!(png.format, Format::Png);
    assert_eq!(png.jpeg_quality, None);
    let jpeg = EncodeOptions::default().resolve("result.Jpeg").unwrap();
    assert_eq!(jpeg.format, Format::Jpeg);
    assert_eq!(jpeg.jpeg_quality, Some(90));
    assert_eq!(
        EncodeOptions::default().resolve("result").unwrap_err().code,
        ErrorCode::UnsupportedFormat
    );
    assert_eq!(
        EncodeOptions { png_compression: Some(3), ..EncodeOptions::default() }
            .resolve("x.jpg")
            .unwrap_err()
            .code,
        ErrorCode::InvalidArgument
    );
    let background = RgbaColor::parse("#ff0000").unwrap();
    assert_eq!(background.0, [255, 0, 0, 255]);
}

#[test]
fn format_names_parse_case_insensitively() {
    assert_eq!(Format::parse("PNG").unwrap(), Format::Png);
    assert_eq!(Format::parse("jpg").unwrap(), Format::Jpeg);
    assert_eq!(Format::parse("JPEG").unwrap(), Format::Jpeg);
    assert_eq!(Format::parse("gif").unwrap_err().code, ErrorCode::UnsupportedFormat);
    let parsed: Format = "Jpg".parse().unwrap();
    assert_eq!(parsed, Format::Jpeg);
}

#[test]
fn colors_parse_six_and_eight_hex_digits() {
    assert_eq!(RgbaColor::parse("#0a0B0c").unwrap().0, [10, 11, 12, 255]);
    assert_eq!(RgbaColor::parse("#01020304").unwrap().0, [1, 2, 3, 4]);
    for bad in ["", "#12345", "123456", "#12345g", "#1234567"] {
        assert_eq!(RgbaColor::parse(bad).unwrap_err().code, ErrorCode::InvalidArgument, "{bad}");
    }
}

#[test]
fn default_limits_admit_and_refuse_dimensions() {
    let limits = ResourceLimits::default();
    assert_eq!(limits.max_dimension, 32_768);
    assert_eq!(limits.check_dimensions(640, 480).unwrap(), 307_200);
    assert_eq!(limits.check_dimensions(0, 5).unwrap_err().code, ErrorCode::InvalidArgument);
    assert_eq!(limits.check_dimensions(32_769, 1).unwrap_err().code, ErrorCode::ResourceLimit);
    assert_eq!(limits.check_dimensions(10_000, 10_000).unwrap_err().code, ErrorCode::ResourceLimit);
}

#[test]
fn errors_keep_their_codes_and_messages() {
    let e = PicError::new(ErrorCode::OutputExists, "exists");
    assert_eq!(e.code, ErrorCode::OutputExists);
    assert_eq!(e.message, "exists");
    let missing = PicError::io(
        "read input",
        Path::new("missing.png"),
        std::io::Error::from(std::io::ErrorKind::NotFound),
    );
    assert_eq!(missing.code, ErrorCode::FileNotFound);
    assert!(missing.message.contains("missing.png"));
    let expected = format!("read input 'missing.png': {}", std::io::Error::from(std::io::ErrorKind::NotFound));
    assert_eq!(missing.message, expected);
    let exists = PicError::io(
        "publish output",
        Path::new("out.png"),
        std::io::Error::from(std::io::ErrorKind::AlreadyExists),
    );
    assert_eq!(exists.code, ErrorCode::OutputExists);
    let other = PicError::io(
        "write",
        Path::new("out.png"),
        std::io::Error::from(std::io::ErrorKind::PermissionDenied),
    );
    assert_eq!(other.code, ErrorCode::IoError);
}

fn number(n: &str) -> ParamValue {
    ParamValue::Number(n.into())
}

fn text(t: &str) -> ParamValue {
    ParamValue::Text(t.into())
}

fn object(fields: Vec<(&str, ParamValue)>) -> Params {
    Params::Object(fields.into_iter().map(|(k, v)| (k.to_string(), v)).collect())
}

fn spec(op: &str, params: Params) -> OperationSpec {
    OperationSpec { op: op.into(), op_version: 1, target: TargetId::canvas(), params }
}

fn crop_fields(x: &str) -> Vec<(&'static str, ParamValue)> {
    vec![("x", number(x)), ("y", number("0")), ("width", number("2")), ("height", number("2"))]
}

#[test]
fn identity_operation_rules_are_checked_in_order() {
    let canvas = TargetId::canvas();
    assert_eq!(canvas.0, "canvas");
    let empty = Params::empty();
    let x = object(vec![("x", number("1"))]);
    assert_eq!(check_operation("identity", 1, &canvas, &empty).unwrap(), Operation::Identity);
    assert_eq!(
        check_operation("future-op", 1, &canvas, &x).unwrap_err().code,
        ErrorCode::UnknownOperation
    );
    let e = check_operation("identity", 2, &canvas, &empty).unwrap_err();
    assert_eq!(e.code, ErrorCode::UnsupportedVersion);
    assert_eq!(e.message, "unsupported identity op_version 2; expected 1");
    assert_eq!(
        check_operation("identity", 1, &TargetId("base".into()), &empty).unwrap_err().code,
        ErrorCode::InvalidTarget
    );
    assert_eq!(
        check_operation("identity", 1, &canvas, &x).unwrap_err().code,
        ErrorCode::InvalidArgument
    );
}

#[test]
fn operation_specs_validate_their_json_parameters() {
    let identity = OperationSpec::identity();
    assert_eq!(identity.op, "identity");
    assert_eq!(identity.op_version, 1);
    assert_eq!(identity.validate().unwrap(), Operation::Identity);
    let with_params = OperationSpec { params: object(vec![("x", number("1"))]), ..OperationSpec::identity() };
    assert_eq!(with_params.validate().unwrap_err().code, ErrorCode::InvalidArgument);
    let not_object = OperationSpec { params: Params::Other("[]".into()), ..OperationSpec::identity() };
    assert_eq!(not_object.validate().unwrap_err().code, ErrorCode::InvalidArgument);
    let unknown = OperationSpec {
        op: "sepia".into(),
        params: object(vec![("x", number("1"))]),
        ..OperationSpec::identity()
    };
    assert_eq!(unknown.validate().unwrap_err().code, ErrorCode::UnknownOperation);
}

#[test]
fn geometry_steps_validate_to_their_typed_parameters() {
    assert_eq!(
        spec("crop", object(crop_fields("1"))).validate().unwrap(),
        Operation::Crop(CropParams { x: 1, y: 0, width: 2, height: 2 })
    );
    assert_eq!(
        spec("crop", object(crop_fields("-1"))).validate().unwrap_err().code,
        ErrorCode::InvalidArgument
    );
    let mut extra = crop_fields("1");
    extra.push(("z", number("0")));
    assert_eq!(spec("crop", object(extra)).validate().unwrap_err().code, ErrorCode::InvalidArgument);
    assert_eq!(
        spec("crop", object(crop_fields("4294967295"))).validate().unwrap_err().code,
        ErrorCode::InvalidArgument
    );
    assert_eq!(
        spec("future-op", object(crop_fields("1"))).validate().unwrap_err().code,
        ErrorCode::UnknownOperation
    );
    assert_eq!(
        spec("resize", object(vec![("width", number("6")), ("height", number("2")), ("filter", text("nearest"))]))
            .validate()
            .unwrap(),
        Operation::Resize(ResizeParams { width: Some(6), height: Some(2), filter: Interpolation::Nearest })
    );
    assert_eq!(
        spec("resize", object(vec![("width", number("1")), ("height", ParamValue::Null), ("filter", text("bilinear"))]))
            .validate()
            .unwrap(),
        Operation::Resize(ResizeParams { width: Some(1), height: None, filter: Interpolation::Bilinear })
    );
    for bad in [
        vec![("filter", text("nearest"))],
        vec![("width", number("0")), ("filter", text("nearest"))],
        vec![("width", number("1")), ("filter", text("lanczos3"))],
        vec![("width", number("1"))],
        vec![("width", number("1")), ("filter", text("nearest")), ("ignored", number("1"))],
        vec![("width", number("1.5")), ("filter", text("nearest"))],
    ] {
        assert_eq!(spec("resize", object(bad)).validate().unwrap_err().code, ErrorCode::InvalidArgument);
    }
    assert_eq!(
        spec("flip", object(vec![("axis", text("vertical"))])).validate().unwrap(),
        Operation::Flip(FlipParams { axis: FlipAxis::Vertical })
    );
    assert_eq!(
        spec("flip", object(vec![("axis", text("both"))])).validate().unwrap_err().code,
        ErrorCode::InvalidArgument
    );
    let background = ParamValue::Numbers(vec!["255".into(), "0".into(), "0".into(), "128".into()]);
    assert_eq!(
        spec(
            "canvas",
            object(vec![
                ("width", number("3")),
                ("height", number("3")),
                ("anchor", text("bottom_right")),
                ("background", background),
            ])
        )
        .validate()
        .unwrap(),
        Operation::Canvas(CanvasParams {
            width: 3,
            height: 3,
            anchor: Anchor::BottomRight,
            background: pic_core::operation::geometry::RgbaColor([255, 0, 0, 128]),
        })
    );
    let middle = object(vec![
        ("width", number("1")),
        ("height", number("1")),
        ("anchor", text("middle")),
        ("background", ParamValue::Numbers(vec!["0".into(); 4])),
    ]);
    assert_eq!(spec("canvas", middle).validate().unwrap_err().code, ErrorCode::InvalidArgument);
    let rotate = |degrees: ParamValue, alpha: &str| {
        object(vec![
            ("degrees", degrees),
            ("expand", ParamValue::Bool(true)),
            ("filter", text("nearest")),
            ("background", ParamValue::Numbers(vec!["0".into(), "0".into(), "0".into(), alpha.into()])),
        ])
    };
    assert_eq!(
        spec("rotate", rotate(number("90.0"), "0")).validate().unwrap(),
        Operation::Rotate(RotateStep {
            degrees: "90.0".into(),
            expand: true,
            filter: Interpolation::Nearest,
            background: pic_core::operation::geometry::RgbaColor([0, 0, 0, 0]),
        })
    );
    assert_eq!(
        spec("rotate", rotate(ParamValue::Null, "0")).validate().unwrap_err().code,
        ErrorCode::InvalidArgument
    );
    assert_eq!(
        spec("rotate", rotate(number("45"), "256")).validate().unwrap_err().code,
        ErrorCode::InvalidArgument
    );
}

#[test]
fn pipeline_steps_are_validated_in_order_with_their_position() {
    let steps = vec![
        spec("resize", object(vec![("width", number("1")), ("height", number("1")), ("filter", text("nearest"))])),
        spec("crop", object(crop_fields("1"))),
    ];
    assert_eq!(validate_steps(&steps).unwrap().len(), 2);
    let bad = vec![OperationSpec::identity(), spec("crop", object(crop_fields("-1")))];
    let e = validate_steps(&bad).unwrap_err();
    assert_eq!(e.code, ErrorCode::InvalidArgument);
    assert!(e.message.starts_with("operations[1]:"));
    let unknown = vec![spec("future-op", Params::empty())];
    let e = validate_steps(&unknown).unwrap_err();
    assert_eq!(e.code, ErrorCode::UnknownOperation);
    assert_eq!(e.message, "operations[0]: operation 'future-op' is not implemented");
}

#[test]
fn pipeline_header_rules() {
    let limits = ResourceLimits::default();
    assert!(check_pipeline(Some(10), 1, 3, &limits).is_ok());
    assert!(check_pipeline(None, 1, 10_000, &limits).is_ok());
    let e = check_pipeline(None, 2, 1, &limits).unwrap_err();
    assert_eq!(e.code, ErrorCode::UnsupportedVersion);
    assert_eq!(e.message, "unsupported pipeline schema_version 2; expected 1");
    assert_eq!(check_pipeline(None, 1, 10_001, &limits).unwrap_err().code, ErrorCode::ResourceLimit);
    assert_eq!(
        check_pipeline(Some(1024 * 1024 + 1), 2, 1, &limits).unwrap_err().code,
        ErrorCode::ResourceLimit
    );
}

#[test]
fn executed_steps_keep_every_logical_boundary_in_order() {
    let steps = vec![OperationSpec::identity(), OperationSpec::identity(), OperationSpec::identity()];
    let record = executed_steps(&steps);
    assert_eq!(record.len(), 3);
    for (i, step) in record.iter().enumerate() {
        assert_eq!(step.index, i);
        assert_eq!(step.op, "identity");
        assert_eq!(step.op_version, 1);
        assert_eq!(step.target.0, "canvas");
    }
}

#[test]
fn resources_resolve_relative_to_the_pipeline_directory() {
    assert_eq!(
        ResourceResolver::from_canonical("/data/pipelines".into(), false).unwrap_err().code,
        ErrorCode::InvalidArgument
    );
    let resolver = ResourceResolver::from_canonical("/data/pipelines".into(), true).unwrap();
    assert_eq!(resolver.base_dir(), "/data/pipelines");
    assert_eq!(resolver.resolve("assets/input.png").unwrap(), "/data/pipelines/assets/input.png");
    assert_eq!(resolver.resolve("../shared/mask.png").unwrap(), "/data/pipelines/../shared/mask.png");
    assert_eq!(resolver.resolve("/abs/file.png").unwrap(), "/abs/file.png");
    assert_eq!(resolver.resolve("").unwrap_err().code, ErrorCode::InvalidArgument);
}

#[test]
fn resources_join_without_doubling_the_separator() {
    let root = ResourceResolver::from_canonical("/".into(), true).unwrap();
    assert_eq!(root.resolve("a.png").unwrap(), "/a.png");
    let slashed = ResourceResolver::from_canonical("/data/".into(), true).unwrap();
    assert_eq!(slashed.resolve("b.png").unwrap(), "/data/b.png");
    assert_eq!(
        slashed.resolve("b.png").unwrap(),
        std::path::Path::new("/data/").join("b.png").to_string_lossy()
    );
}

#[test]
fn output_extensions_are_read_from_the_file_name() {
    let resolve = |path: &str| EncodeOptions::default().resolve(path);
    assert_eq!(resolve("photos/out.jpg").unwrap().format, Format::Jpeg);
    assert_eq!(resolve("photos.png/out.jpeg").unwrap().format, Format::Jpeg);
    assert_eq!(resolve("dir/out.png/").unwrap().format, Format::Png);
    assert_eq!(resolve("dir/out.PNG/.").unwrap().format, Format::Png);
    assert_eq!(resolve("archive.tar.png").unwrap().format, Format::Png);
    for refused in [".png", "dir/.png", "photo.", "photo", "dir.png/..", "", "/", ".", "png"] {
        assert_eq!(resolve(refused).unwrap_err().code, ErrorCode::UnsupportedFormat, "{refused}");
    }
    for (path, expected) in [("a/b.c", Some("c")), (".bashrc", None), ("x/..y", Some("y")), ("a.", Some(""))] {
        assert_eq!(
            std::path::Path::new(path).extension().and_then(|e| e.to_str()),
            expected,
            "{path}"
        );
    }
}

#[test]
fn photo_adjustments_validate_their_fields_and_keep_the_numbers() {
    let adjust = object(vec![
        ("exposure", number("1")),
        ("brightness", number("0")),
        ("contrast", number("1")),
        ("saturation", number("1.5")),
    ]);
    assert_eq!(
        spec("adjust", adjust).validate().unwrap(),
        Operation::Adjustment(AdjustmentStep {
            kind: Adjustment::Adjust,
            channel: None,
            values: vec!["1".into(), "0".into(), "1".into(), "1.5".into()],
            points: vec![],
        })
    );
    let missing = object(vec![("exposure", number("1")), ("brightness", number("0")), ("contrast", number("1"))]);
    assert_eq!(spec("adjust", missing).validate().unwrap_err().code, ErrorCode::InvalidArgument);
    let curves = object(vec![
        ("channel", text("red")),
        ("points", ParamValue::Pairs(vec![("0".into(), "0".into()), ("1".into(), "0.5".into())])),
    ]);
    assert_eq!(
        spec("curves", curves).validate().unwrap(),
        Operation::Adjustment(AdjustmentStep {
            kind: Adjustment::Curves,
            channel: Some(Channel::Red),
            values: vec![],
            points: vec![("0".into(), "0".into()), ("1".into(), "0.5".into())],
        })
    );
    let one_point = object(vec![("channel", text("rgb")), ("points", ParamValue::Pairs(vec![("0".into(), "0".into())]))]);
    assert_eq!(spec("curves", one_point).validate().unwrap_err().code, ErrorCode::InvalidArgument);
    let alpha = object(vec![("channel", text("alpha")), ("points", ParamValue::Pairs(vec![("0".into(), "0".into()); 2]))]);
    assert_eq!(spec("curves", alpha).validate().unwrap_err().code, ErrorCode::InvalidArgument);
    assert!(matches!(spec("grayscale", Params::empty()).validate().unwrap(), Operation::Adjustment(_)));
    assert_eq!(
        spec("invert", object(vec![("amount", number("1"))])).validate().unwrap_err().code,
        ErrorCode::InvalidArgument
    );
    assert_eq!(
        spec("sharpen", object(vec![("sigma", number("1")), ("amount", text("1"))])).validate().unwrap_err().code,
        ErrorCode::InvalidArgument
    );
    assert!(spec("blur", object(vec![("sigma", number("2"))])).validate().is_ok());
    let levels = object(vec![
        ("channel", text("green")),
        ("input_black", number("0")),
        ("input_white", number("1")),
        ("gamma", number("2.2")),
        ("output_black", number("0")),
        ("output_white", number("1")),
    ]);
    assert!(spec("levels", levels).validate().is_ok());
}

#[test]
fn json_numbers_are_compared_exactly_with_ranges() {
    for inside in ["360", "-360", "360.0", "3.6e2", "36E1", "0", "-0.0", "1e-7", "359.99999999999999999999", "0.36e3", "36000e-2"] {
        assert!(number_in_tenths(inside, -3600, 3600), "{inside}");
    }
    for outside in ["361", "-360.1", "360.00000000000000000001", "1e3", "3.6000001e2", "1e400", "-1e21"] {
        assert!(!number_in_tenths(outside, -3600, 3600), "{outside}");
    }
    for malformed in ["", "-", "+1", "1.", ".5", "1e", "1e+", "0x10", "NaN", "inf", "1..2", "1e2.5"] {
        assert!(!number_in_tenths(malformed, -3600, 3600), "{malformed}");
    }
    assert!(number_in_tenths("0.1", 1, 100));
    assert!(!number_in_tenths("0.09", 1, 100));
    assert!(!number_in_tenths("1e-400", 0, 0));
    assert!(number_in_tenths("1e-400", 0, 10));
    assert!(number_in_tenths("-0e5", 0, 0));
    assert!(!number_in_tenths("1e-400", 1, 10));
}

#[test]
fn geometry_and_adjustment_numbers_must_lie_in_their_ranges() {
    let rotate = |degrees: &str| {
        object(vec![
            ("degrees", number(degrees)),
            ("expand", ParamValue::Bool(true)),
            ("filter", text("nearest")),
            ("background", ParamValue::Numbers(vec!["0".into(); 4])),
        ])
    };
    assert!(spec("rotate", rotate("-360")).validate().is_ok());
    assert_eq!(spec("rotate", rotate("361")).validate().unwrap_err().code, ErrorCode::InvalidArgument);
    assert_eq!(spec("rotate", rotate("-360.5")).validate().unwrap_err().code, ErrorCode::InvalidArgument);
    assert_eq!(
        spec("blur", object(vec![("sigma", number("100.1"))])).validate().unwrap_err().code,
        ErrorCode::InvalidArgument
    );
    assert_eq!(
        spec("adjust", object(vec![
            ("exposure", number("21")),
            ("brightness", number("0")),
            ("contrast", number("1")),
            ("saturation", number("1")),
        ]))
        .validate()
        .unwrap_err()
        .code,
        ErrorCode::InvalidArgument
    );
    let curve = |first: &str, last: &str| {
        object(vec![
            ("channel", text("rgb")),
            ("points", ParamValue::Pairs(vec![(first.into(), "0".into()), (last.into(), "1".into())])),
        ])
    };
    assert!(spec("curves", curve("0", "1")).validate().is_ok());
    assert_eq!(spec("curves", curve("0.1", "1")).validate().unwrap_err().code, ErrorCode::InvalidArgument);
    assert_eq!(spec("curves", curve("0", "0.9")).validate().unwrap_err().code, ErrorCode::InvalidArgument);
}

#[test]
fn capabilities_list_every_operation_the_dispatcher_accepts() {
    let ops = pic_core::capabilities::operation_capabilities();
    assert_eq!(ops.len(), 30);
    assert_eq!(ops[0].op, "identity");
    let names: Vec<&str> = ops.iter().take(13).map(|o| o.op).collect();
    assert_eq!(
        names,
        ["identity", "crop", "resize", "rotate", "flip", "canvas", "adjust", "levels", "curves", "grayscale", "invert", "blur", "sharpen"]
    );
    for o in &ops {
        assert_eq!(o.op_version, 1);
    }
    for o in ops.iter().take(13) {
        assert_eq!(o.targets, ["canvas"]);
        assert_ne!(check_operation(o.op, 1, &TargetId::canvas(), &Params::Other("null".into())).unwrap_err().code, ErrorCode::UnknownOperation);
    }
    assert_eq!(pic_core::capabilities::commands().len(), 25);
    let items = pic_core::capabilities::capability_list();
    for status in [Support::Supported, Support::Partial, Support::NotImplemented] {
        assert!(items.iter().any(|c| c.status == status));
    }
    let smart = items.iter().find(|c| c.id == "smart_editing").unwrap();
    assert_eq!(smart.status, Support::NotImplemented);
    assert_eq!(smart.scope, "roadmap");

}

fn round_trip(op: &str, params: Params) {
    let first = spec(op, params.clone()).validate().unwrap();
    let normal = first.to_spec();
    assert_eq!(normal.op, op);
    assert_eq!(normal.op_version, 1);
    assert_eq!(normal.target.0, "canvas");
    assert_eq!(normal.validate().unwrap(), first);
    assert!(normal.check_committed().is_ok());
}

#[test]
fn normal_form_validates_back_to_the_same_operation() {
    round_trip("identity", object(vec![]));
    round_trip("crop", object(crop_fields("3")));
    round_trip("resize", object(vec![("width", number("6")), ("height", ParamValue::Null), ("filter", text("nearest"))]));
    round_trip("flip", object(vec![("axis", text("vertical"))]));
    round_trip(
        "rotate",
        object(vec![
            ("degrees", number("-12.5")),
            ("expand", ParamValue::Bool(true)),
            ("filter", text("bilinear")),
            ("background", ParamValue::Numbers(vec!["255".into(), "0".into(), "0".into(), "128".into()])),
        ]),
    );
    round_trip(
        "canvas",
        object(vec![
            ("width", number("10")),
            ("height", number("4")),
            ("anchor", text("bottom_right")),
            ("background", ParamValue::Numbers(vec!["0".into(); 4])),
        ]),
    );
    round_trip(
        "levels",
        object(vec![
            ("channel", text("green")),
            ("input_black", number("0")),
            ("input_white", number("1")),
            ("gamma", number("1.2")),
            ("output_black", number("0")),
            ("output_white", number("1")),
        ]),
    );
    round_trip(
        "curves",
        object(vec![
            ("channel", text("rgb")),
            ("points", ParamValue::Pairs(vec![("0".into(), "0".into()), ("1".into(), "0.5".into())])),
        ]),
    );
    round_trip("sharpen", object(vec![("sigma", number("2")), ("amount", number("0.5"))]));
}

#[test]
fn normal_form_writes_every_parameter_explicitly() {
    let resize = spec("resize", object(vec![("width", number("6")), ("filter", text("nearest"))])).validate().unwrap();
    let normal = resize.to_spec();
    match normal.params {
        Params::Object(fields) => {
            let names: Vec<&str> = fields.iter().map(|(k, _)| k.as_str()).collect();
            assert_eq!(names, vec!["width", "height", "filter"]);
            assert!(matches!(&fields[0].1, ParamValue::Number(t) if t == "6"));
            assert!(matches!(fields[1].1, ParamValue::Null));
        }
        Params::Other(_) => panic!("normal parameters are an object"),
    }
}

#[test]
fn committed_steps_must_be_written_in_normal_form() {
    let absent = spec("resize", object(vec![("width", number("6")), ("filter", text("nearest"))]));
    assert!(absent.validate().is_ok());
    assert_eq!(absent.check_committed().unwrap_err().code, ErrorCode::InvalidArgument);
    let explicit =
        spec("resize", object(vec![("filter", text("nearest")), ("height", ParamValue::Null), ("width", number("6"))]));
    assert!(explicit.check_committed().is_ok());
    let padded = spec("crop", object(vec![("x", number("03")), ("y", number("0")), ("width", number("2")), ("height", number("2"))]));
    if padded.validate().is_ok() {
        assert_eq!(padded.check_committed().unwrap_err().code, ErrorCode::InvalidArgument);
    }
    assert_eq!(spec("blend", object(vec![])).check_committed().unwrap_err().code, ErrorCode::UnknownOperation);
    assert_eq!(
        spec("crop", object(crop_fields("x"))).check_committed().unwrap_err().code,
        ErrorCode::InvalidArgument
    );
}
