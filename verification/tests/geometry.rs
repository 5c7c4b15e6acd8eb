use pic_core::limits::ResourceLimits;
use pic_core::operation::geometry::{
    Anchor, CanvasParams, CropParams, FlipAxis, FlipParams, Interpolation, ResizeParams, RgbaColor,
};
use pic_core::operation::grid::{canvas, crop, flip, resize, rotate_orthogonal, Resized};
use pic_core::document::TargetId;
use pic_core::operation::params::{ParamValue, Params};
use pic_core::operation::{Operation, OperationSpec};
use pic_core::ErrorCode;

fn labeled() -> Vec<[f32; 4]> {
    (0..6)
        .map(|n| [n as f32 + 0.123_456_79, -0.0, -7.125, n as f32 / 5.0])
        .collect()
}

fn assert_labels(actual: &[[f32; 4]], expected: &[usize]) {
    let original = labeled();
    assert_eq!(actual.len(), expected.len());
    for (pixel, &label) in actual.iter().zip(expected) {
        assert_eq!(pixel.map(f32::to_bits), original[label].map(f32::to_bits));
    }
}

fn resize_params(width: Option<u32>, height: Option<u32>) -> ResizeParams {
    ResizeParams { width, height, filter: Interpolation::Nearest }
}

#[test]
fn resize_aspect_ratio_rounding_minimum_dimension_and_overflow_are_explicit() {
    for (params, input, expected) in [
        (resize_params(Some(1), None), (2, 3), (1, 2)),
        (resize_params(None, Some(1)), (3, 2), (2, 1)),
        (resize_params(Some(1), None), (100, 1), (1, 1)),
        (resize_params(Some(3), Some(9)), (2, 3), (3, 9)),
    ] {
        assert_eq!(params.dimensions(input.0, input.1).unwrap(), expected);
    }
    let p = resize_params(Some(4294967295), None);
    assert_eq!(p.dimensions(1, 2).unwrap_err().code, ErrorCode::ResourceLimit);
}

#[test]
fn canvas_nine_anchors_padding_clipping_and_odd_center_offsets() {
    let limits = ResourceLimits::default();
    let original = [0.25, 2.123_456_7, -0.0, 0.0];
    let background = [1.0, 0.0, 0.0, 128.0 / 255.0];
    for (anchor, x, y) in [
        (Anchor::TopLeft, 0, 0),
        (Anchor::Top, 1, 0),
        (Anchor::TopRight, 2, 0),
        (Anchor::Left, 0, 1),
        (Anchor::Center, 1, 1),
        (Anchor::Right, 2, 1),
        (Anchor::BottomLeft, 0, 2),
        (Anchor::Bottom, 1, 2),
        (Anchor::BottomRight, 2, 2),
    ] {
        let p = CanvasParams { width: 3, height: 3, anchor, background: RgbaColor([255, 0, 0, 128]) };
        let result = canvas(&vec![original], 1, 1, &p, background, &limits).unwrap();
        for (index, pixel) in result.iter().enumerate() {
            let expected = if index == y * 3 + x { original } else { background };
            assert_eq!(pixel.map(f32::to_bits), expected.map(f32::to_bits), "{anchor:?}");
        }
    }
    let transparent = [0.0, 0.0, 0.0, 0.0];
    let p = CanvasParams { width: 2, height: 1, anchor: Anchor::Center, background: RgbaColor([0, 0, 0, 0]) };
    let result = canvas(&labeled(), 3, 2, &p, transparent, &limits).unwrap();
    assert_labels(&result, &[4, 5]);
    let blue = [0.0, 0.0, 1.0, 0.0];
    let p = CanvasParams { width: 4, height: 3, anchor: Anchor::Center, background: RgbaColor([0, 0, 255, 0]) };
    let result = canvas(&labeled(), 3, 2, &p, blue, &limits).unwrap();
    assert_eq!(result[3], [0.0, 0.0, 1.0, 0.0]);
    assert_eq!(result[0], labeled()[0]);
}

#[test]
fn exact_geometry_moves_labelled_samples_bit_for_bit() {
    let limits = ResourceLimits::default();
    let src = labeled();
    let cropped = crop(&src, 3, 2, &CropParams { x: 1, y: 0, width: 2, height: 2 }, &limits).unwrap();
    assert_labels(&cropped, &[1, 2, 4, 5]);
    let mirrored = flip(&src, 3, 2, &FlipParams { axis: FlipAxis::Horizontal }, &limits).unwrap();
    assert_labels(&mirrored, &[2, 1, 0, 5, 4, 3]);
    let upside = flip(&src, 3, 2, &FlipParams { axis: FlipAxis::Vertical }, &limits).unwrap();
    assert_labels(&upside, &[3, 4, 5, 0, 1, 2]);
    let (w, h, turned) = rotate_orthogonal(&src, 3, 2, 1, true, &limits).unwrap().unwrap();
    assert_eq!((w, h), (2, 3));
    assert_labels(&turned, &[3, 0, 4, 1, 5, 2]);
    let (w, h, back) = rotate_orthogonal(&src, 3, 2, 3, true, &limits).unwrap().unwrap();
    assert_eq!((w, h), (2, 3));
    assert_labels(&back, &[2, 5, 1, 4, 0, 3]);
    let (w, h, half) = rotate_orthogonal(&src, 3, 2, 2, false, &limits).unwrap().unwrap();
    assert_eq!((w, h), (3, 2));
    assert_labels(&half, &[5, 4, 3, 2, 1, 0]);
    let (w, h, same) = rotate_orthogonal(&src, 3, 2, 0, true, &limits).unwrap().unwrap();
    assert_eq!((w, h), (3, 2));
    assert_labels(&same, &[0, 1, 2, 3, 4, 5]);
    assert!(rotate_orthogonal(&src, 3, 2, 1, false, &limits).unwrap().is_none());
    match resize(&src, 3, 2, &resize_params(Some(6), Some(2)), &limits).unwrap() {
        Resized::Sampled { width, height, samples } => {
            assert_eq!((width, height), (6, 2));
            assert_labels(&samples, &[0, 0, 1, 1, 2, 2, 3, 3, 4, 4, 5, 5]);
        }
        _ => panic!("nearest resize samples"),
    }
    assert!(matches!(
        resize(&src, 3, 2, &resize_params(Some(3), Some(2)), &limits).unwrap(),
        Resized::Unchanged
    ));
    let bilinear = ResizeParams { width: Some(6), height: None, filter: Interpolation::Bilinear };
    assert!(matches!(
        resize(&src, 3, 2, &bilinear, &limits).unwrap(),
        Resized::Filter { width: 6, height: 4 }
    ));
    let empty = resize_params(None, None);
    assert_eq!(resize(&src, 3, 2, &empty, &limits).unwrap_err().code, ErrorCode::InvalidArgument);
    let huge = resize_params(Some(40_000), Some(2));
    assert_eq!(resize(&src, 3, 2, &huge, &limits).unwrap_err().code, ErrorCode::ResourceLimit);
    let tight = ResourceLimits { max_buffer_bytes: 100, ..ResourceLimits::default() };
    assert_eq!(resize(&src, 3, 2, &resize_params(Some(2), Some(1)), &tight).unwrap_err().code, ErrorCode::ResourceLimit);
}

#[test]
fn flipping_twice_and_turning_back_restore_the_image() {
    let limits = ResourceLimits::default();
    let src: Vec<u32> = (0..12).collect();
    for axis in [FlipAxis::Horizontal, FlipAxis::Vertical] {
        let once = flip(&src, 4, 3, &FlipParams { axis }, &limits).unwrap();
        let twice = flip(&once, 4, 3, &FlipParams { axis }, &limits).unwrap();
        assert_eq!(twice, src);
    }
    let (w, h, quarter) = rotate_orthogonal(&src, 4, 3, 1, true, &limits).unwrap().unwrap();
    let (_, _, restored) = rotate_orthogonal(&quarter, w, h, 3, true, &limits).unwrap().unwrap();
    assert_eq!(restored, src);
    let whole = crop(&src, 4, 3, &CropParams { x: 0, y: 0, width: 4, height: 3 }, &limits).unwrap();
    assert_eq!(whole, src);
}

#[test]
fn crops_must_stay_inside_the_image() {
    let limits = ResourceLimits::default();
    let src: Vec<u8> = vec![0; 6];
    assert_eq!(
        crop(&src, 3, 2, &CropParams { x: 2, y: 0, width: 2, height: 1 }, &limits).unwrap_err().code,
        ErrorCode::InvalidArgument
    );
    assert_eq!(CropParams { x: 4294967295, y: 0, width: 1, height: 1 }.validate().unwrap_err().code, ErrorCode::InvalidArgument);
    assert_eq!(CropParams { x: 0, y: 0, width: 0, height: 1 }.validate().unwrap_err().code, ErrorCode::InvalidArgument);
}

#[test]
fn wire_names_parse_exactly() {
    assert_eq!(Interpolation::parse("nearest").unwrap(), Interpolation::Nearest);
    assert_eq!(Interpolation::parse("lanczos3").unwrap_err().code, ErrorCode::InvalidArgument);
    assert_eq!(FlipAxis::parse("vertical").unwrap(), FlipAxis::Vertical);
    assert_eq!(FlipAxis::parse("both").unwrap_err().code, ErrorCode::InvalidArgument);
    assert_eq!(Anchor::parse("bottom_right").unwrap(), Anchor::BottomRight);
    assert_eq!(Anchor::parse("middle").unwrap_err().code, ErrorCode::InvalidArgument);
    assert_eq!(Anchor::Center.offset(-1, 3), (-1, 1));
    assert_eq!(Anchor::BottomRight.offset(5, -2), (5, -2));
    assert_eq!(ResizeParams { width: None, height: None, filter: Interpolation::Nearest }.validate().unwrap_err().code, ErrorCode::InvalidArgument);
    assert_eq!(ResizeParams { width: Some(0), height: None, filter: Interpolation::Nearest }.validate().unwrap_err().code, ErrorCode::InvalidArgument);
}

fn json_number(n: &str) -> ParamValue {
    ParamValue::Number(n.into())
}

fn json_text(t: &str) -> ParamValue {
    ParamValue::Text(t.into())
}

fn json_color(c: [&str; 4]) -> ParamValue {
    ParamValue::Numbers(c.iter().map(|n| n.to_string()).collect())
}

fn spec(op: &str, fields: Vec<(&str, ParamValue)>) -> OperationSpec {
    OperationSpec {
        op: op.into(),
        op_version: 1,
        target: TargetId::canvas(),
        params: Params::Object(fields.into_iter().map(|(k, v)| (k.to_string(), v)).collect()),
    }
}

fn rotate_spec(degrees: ParamValue, alpha: &str) -> OperationSpec {
    spec(
        "rotate",
        vec![
            ("degrees", degrees),
            ("expand", ParamValue::Bool(true)),
            ("filter", json_text("nearest")),
            ("background", json_color(["0", "0", "0", alpha])),
        ],
    )
}

#[test]
fn geometry_rejects_unknown_missing_nonfinite_or_out_of_range_parameters() {
    let dims = |x: &str| {
        vec![("x", json_number(x)), ("y", json_number("0")), ("width", json_number("1")), ("height", json_number("1"))]
    };
    for (op, params) in [
        ("crop", spec("crop", dims("4294967295"))),
        ("crop", spec("crop", dims("-1"))),
        ("resize", spec("resize", vec![("filter", json_text("nearest"))])),
        ("resize", spec("resize", vec![("width", json_number("0")), ("filter", json_text("nearest"))])),
        ("resize", spec("resize", vec![("width", json_number("1")), ("filter", json_text("lanczos3"))])),
        ("resize", spec("resize", vec![("width", json_number("1"))])),
        (
            "resize",
            spec(
                "resize",
                vec![("width", json_number("1")), ("filter", json_text("nearest")), ("ignored", json_number("1"))],
            ),
        ),
        ("rotate", rotate_spec(json_number("361"), "0")),
        ("rotate", rotate_spec(ParamValue::Null, "0")),
        ("rotate", rotate_spec(json_number("45"), "256")),
        ("flip", spec("flip", vec![("axis", json_text("both"))])),
        (
            "canvas",
            spec(
                "canvas",
                vec![
                    ("width", json_number("1")),
                    ("height", json_number("1")),
                    ("anchor", json_text("middle")),
                    ("background", json_color(["0", "0", "0", "0"])),
                ],
            ),
        ),
    ] {
        assert_eq!(params.validate().unwrap_err().code, ErrorCode::InvalidArgument, "{op}");
    }
    let mut operation = rotate_spec(json_number("45.0"), "0").validate().unwrap();
    if let Operation::Rotate(p) = &mut operation {
        p.degrees = "NaN".into();
    }
    assert_eq!(operation.validate().unwrap_err().code, ErrorCode::InvalidArgument);
}
