use pic_core::codec::encoding::EncodeOptions;
use pic_core::document::TargetId;
use pic_core::operation::geometry::{CropParams, Interpolation};
use pic_core::project::cache::ImageSize;
use pic_core::project::preview::{observation_steps, ObservationSteps, PreviewRequest};
use pic_core::project::ExportRequest;
use pic_core::limits::ResourceLimits;
use pic_core::ErrorCode;
use std::path::Path;

fn request(region: Option<CropParams>, width: Option<u32>, height: Option<u32>) -> PreviewRequest<'static> {
    PreviewRequest {
        export: ExportRequest {
            revision: None,
            output: Path::new("preview.png"),
            encoding: EncodeOptions { format: None, jpeg_quality: None, png_compression: None, jpeg_background: None },
            overwrite: false,
        },
        target: TargetId::canvas(),
        region,
        width,
        height,
        filter: Interpolation::Bilinear,
    }
}

const CANVAS: ImageSize = ImageSize { width: 40, height: 30 };

#[test]
fn preview_defaults_to_the_whole_canvas_at_full_size() {
    let (region, size) = request(None, None, None).geometry(CANVAS).unwrap();
    assert_eq!(region, CropParams { x: 0, y: 0, width: 40, height: 30 });
    assert_eq!(size, CANVAS);
    assert_eq!(observation_steps(region, CANVAS, size, CANVAS), ObservationSteps { crop: None, resize: None });
}

#[test]
fn preview_regions_and_sizes_follow_the_resize_rules() {
    let part = CropParams { x: 10, y: 5, width: 20, height: 10 };
    let (region, size) = request(Some(part), Some(10), None).geometry(CANVAS).unwrap();
    assert_eq!(region, part);
    assert_eq!(size, ImageSize { width: 10, height: 5 });
    assert_eq!(
        observation_steps(region, CANVAS, size, CANVAS),
        ObservationSteps { crop: Some(part), resize: Some(size) }
    );
    // Only the height: the width follows the aspect ratio, rounded half up.
    let (_, size) = request(None, None, Some(7)).geometry(CANVAS).unwrap();
    assert_eq!(size, ImageSize { width: 9, height: 7 });
    // A whole-canvas preview of a differently sized layer still resizes.
    let layer = ImageSize { width: 8, height: 8 };
    let whole = CropParams { x: 0, y: 0, width: 40, height: 30 };
    assert_eq!(observation_steps(whole, CANVAS, CANVAS, layer), ObservationSteps { crop: None, resize: Some(CANVAS) });
}

#[test]
fn preview_rejects_regions_outside_the_canvas_and_empty_sizes() {
    let outside = CropParams { x: 30, y: 0, width: 20, height: 10 };
    assert_eq!(request(Some(outside), None, None).geometry(CANVAS).unwrap_err().code, ErrorCode::InvalidArgument);
    let empty = CropParams { x: 0, y: 0, width: 0, height: 10 };
    assert_eq!(request(Some(empty), None, None).geometry(CANVAS).unwrap_err().code, ErrorCode::InvalidArgument);
    assert_eq!(request(None, Some(0), None).geometry(CANVAS).unwrap_err().code, ErrorCode::InvalidArgument);
    let thin = ImageSize { width: 1, height: 4_000_000 };
    let tall = CropParams { x: 0, y: 0, width: 1, height: 4_000_000 };
    assert_eq!(request(Some(tall), Some(4_000_000), None).geometry(thin).unwrap_err().code, ErrorCode::ResourceLimit);
}

#[test]
fn preview_sizes_over_the_image_limits_are_refused() {
    let limits = ResourceLimits::default();
    let huge = request(None, Some(4_294_967_295), Some(1));
    assert!(huge.geometry(CANVAS).is_ok());
    assert_eq!(huge.plan(CANVAS, &limits).unwrap_err().code, ErrorCode::ResourceLimit);
    assert_eq!(request(None, Some(32_769), None).plan(CANVAS, &limits).unwrap_err().code, ErrorCode::ResourceLimit);
    let (region, size) = request(None, Some(32_768), Some(1)).plan(CANVAS, &limits).unwrap();
    assert_eq!(region, CropParams { x: 0, y: 0, width: 40, height: 30 });
    assert_eq!(size, ImageSize { width: 32_768, height: 1 });
    let outside = CropParams { x: 30, y: 0, width: 20, height: 10 };
    assert_eq!(request(Some(outside), None, None).plan(CANVAS, &limits).unwrap_err().code, ErrorCode::InvalidArgument);
}
