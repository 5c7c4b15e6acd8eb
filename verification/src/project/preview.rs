//! Preview requests: which part of a revision's canvas is observed, and at what size.
use crate::document::TargetId;
use crate::error::{ErrorCode, PicError};
use crate::limits::ResourceLimits;
use crate::operation::geometry::{CropParams, Interpolation, ResizeParams};
use crate::project::cache::ImageSize;
use crate::project::ExportRequest;
use vstd::prelude::*;

verus! {

pub struct PreviewRequest<'a> {
    pub export: ExportRequest<'a>,
    pub target: TargetId,
    pub region: Option<CropParams>,
    pub width: Option<u32>,
    pub height: Option<u32>,
    pub filter: Interpolation,
}

/// The observed region: the requested one, else the whole canvas.
pub open spec fn preview_region(region: Option<CropParams>, canvas: ImageSize) -> CropParams {
    match region {
        Some(r) => r,
        None => CropParams { x: 0, y: 0, width: canvas.width, height: canvas.height },
    }
}

impl<'a> PreviewRequest<'a> {
    pub open spec fn resize(&self) -> ResizeParams {
        ResizeParams { width: self.width, height: self.height, filter: self.filter }
    }

    /// The region of `canvas` to observe and the preview's size: the region must be a valid
    /// rectangle inside the canvas; without a requested size the preview keeps the region's
    /// size, else the request resizes it (an absent side follows the aspect ratio).
    pub fn geometry(&self, canvas: ImageSize) -> (r: Result<(CropParams, ImageSize), PicError>)
        ensures
            match r {
                Ok((region, size)) => {
                    &&& region == preview_region(self.region, canvas)
                    &&& region.valid()
                    &&& region.inside(canvas.width, canvas.height)
                    &&& if self.width is None && self.height is None {
                        size == ImageSize { width: region.width, height: region.height }
                    } else {
                        self.resize().valid() && self.resize().output_size(region.width, region.height) == (
                        size.width as nat, size.height as nat)
                    }
                },
                Err(e) => {
                    let region = preview_region(self.region, canvas);
                    if !region.valid() || !region.inside(canvas.width, canvas.height) {
                        e.code == ErrorCode::InvalidArgument
                    } else {
                        &&& self.width is Some || self.height is Some
                        &&& if !self.resize().valid() {
                            e.code == ErrorCode::InvalidArgument
                        } else {
                            e.code == ErrorCode::ResourceLimit && (self.resize().output_size(
                                region.width,
                                region.height,
                            ).0 > u32::MAX || self.resize().output_size(region.width, region.height).1
                                > u32::MAX)
                        }
                    }
                },
            },
    {
        let region = match self.region {
            Some(r) => r,
            None => CropParams { x: 0, y: 0, width: canvas.width, height: canvas.height },
        };
        region.validate()?;
        if region.x + region.width > canvas.width || region.y + region.height > canvas.height {
            return Err(
                PicError::new(
                    ErrorCode::InvalidArgument,
                    "preview region must lie inside the selected revision's canvas",
                ),
            );
        }
        let size = if self.width.is_none() && self.height.is_none() {
            ImageSize { width: region.width, height: region.height }
        } else {
            let resize = ResizeParams { width: self.width, height: self.height, filter: self.filter };
            let (width, height) = resize.dimensions(region.width, region.height)?;
            ImageSize { width, height }
        };
        Ok((region, size))
    }

    /// The preview's size before any limit is applied: the region's, or the requested resize
    /// of it.
    pub open spec fn preview_size(&self, canvas: ImageSize) -> (nat, nat) {
        let region = preview_region(self.region, canvas);
        if self.width is None && self.height is None {
            (region.width as nat, region.height as nat)
        } else {
            self.resize().output_size(region.width, region.height)
        }
    }

    /// Why the geometry is refused, if it is: a region that is no valid rectangle inside the
    /// canvas, or an invalid resize, is an invalid argument; a size side over `u32` exceeds
    /// the limits.
    pub open spec fn geometry_refusal(&self, canvas: ImageSize) -> Option<ErrorCode> {
        let region = preview_region(self.region, canvas);
        if !region.valid() || !region.inside(canvas.width, canvas.height) {
            Some(ErrorCode::InvalidArgument)
        } else if self.width is None && self.height is None {
            None
        } else if !self.resize().valid() {
            Some(ErrorCode::InvalidArgument)
        } else if self.preview_size(canvas).0 > u32::MAX || self.preview_size(canvas).1 > u32::MAX {
            Some(ErrorCode::ResourceLimit)
        } else {
            None
        }
    }

    /// Why the preview is refused, if it is: first its geometry, then the image limits on its
    /// size.
    pub open spec fn plan_refusal(&self, canvas: ImageSize, limits: ResourceLimits) -> Option<ErrorCode> {
        match self.geometry_refusal(canvas) {
            Some(c) => Some(c),
            None => limits.dimensions_refusal(
                self.preview_size(canvas).0 as u32,
                self.preview_size(canvas).1 as u32,
            ),
        }
    }

    /// The region and size of the preview, as `geometry` gives them, once the size passes
    /// the image limits.
    pub fn plan(&self, canvas: ImageSize, limits: &ResourceLimits) -> (r: Result<(CropParams, ImageSize), PicError>)
        ensures
            match r {
                Ok((region, size)) => {
                    &&& self.plan_refusal(canvas, *limits) is None
                    &&& region == preview_region(self.region, canvas)
                    &&& (size.width as nat, size.height as nat) == self.preview_size(canvas)
                },
                Err(e) => self.plan_refusal(canvas, *limits) == Some(e.code),
            },
    {
        let (region, size) = self.geometry(canvas)?;
        limits.check_dimensions(size.width, size.height)?;
        Ok((region, size))
    }
}

/// The temporary steps that observe a preview: a crop unless the region is the whole
/// canvas, then a resize to the preview size whenever anything was cropped or the target
/// raster differs from that size. They never enter history.
#[derive(Debug, Clone, Copy, PartialEq, Eq)]
pub struct ObservationSteps {
    pub crop: Option<CropParams>,
    pub resize: Option<ImageSize>,
}

pub open spec fn whole_canvas(region: CropParams, canvas: ImageSize) -> bool {
    region.x == 0 && region.y == 0 && region.width == canvas.width && region.height == canvas.height
}

/// The observation steps for `region` of `canvas` shown at `size`, when the raster being
/// observed (the canvas or a rendered layer) is `target` large.
pub fn observation_steps(region: CropParams, canvas: ImageSize, size: ImageSize, target: ImageSize) -> (r:
    ObservationSteps)
    ensures
        r.crop == (if whole_canvas(region, canvas) {
            None
        } else {
            Some(region)
        }),
        r.resize == (if r.crop is Some || size != target {
            Some(size)
        } else {
            None
        }),
{
    let crop = if region.x != 0 || region.y != 0 || region.width != canvas.width || region.height
        != canvas.height {
        Some(region)
    } else {
        None
    };
    let differs = size.width != target.width || size.height != target.height;
    let resize = if differs || crop.is_some() {
        Some(size)
    } else {
        None
    };
    ObservationSteps { crop, resize }
}

} // verus!
