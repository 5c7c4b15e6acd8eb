//! Admission limits, not a process RSS limit; codec scratch allocations are best effort.
use crate::error::{ErrorCode, PicError};
use vstd::prelude::*;

verus! {

#[derive(Debug, Clone, Copy)]
pub struct ResourceLimits {
    pub max_dimension: u32,
    pub max_pixels: u64,
    pub max_input_bytes: u64,
    pub max_buffer_bytes: u64,
    pub max_pipeline_bytes: u64,
    pub max_operations: usize,
    /// Total manifest plus committed operation bytes, excluding encoded assets.
    pub max_project_bytes: u64,
    /// Includes inactive, still traceable history.
    pub max_history_operations: usize,
    /// Combined managed checkpoint and preview files; never includes required assets.
    pub max_cache_disk_bytes: u64,
    /// Retained derived rasters and cache serialization/read scratch admission.
    pub max_cache_memory_bytes: u64,
}

impl Default for ResourceLimits {
    fn default() -> (l: Self)
        ensures
            l.max_dimension == 32_768,
            l.max_pixels == 40_000_000,
            l.max_input_bytes == 128 * 1024 * 1024,
            l.max_buffer_bytes == 1024 * 1024 * 1024,
            l.max_pipeline_bytes == 1024 * 1024,
            l.max_operations == 10_000,
            l.max_project_bytes == 64 * 1024 * 1024,
            l.max_history_operations == 100_000,
            l.max_cache_disk_bytes == 512 * 1024 * 1024,
            l.max_cache_memory_bytes == 256 * 1024 * 1024,
    {
        ResourceLimits {
            max_dimension: 32_768,
            max_pixels: 40_000_000,
            max_input_bytes: 128 * 1024 * 1024,
            max_buffer_bytes: 1024 * 1024 * 1024,
            max_pipeline_bytes: 1024 * 1024,
            max_operations: 10_000,
            max_project_bytes: 64 * 1024 * 1024,
            max_history_operations: 100_000,
            max_cache_disk_bytes: 512 * 1024 * 1024,
            max_cache_memory_bytes: 256 * 1024 * 1024,
        }
    }
}

impl ResourceLimits {
    /// Why a `width` x `height` image is refused, if it is: zero sides are invalid; sides
    /// over the maximum, too many pixels, or 32 working bytes per pixel over the buffer
    /// budget (or over the address space) exceed the limits.
    pub open spec fn dimensions_refusal(&self, width: u32, height: u32) -> Option<ErrorCode> {
        if width == 0 || height == 0 {
            Some(ErrorCode::InvalidArgument)
        } else if width > self.max_dimension || height > self.max_dimension
            || width * height > self.max_pixels
            || width * height * 32 > self.max_buffer_bytes
            || width * height > usize::MAX {
            Some(ErrorCode::ResourceLimit)
        } else {
            None
        }
    }

    /// Admit an image size and return its pixel count.
    pub fn check_dimensions(&self, width: u32, height: u32) -> (r: Result<usize, PicError>)
        ensures
            match r {
                Ok(count) => self.dimensions_refusal(width, height) is None
                    && count == width * height,
                Err(e) => self.dimensions_refusal(width, height) == Some(e.code),
            },
    {
        if width == 0 || height == 0 {
            return Err(PicError::new(ErrorCode::InvalidArgument, "image dimensions must be positive"));
        }
        assert(width as u64 * height as u64 <= u32::MAX as u64 * u32::MAX as u64) by (nonlinear_arith)
            requires width <= u32::MAX, height <= u32::MAX;
        let pixels = width as u64 * height as u64;
        let too_many_bytes = pixels > u64::MAX / 32 || pixels * 32 > self.max_buffer_bytes;
        if width > self.max_dimension || height > self.max_dimension || pixels > self.max_pixels
            || too_many_bytes {
            return Err(PicError::new(ErrorCode::ResourceLimit, "image exceeds image or buffer limits"));
        }
        if pixels > usize::MAX as u64 {
            return Err(PicError::new(ErrorCode::ResourceLimit, "image exceeds address space"));
        }
        Ok(pixels as usize)
    }
}

} // verus!
