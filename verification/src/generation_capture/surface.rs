//! The surface that a capture is made of.
use crate::pages::geometry::positive_finite;
use vstd::prelude::*;

verus! {

/// A size in device-independent pixels.
#[derive(Clone, Copy, Debug, PartialEq, Eq, Structural)]
pub struct DeviceIndependentIntSize {
    pub width: i32,
    pub height: i32,
}

/// A rectangle in device-independent pixels, from its least to its greatest corner.
#[derive(Clone, Copy, Debug, PartialEq, Eq, Structural)]
pub struct DeviceIndependentIntRect {
    pub min_x: i32,
    pub min_y: i32,
    pub max_x: i32,
    pub max_y: i32,
}

/// The exact viewport, rectangle and scale of a capture. The scale is given by the bits of the
/// single-precision number, so that equality is exact.
#[derive(Clone, Copy, Debug, PartialEq, Eq, Structural)]
pub struct DocumentCaptureSurfaceFingerprint {
    pub viewport: DeviceIndependentIntSize,
    pub capture_rect: DeviceIndependentIntRect,
    pub device_pixel_scale_bits: u32,
}

/// Why a surface names no raster.
#[derive(Clone, Copy, Debug, PartialEq, Eq, PartialOrd, Ord, Structural)]
pub enum DocumentCaptureSurfaceError {
    /// A side of the viewport is not positive.
    EmptyViewport,
    /// The rectangle is empty or starts before the origin.
    InvalidCaptureRect,
    /// The rectangle reaches beyond the viewport.
    CaptureRectOutsideViewport,
    /// The scale is not a positive finite number.
    InvalidDevicePixelScale,
}

impl DocumentCaptureSurfaceFingerprint {
    pub open spec fn validity(self) -> Result<(), DocumentCaptureSurfaceError> {
        let rect = self.capture_rect;
        if self.viewport.width <= 0 || self.viewport.height <= 0 {
            Err(DocumentCaptureSurfaceError::EmptyViewport)
        } else if !(0 <= rect.min_x < rect.max_x && 0 <= rect.min_y < rect.max_y) {
            Err(DocumentCaptureSurfaceError::InvalidCaptureRect)
        } else if rect.max_x > self.viewport.width || rect.max_y > self.viewport.height {
            Err(DocumentCaptureSurfaceError::CaptureRectOutsideViewport)
        } else if !positive_finite(self.device_pixel_scale_bits) {
            Err(DocumentCaptureSurfaceError::InvalidDevicePixelScale)
        } else {
            Ok(())
        }
    }

    /// A checked surface.
    pub fn new(
        viewport: DeviceIndependentIntSize,
        capture_rect: DeviceIndependentIntRect,
        device_pixel_scale_bits: u32,
    ) -> (surface: Result<Self, DocumentCaptureSurfaceError>)
        ensures
            ({
                let candidate = DocumentCaptureSurfaceFingerprint {
                    viewport,
                    capture_rect,
                    device_pixel_scale_bits,
                };
                surface == match candidate.validity() {
                    Ok(()) => Ok(candidate),
                    Err(error) => Err(error),
                }
            }),
    {
        let surface = DocumentCaptureSurfaceFingerprint {
            viewport,
            capture_rect,
            device_pixel_scale_bits,
        };
        match surface.validate() {
            Ok(()) => Ok(surface),
            Err(error) => Err(error),
        }
    }

    pub fn viewport(&self) -> (viewport: DeviceIndependentIntSize)
        ensures
            viewport == self.viewport,
    {
        self.viewport
    }

    pub fn capture_rect(&self) -> (rect: DeviceIndependentIntRect)
        ensures
            rect == self.capture_rect,
    {
        self.capture_rect
    }

    /// The bits of the scale.
    pub fn device_pixel_scale(&self) -> (bits: u32)
        ensures
            bits == self.device_pixel_scale_bits,
    {
        self.device_pixel_scale_bits
    }

    /// Checks the surface; the first fault is reported.
    pub fn validate(&self) -> (validity: Result<(), DocumentCaptureSurfaceError>)
        ensures
            validity == self.validity(),
    {
        let rect = self.capture_rect;
        if self.viewport.width <= 0 || self.viewport.height <= 0 {
            return Err(DocumentCaptureSurfaceError::EmptyViewport);
        }
        if rect.min_x < 0 || rect.min_y < 0 || rect.max_x <= rect.min_x || rect.max_y
            <= rect.min_y {
            return Err(DocumentCaptureSurfaceError::InvalidCaptureRect);
        }
        if rect.max_x > self.viewport.width || rect.max_y > self.viewport.height {
            return Err(DocumentCaptureSurfaceError::CaptureRectOutsideViewport);
        }
        if !positive_finite(self.device_pixel_scale_bits) {
            return Err(DocumentCaptureSurfaceError::InvalidDevicePixelScale);
        }
        Ok(())
    }
}

/// A surface can be rasterized exactly where its rectangle has an area within the viewport and its
/// scale is a positive finite number; the first fault that it has is the one that is given.
pub proof fn law_surface_lies_within_its_viewport(surface: DocumentCaptureSurfaceFingerprint)
    ensures
        ({
            let rect = surface.capture_rect;
            let valid = surface.validity();
            &&& valid is Ok <==> 0 <= rect.min_x < rect.max_x <= surface.viewport.width && 0
                <= rect.min_y < rect.max_y <= surface.viewport.height && 0
                < surface.device_pixel_scale_bits < 0x7f80_0000
            &&& valid matches Err(error) ==> {
                &&& error is EmptyViewport <==> surface.viewport.width <= 0
                    || surface.viewport.height <= 0
                &&& error is InvalidDevicePixelScale ==> rect.max_x <= surface.viewport.width
                    && rect.max_y <= surface.viewport.height && rect.min_x < rect.max_x
                &&& error is CaptureRectOutsideViewport ==> rect.max_x > surface.viewport.width
                    || rect.max_y > surface.viewport.height
                &&& error is InvalidCaptureRect ==> rect.min_x < 0 || rect.min_y < 0 || rect.min_x
                    >= rect.max_x || rect.min_y >= rect.max_y
            }
        }),
{
}

} // verus!
