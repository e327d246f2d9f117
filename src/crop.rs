//! Translation of a desktop selection into a monitor's own pixel space, and
//! the crop of that monitor's captured frame.

use vstd::prelude::*;

use crate::bounding_box::{BoundingBox, Rect};
use crate::error::ScanError;
use crate::monitor::MonitorDescriptor;

verus! {

/// An RGBA image: `width * height` pixels of four bytes each, row by row.
#[derive(Clone, Debug)]
pub struct Frame {
    pub width: u32,
    pub height: u32,
    pub rgba: Vec<u8>,
}

impl Frame {
    pub open spec fn wf(&self) -> bool {
        self.rgba.len() == self.width * self.height * 4
    }

    /// Channel `c` of the pixel in column `col` and row `row`.
    pub open spec fn byte(&self, col: int, row: int, c: int) -> u8 {
        self.rgba@[(row * self.width + col) * 4 + c]
    }
}

/// A rectangle in a frame's own pixel space, given by its top-left corner and size.
#[derive(Clone, Copy, Debug, PartialEq, Eq, Structural)]
pub struct CropRegion {
    pub x: u32,
    pub y: u32,
    pub width: u32,
    pub height: u32,
}

impl CropRegion {
    pub open spec fn rect(&self) -> Rect {
        Rect {
            left: self.x as int,
            top: self.y as int,
            right: self.x + self.width,
            bottom: self.y + self.height,
        }
    }
}

/// The selection moved into the monitor's own coordinates, its origin being
/// the monitor's top-left corner.
pub open spec fn local_rect(selection: Rect, monitor: MonitorDescriptor) -> Rect {
    Rect {
        left: selection.left - monitor.x,
        top: selection.top - monitor.y,
        right: selection.right - monitor.x,
        bottom: selection.bottom - monitor.y,
    }
}

/// `area` has positive size and lies within `[0, width] x [0, height]`.
pub open spec fn fits_within(area: Rect, width: int, height: int) -> bool {
    &&& area.has_area()
    &&& 0 <= area.left
    &&& area.right <= width
    &&& 0 <= area.top
    &&& area.bottom <= height
}

/// `out` holds exactly the pixels of `src` inside `area`.
pub open spec fn is_crop_of(out: Frame, src: Frame, area: Rect) -> bool {
    &&& out.width == area.right - area.left
    &&& out.height == area.bottom - area.top
    &&& forall|col: int, row: int, c: int|
        0 <= col < out.width && 0 <= row < out.height && 0 <= c < 4 ==> #[trigger] out.byte(
            col,
            row,
            c,
        ) == src.byte(area.left + col, area.top + row, c)
}

/// The part of the monitor's frame that the selection covers, in the
/// monitor's own pixel coordinates. Width comes from the horizontal extent
/// and height from the vertical one; a selection that leaves the monitor is
/// refused, never clamped.
pub fn crop_region(selection: &BoundingBox, monitor: &MonitorDescriptor) -> (r: Result<
    CropRegion,
    ScanError,
>)
    requires
        selection.wf(),
    ensures
        match r {
            Ok(region) => {
                &&& fits_within(
                    local_rect(selection@, *monitor),
                    monitor.width as int,
                    monitor.height as int,
                )
                &&& region.rect() == local_rect(selection@, *monitor)
            },
            Err(e) => {
                &&& e == ScanError::CropOutOfBounds
                &&& !fits_within(
                    local_rect(selection@, *monitor),
                    monitor.width as int,
                    monitor.height as int,
                )
            },
        },
{
    let left: i64 = selection.top_left.x as i64 - monitor.x as i64;
    let top: i64 = selection.top_left.y as i64 - monitor.y as i64;
    let right: i64 = selection.bottom_right.x as i64 - monitor.x as i64;
    let bottom: i64 = selection.bottom_right.y as i64 - monitor.y as i64;
    if 0 <= left && left < right && right <= monitor.width as i64 && 0 <= top && top < bottom
        && bottom <= monitor.height as i64 {
        Ok(
            CropRegion {
                x: left as u32,
                y: top as u32,
                width: (right - left) as u32,
                height: (bottom - top) as u32,
            },
        )
    } else {
        Err(ScanError::CropOutOfBounds)
    }
}

/// Relies on `image::ImageBuffer::from_raw`, `image::imageops::crop_imm` and
/// `SubImage::to_image`: for a region inside the image, the crop copies the
/// region's pixels, row by row, into a new buffer of the region's size.
#[verifier::external_body]
fn crop_pixels(frame: &Frame, region: &CropRegion) -> (r: Frame)
    requires
        frame.wf(),
        region.x + region.width <= frame.width,
        region.y + region.height <= frame.height,
    ensures
        r.wf(),
        is_crop_of(r, *frame, region.rect()),
{
    let img = image::RgbaImage::from_raw(frame.width, frame.height, frame.rgba.clone()).unwrap();
    let sub = image::imageops::crop_imm(&img, region.x, region.y, region.width, region.height);
    let out = sub.to_image();
    Frame { width: out.width(), height: out.height(), rgba: out.into_raw() }
}

/// Crops the frame captured from `monitor` to the part that the selection
/// covers. Fails with `CropOutOfBounds` when that part, in the monitor's own
/// coordinates, has no area or leaves the monitor or the frame. For a frame
/// of the monitor's own size, the crop succeeds exactly when the part fits
/// on the monitor.
pub fn crop_to_selection(frame: &Frame, selection: &BoundingBox, monitor: &MonitorDescriptor) -> (r:
    Result<Frame, ScanError>)
    requires
        frame.wf(),
        selection.wf(),
    ensures
        frame.width == monitor.width && frame.height == monitor.height ==> (r is Ok
            <==> fits_within(
            local_rect(selection@, *monitor),
            monitor.width as int,
            monitor.height as int,
        )),
        match r {
            Ok(out) => {
                &&& fits_within(
                    local_rect(selection@, *monitor),
                    monitor.width as int,
                    monitor.height as int,
                )
                &&& fits_within(
                    local_rect(selection@, *monitor),
                    frame.width as int,
                    frame.height as int,
                )
                &&& out.wf()
                &&& is_crop_of(out, *frame, local_rect(selection@, *monitor))
            },
            Err(e) => {
                &&& e == ScanError::CropOutOfBounds
                &&& !(fits_within(
                    local_rect(selection@, *monitor),
                    monitor.width as int,
                    monitor.height as int,
                ) && fits_within(
                    local_rect(selection@, *monitor),
                    frame.width as int,
                    frame.height as int,
                ))
            },
        },
{
    let region = match crop_region(selection, monitor) {
        Ok(region) => region,
        Err(e) => return Err(e),
    };
    if region.x as u64 + region.width as u64 <= frame.width as u64 && region.y as u64
        + region.height as u64 <= frame.height as u64 {
        Ok(crop_pixels(frame, &region))
    } else {
        Err(ScanError::CropOutOfBounds)
    }
}

} // verus!
