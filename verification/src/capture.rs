//! What a screen capture reads and how its rows are ordered.
//!
//! Reading back a framebuffer gives pixel rows bottom-up. Frames carry their
//! [`Orientation`], and the sink turns them where it must.

use crate::geometry::{Rect, Size};
use vstd::prelude::*;

verus! {

/// Where the first pixel row of a captured frame is.
#[derive(Debug, Clone, Copy, PartialEq, Eq, Structural)]
pub enum Orientation {
    TopDown,
    BottomUp,
}

/// The byte order of a captured pixel.
#[derive(Debug, Clone, Copy, PartialEq, Eq, Structural)]
pub enum PixelFormat {
    /// Red first.
    Abgr8888,
    /// Blue first.
    Argb8888,
}

/// Why a capture cannot be described.
#[derive(Debug, Clone, Copy, PartialEq, Eq, Structural)]
pub enum CaptureError {
    NonPositiveSize(Size),
}

/// A capture of the whole framebuffer of an output.
#[derive(Debug, Clone, Copy, PartialEq, Eq, Structural)]
pub struct OutputCapture {
    pub region: Rect,
    /// When the frame is presented, in nanoseconds on the effects' clock.
    pub present_time: u64,
}

impl OutputCapture {
    /// The size is that of the backend's framebuffer, which the output's mode
    /// can lag behind while it is resized.
    pub fn new(physical_size: Size, present_time: u64) -> (r: Result<OutputCapture, CaptureError>)
        ensures
            r == if physical_size.w <= 0 || physical_size.h <= 0 {
                Err::<OutputCapture, CaptureError>(CaptureError::NonPositiveSize(physical_size))
            } else {
                Ok::<OutputCapture, CaptureError>(
                    OutputCapture {
                        region: Rect { x: 0, y: 0, w: physical_size.w, h: physical_size.h },
                        present_time,
                    },
                )
            },
    {
        if physical_size.w <= 0 || physical_size.h <= 0 {
            return Err(CaptureError::NonPositiveSize(physical_size));
        }
        Ok(
            OutputCapture {
                region: Rect { x: 0, y: 0, w: physical_size.w, h: physical_size.h },
                present_time,
            },
        )
    }
}

/// How frames are read back.
#[derive(Debug, Clone, Copy, PartialEq, Eq, Structural)]
pub struct Capturer {
    pub format: PixelFormat,
    pub orientation: Orientation,
}

impl Capturer {
    /// Red-first pixels, rows as the hardware gives them: PNG and raw-video
    /// sinks take them without swapping channels.
    pub fn new() -> (r: Capturer)
        ensures
            r == (Capturer {
                format: PixelFormat::Abgr8888,
                orientation: Orientation::BottomUp,
            }),
    {
        Capturer { format: PixelFormat::Abgr8888, orientation: Orientation::BottomUp }
    }

    /// The same with another pixel format.
    pub fn with_format(self, format: PixelFormat) -> (r: Capturer)
        ensures
            r == (Capturer { format, ..self }),
    {
        Capturer { format, orientation: self.orientation }
    }

    pub fn format(&self) -> (r: PixelFormat)
        ensures
            r == self.format,
    {
        self.format
    }

    pub fn orientation(&self) -> (r: Orientation)
        ensures
            r == self.orientation,
    {
        self.orientation
    }

    /// What a frame captured from `source` is.
    pub fn describe(&self, source: &OutputCapture) -> (r: FrameInfo)
        ensures
            r == (FrameInfo {
                size: Size { w: source.region.w, h: source.region.h },
                format: self.format,
                orientation: self.orientation,
                present_time: source.present_time,
            }),
    {
        FrameInfo {
            size: Size { w: source.region.w, h: source.region.h },
            format: self.format,
            orientation: self.orientation,
            present_time: source.present_time,
        }
    }
}

impl Default for Capturer {
    fn default() -> (r: Capturer)
        ensures
            r == (Capturer {
                format: PixelFormat::Abgr8888,
                orientation: Orientation::BottomUp,
            }),
    {
        Capturer::new()
    }
}

/// What is known of a captured frame without touching its pixels.
#[derive(Debug, Clone, Copy, PartialEq, Eq, Structural)]
pub struct FrameInfo {
    pub size: Size,
    pub format: PixelFormat,
    pub orientation: Orientation,
    pub present_time: u64,
}

impl FrameInfo {
    pub fn size(&self) -> (r: Size)
        ensures
            r == self.size,
    {
        self.size
    }

    pub fn format(&self) -> (r: PixelFormat)
        ensures
            r == self.format,
    {
        self.format
    }

    pub fn orientation(&self) -> (r: Orientation)
        ensures
            r == self.orientation,
    {
        self.orientation
    }

    pub fn present_time(&self) -> (r: u64)
        ensures
            r == self.present_time,
    {
        self.present_time
    }

    pub fn width(&self) -> (r: u32)
        requires
            self.size.w >= 0,
        ensures
            r == self.size.w,
    {
        self.size.w as u32
    }

    pub fn height(&self) -> (r: u32)
        requires
            self.size.h >= 0,
        ensures
            r == self.size.h,
    {
        self.size.h as u32
    }

    /// Bytes per row: four per pixel, without padding.
    pub fn stride(&self) -> (r: u32)
        requires
            0 <= self.size.w,
            self.size.w * 4 <= u32::MAX,
        ensures
            r == self.size.w * 4,
    {
        self.size.w as u32 * 4
    }
}

/// A capture covers the whole framebuffer; an empty one is refused, with its
/// size. What is known of the frame is what it was captured from and how.
pub proof fn captures_cover_the_framebuffer(
    size: Size,
    present: u64,
    r: Result<OutputCapture, CaptureError>,
    capturer: Capturer,
    format: PixelFormat,
    chosen: Capturer,
    source: OutputCapture,
    info: FrameInfo,
)
    requires
        call_ensures(OutputCapture::new, (size, present), r),
        call_ensures(Capturer::new, (), capturer),
        call_ensures(Capturer::with_format, (capturer, format), chosen),
        call_ensures(Capturer::describe, (&chosen, &source), info),
    ensures
        r is Ok <==> size.w > 0 && size.h > 0,
        r is Err ==> r->Err_0 == CaptureError::NonPositiveSize(size),
        r matches Ok(c) ==> {
            &&& c.region.x == 0 && c.region.y == 0
            &&& c.region.w == size.w && c.region.h == size.h
            &&& c.present_time == present
        },
        capturer.format == PixelFormat::Abgr8888,
        capturer.orientation == Orientation::BottomUp,
        chosen.format == format,
        chosen.orientation == Orientation::BottomUp,
        info.size.w == source.region.w,
        info.size.h == source.region.h,
        info.format == format,
        info.orientation == Orientation::BottomUp,
        info.present_time == source.present_time,
{
}

/// The row of a frame takes four bytes for each pixel of its width.
pub proof fn rows_take_four_bytes_a_pixel(info: FrameInfo, w: u32, h: u32, stride: u32)
    requires
        call_ensures(FrameInfo::width, (&info,), w),
        call_ensures(FrameInfo::height, (&info,), h),
        call_ensures(FrameInfo::stride, (&info,), stride),
    ensures
        w == info.size.w,
        h == info.size.h,
        stride == 4 * w,
{
}

} // verus!
