//! The description of the linear framebuffer that the boot loader hands to the kernel.

use vstd::prelude::*;

verus! {

/// The order of the colour channels within one pixel.
#[derive(Debug, Clone, Copy, PartialEq, Eq, Structural)]
pub enum PixelColourFormat {
    Rgb,
    Bgr,
    U8,
}

/// The pixel formats that a firmware graphics mode can report.
#[derive(Debug, Clone, Copy, PartialEq, Eq, Structural)]
pub enum FirmwarePixelFormat {
    Rgb,
    Bgr,
    Bitmask,
    BltOnly,
}

/// Geometry of the framebuffer. Every field has a fixed width, so that the
/// layout is the same on both sides of the hand-off.
#[derive(Debug, Clone, Copy, PartialEq, Eq, Structural)]
pub struct FramebufferInformation {
    pub len_bytes: u64,
    pub horiz_resolution: u64,
    pub vert_resolution: u64,
    pub pixel_colour_format: PixelColourFormat,
    pub bytes_per_pixel: u64,
    pub stride: u64,
}

/// The framebuffer as the kernel sees it: where it is mapped, and its geometry.
#[derive(Debug, Clone, Copy, PartialEq, Eq, Structural)]
pub struct Framebuffer {
    pub buffer_start: u64,
    pub buffer_len_bytes: u64,
    pub information: FramebufferInformation,
}

impl Framebuffer {
    /// The geometry of the framebuffer.
    pub fn information(&self) -> (information: FramebufferInformation)
        ensures
            information == self.information,
    {
        self.information
    }
}

/// The colour format for a firmware pixel format: RGB and BGR are supported,
/// a bitmask or a blit-only mode is not.
pub open spec fn colour_format_of(format: FirmwarePixelFormat) -> Option<PixelColourFormat> {
    match format {
        FirmwarePixelFormat::Rgb => Some(PixelColourFormat::Rgb),
        FirmwarePixelFormat::Bgr => Some(PixelColourFormat::Bgr),
        FirmwarePixelFormat::Bitmask => None,
        FirmwarePixelFormat::BltOnly => None,
    }
}

impl FirmwarePixelFormat {
    /// Whether the boot loader supports the pixel format.
    pub fn is_supported(&self) -> (supported: bool)
        ensures
            supported == colour_format_of(*self) is Some,
    {
        match self {
            FirmwarePixelFormat::Rgb => true,
            FirmwarePixelFormat::Bgr => true,
            FirmwarePixelFormat::Bitmask => false,
            FirmwarePixelFormat::BltOnly => false,
        }
    }
}

/// Describes the framebuffer of the current graphics mode, with four bytes
/// per pixel. The mode has to have a pixel format that is supported: the boot
/// cannot go on with any other.
pub fn lightsaber_initialize_display(
    len_bytes: u64,
    horiz_resolution: u64,
    vert_resolution: u64,
    pixel_format: FirmwarePixelFormat,
    stride: u64,
) -> (information: FramebufferInformation)
    requires
        colour_format_of(pixel_format) is Some,
    ensures
        information == (FramebufferInformation {
            len_bytes,
            horiz_resolution,
            vert_resolution,
            pixel_colour_format: colour_format_of(pixel_format).unwrap(),
            bytes_per_pixel: 4,
            stride,
        }),
{
    let pixel_colour_format = match pixel_format {
        FirmwarePixelFormat::Rgb => PixelColourFormat::Rgb,
        _ => PixelColourFormat::Bgr,
    };
    FramebufferInformation {
        len_bytes,
        horiz_resolution,
        vert_resolution,
        pixel_colour_format,
        bytes_per_pixel: 4,
        stride,
    }
}

} // verus!
