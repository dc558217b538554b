//! Swapchain configuration decisions.
//!
//! The surface capabilities, formats and present modes are queried from the
//! graphics driver outside this library and handed in as plain values; the
//! functions here pick the surface format, the present mode, the image extent
//! and the image count that the swapchain is then created with.

use vstd::prelude::*;

verus! {

/// Format code of the 8-bit BGRA sRGB surface format.
pub const FORMAT_B8G8R8A8_SRGB: i32 = 50;

/// Color space code of the nonlinear sRGB color space.
pub const COLOR_SPACE_SRGB_NONLINEAR: i32 = 0;

/// Present mode code: triple-buffered, no tearing.
pub const PRESENT_MODE_MAILBOX: i32 = 1;

/// Present mode code: first-in first-out queue, always available.
pub const PRESENT_MODE_FIFO: i32 = 2;

/// Format codes that carry a depth or stencil aspect.
pub const FORMAT_D16_UNORM: i32 = 124;

pub const FORMAT_X8_D24_UNORM_PACK32: i32 = 125;

pub const FORMAT_D32_SFLOAT: i32 = 126;

pub const FORMAT_S8_UINT: i32 = 127;

pub const FORMAT_D16_UNORM_S8_UINT: i32 = 128;

pub const FORMAT_D24_UNORM_S8_UINT: i32 = 129;

pub const FORMAT_D32_SFLOAT_S8_UINT: i32 = 130;

/// A two-dimensional extent in pixels.
#[derive(Clone, Copy, PartialEq, Eq, Structural, Debug)]
pub struct Extent2D {
    pub width: u32,
    pub height: u32,
}

/// A surface format: a pixel format code paired with a color space code.
#[derive(Clone, Copy, PartialEq, Eq, Structural, Debug)]
pub struct SurfaceFormat {
    pub format: i32,
    pub color_space: i32,
}

/// The capabilities of a surface that bound the swapchain configuration.
#[derive(Clone, Copy, PartialEq, Eq, Structural, Debug)]
pub struct SurfaceCapabilities {
    pub min_image_count: u32,
    pub max_image_count: u32,
    pub current_extent: Extent2D,
    pub min_image_extent: Extent2D,
    pub max_image_extent: Extent2D,
}

pub open spec fn spec_clamp_u32(x: u32, lo: u32, hi: u32) -> u32 {
    if x < lo {
        lo
    } else if x > hi {
        hi
    } else {
        x
    }
}

/// Relies on num::clamp: returns `lo` when `x` is below `lo`, `hi` when `x`
/// is above `hi`, and `x` otherwise; it panics when `lo > hi`.
#[verifier::external_body]
fn clamp_u32(x: u32, lo: u32, hi: u32) -> (r: u32)
    requires
        lo <= hi,
    ensures
        r == spec_clamp_u32(x, lo, hi),
{
    num::clamp(x, lo, hi)
}

pub open spec fn is_preferred_format(f: SurfaceFormat) -> bool {
    f.format == FORMAT_B8G8R8A8_SRGB && f.color_space == COLOR_SPACE_SRGB_NONLINEAR
}

pub open spec fn has_preferred_format(fs: Seq<SurfaceFormat>) -> bool {
    exists|i: int| 0 <= i < fs.len() && is_preferred_format(fs[i])
}

pub open spec fn spec_adjust_extent(caps: SurfaceCapabilities, size: Extent2D) -> Extent2D {
    if caps.current_extent.width != u32::MAX {
        caps.current_extent
    } else {
        Extent2D {
            width: spec_clamp_u32(
                size.width,
                caps.min_image_extent.width,
                caps.max_image_extent.width,
            ),
            height: spec_clamp_u32(
                size.height,
                caps.min_image_extent.height,
                caps.max_image_extent.height,
            ),
        }
    }
}

pub open spec fn spec_image_count(caps: SurfaceCapabilities) -> int {
    let desired = caps.min_image_count + 1;
    if caps.max_image_count > 0 && desired > caps.max_image_count {
        caps.max_image_count as int
    } else {
        desired
    }
}

/// What the driver reported about a surface: its capabilities and the
/// formats and present modes it supports.
#[derive(Clone, PartialEq, Eq, Debug)]
pub struct SwapChainSupportDetail {
    pub capabilities: SurfaceCapabilities,
    pub formats: Vec<SurfaceFormat>,
    pub present_modes: Vec<i32>,
}

impl SwapChainSupportDetail {
    /// The surface format the swapchain uses: the 8-bit BGRA sRGB format
    /// with the nonlinear sRGB color space when the surface offers it, and
    /// the first offered format otherwise.
    pub fn format(&self) -> (r: SurfaceFormat)
        requires
            self.formats@.len() > 0,
        ensures
            has_preferred_format(self.formats@) ==> is_preferred_format(r),
            !has_preferred_format(self.formats@) ==> r == self.formats@[0],
    {
        let n = self.formats.len();
        let mut i: usize = 0;
        while i < n
            invariant
                n == self.formats@.len(),
                0 <= i <= n,
                forall|j: int| 0 <= j < i ==> !is_preferred_format(self.formats@[j]),
            decreases n - i,
        {
            let f = self.formats[i];
            if f.format == FORMAT_B8G8R8A8_SRGB && f.color_space == COLOR_SPACE_SRGB_NONLINEAR {
                assert(is_preferred_format(self.formats@[i as int]));
                return f;
            }
            i += 1;
        }
        self.formats[0]
    }

    /// The present mode the swapchain uses: mailbox when the surface offers
    /// it, and the always-available FIFO mode otherwise.
    pub fn present_mode(&self) -> (r: i32)
        ensures
            r == if self.present_modes@.contains(PRESENT_MODE_MAILBOX) {
                PRESENT_MODE_MAILBOX
            } else {
                PRESENT_MODE_FIFO
            },
    {
        let n = self.present_modes.len();
        let mut i: usize = 0;
        while i < n
            invariant
                n == self.present_modes@.len(),
                0 <= i <= n,
                forall|j: int| 0 <= j < i ==> self.present_modes@[j] != PRESENT_MODE_MAILBOX,
            decreases n - i,
        {
            if self.present_modes[i] == PRESENT_MODE_MAILBOX {
                return PRESENT_MODE_MAILBOX;
            }
            i += 1;
        }
        PRESENT_MODE_FIFO
    }

    /// The pixel extent of the swapchain images: the surface's current
    /// extent when the driver fixed one, and the window size clamped into
    /// the allowed extent range otherwise.
    pub fn adjust_extent(&self, size: Extent2D) -> (r: Extent2D)
        requires
            self.capabilities.current_extent.width == u32::MAX ==> {
                &&& self.capabilities.min_image_extent.width
                    <= self.capabilities.max_image_extent.width
                &&& self.capabilities.min_image_extent.height
                    <= self.capabilities.max_image_extent.height
            },
        ensures
            r == spec_adjust_extent(self.capabilities, size),
    {
        if self.capabilities.current_extent.width != u32::MAX {
            self.capabilities.current_extent
        } else {
            Extent2D {
                width: clamp_u32(
                    size.width,
                    self.capabilities.min_image_extent.width,
                    self.capabilities.max_image_extent.width,
                ),
                height: clamp_u32(
                    size.height,
                    self.capabilities.min_image_extent.height,
                    self.capabilities.max_image_extent.height,
                ),
            }
        }
    }

    /// How many images the swapchain asks for: one more than the required
    /// minimum, capped by the maximum when the surface reports one (a
    /// reported maximum of zero means unbounded).
    pub fn get_image_count(&self) -> (r: u32)
        requires
            self.capabilities.min_image_count < u32::MAX,
        ensures
            r == spec_image_count(self.capabilities),
    {
        let image_count = self.capabilities.min_image_count + 1;
        if self.capabilities.max_image_count > 0 && image_count > self.capabilities.max_image_count {
            self.capabilities.max_image_count
        } else {
            image_count
        }
    }
}

/// Sample-count flag bits, one bit per supported multisampling level.
pub const SAMPLE_COUNT_1: u32 = 1;

pub const SAMPLE_COUNT_2: u32 = 2;

pub const SAMPLE_COUNT_4: u32 = 4;

pub const SAMPLE_COUNT_8: u32 = 8;

pub const SAMPLE_COUNT_16: u32 = 16;

pub const SAMPLE_COUNT_32: u32 = 32;

pub const SAMPLE_COUNT_64: u32 = 64;

pub open spec fn spec_max_sample_count(mask: u32) -> u32 {
    if mask & SAMPLE_COUNT_64 == SAMPLE_COUNT_64 {
        SAMPLE_COUNT_64
    } else if mask & SAMPLE_COUNT_32 == SAMPLE_COUNT_32 {
        SAMPLE_COUNT_32
    } else if mask & SAMPLE_COUNT_16 == SAMPLE_COUNT_16 {
        SAMPLE_COUNT_16
    } else if mask & SAMPLE_COUNT_8 == SAMPLE_COUNT_8 {
        SAMPLE_COUNT_8
    } else if mask & SAMPLE_COUNT_4 == SAMPLE_COUNT_4 {
        SAMPLE_COUNT_4
    } else if mask & SAMPLE_COUNT_2 == SAMPLE_COUNT_2 {
        SAMPLE_COUNT_2
    } else {
        SAMPLE_COUNT_1
    }
}

/// The highest multisampling level usable for both color and depth
/// attachments: the largest sample-count bit set in the numerically smaller
/// of the two reported flag masks, and a single sample when none is set.
pub fn get_max_usable_sample_count(
    color_sample_counts: u32,
    depth_sample_counts: u32,
) -> (r: u32)
    ensures
        r == spec_max_sample_count(
            if color_sample_counts <= depth_sample_counts {
                color_sample_counts
            } else {
                depth_sample_counts
            },
        ),
{
    let mask = if color_sample_counts <= depth_sample_counts {
        color_sample_counts
    } else {
        depth_sample_counts
    };
    if mask & SAMPLE_COUNT_64 == SAMPLE_COUNT_64 {
        SAMPLE_COUNT_64
    } else if mask & SAMPLE_COUNT_32 == SAMPLE_COUNT_32 {
        SAMPLE_COUNT_32
    } else if mask & SAMPLE_COUNT_16 == SAMPLE_COUNT_16 {
        SAMPLE_COUNT_16
    } else if mask & SAMPLE_COUNT_8 == SAMPLE_COUNT_8 {
        SAMPLE_COUNT_8
    } else if mask & SAMPLE_COUNT_4 == SAMPLE_COUNT_4 {
        SAMPLE_COUNT_4
    } else if mask & SAMPLE_COUNT_2 == SAMPLE_COUNT_2 {
        SAMPLE_COUNT_2
    } else {
        SAMPLE_COUNT_1
    }
}

pub open spec fn spec_format_has_depth(format: i32) -> bool {
    ||| format == FORMAT_D16_UNORM
    ||| format == FORMAT_X8_D24_UNORM_PACK32
    ||| format == FORMAT_D32_SFLOAT
    ||| format == FORMAT_S8_UINT
    ||| format == FORMAT_D16_UNORM_S8_UINT
    ||| format == FORMAT_D24_UNORM_S8_UINT
    ||| format == FORMAT_D32_SFLOAT_S8_UINT
}

/// Whether a format code names a format with a depth or stencil aspect.
pub fn format_has_depth(format: i32) -> (r: bool)
    ensures
        r == spec_format_has_depth(format),
{
    format == FORMAT_D16_UNORM || format == FORMAT_X8_D24_UNORM_PACK32 || format
        == FORMAT_D32_SFLOAT || format == FORMAT_S8_UINT || format == FORMAT_D16_UNORM_S8_UINT
        || format == FORMAT_D24_UNORM_S8_UINT || format == FORMAT_D32_SFLOAT_S8_UINT
}

} // verus!
