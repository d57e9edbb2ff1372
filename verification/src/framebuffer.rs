//! The framebuffer that is handed to the kernel.
use vstd::prelude::*;

verus! {

/// What the kernel asks of a framebuffer.
#[derive(Clone, Copy, Debug, Eq, PartialEq)]
pub struct FrameBufferConfig {
    pub minimum_width: Option<usize>,
    pub minimum_height: Option<usize>,
}

impl Default for FrameBufferConfig {
    /// Asks for nothing.
    fn default() -> (r: Self)
        ensures
            r == (FrameBufferConfig { minimum_width: None, minimum_height: None }),
    {
        FrameBufferConfig { minimum_width: None, minimum_height: None }
    }
}

/// The byte or bit layout of a framebuffer pixel.
#[derive(Clone, Copy, Debug, Eq, PartialEq)]
pub enum PixelFormat {
    /// Red, green, blue, then one reserved byte.
    Rgb,
    /// Blue, green, red, then one reserved byte.
    Bgr,
    /// A 32-bit channel layout that the firmware defines.
    Bitmask { red: u32, green: u32, blue: u32, reserved: u32 },
}

/// The layout of a framebuffer.
#[derive(Clone, Copy, Debug, Eq, PartialEq)]
pub struct FrameBufferInfo {
    pub byte_len: usize,
    pub width: usize,
    pub height: usize,
    pub pixel_format: PixelFormat,
    pub bytes_per_pixel: usize,
    pub stride: usize,
}

impl FrameBufferInfo {
    /// The offset of the first byte of the pixel in column `x` of row `y`.
    pub open spec fn pixel_offset(self, x: int, y: int) -> int {
        (y * self.stride + x) * self.bytes_per_pixel
    }
}

/// A framebuffer: where it starts and how it is laid out.
#[derive(Debug)]
pub struct FrameBuffer {
    buffer_start: u64,
    info: FrameBufferInfo,
}

impl FrameBuffer {
    /// Where the framebuffer starts.
    pub closed spec fn start(self) -> u64 {
        self.buffer_start
    }

    /// How it is laid out.
    pub closed spec fn layout(self) -> FrameBufferInfo {
        self.info
    }

    /// A framebuffer at the given address.
    pub fn new(buffer_start: u64, info: FrameBufferInfo) -> (r: Self)
        ensures
            r.start() == buffer_start,
            r.layout() == info,
    {
        FrameBuffer { buffer_start, info }
    }

    /// Where the framebuffer starts.
    pub fn buffer_start(&self) -> (r: u64)
        ensures
            r == self.start(),
    {
        self.buffer_start
    }

    /// How it is laid out.
    pub fn info(&self) -> (r: FrameBufferInfo)
        ensures
            r == self.layout(),
    {
        self.info
    }
}

} // verus!
