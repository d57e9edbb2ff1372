//! Choosing a graphics mode and checking the framebuffer that it comes with.
use crate::framebuffer::{FrameBuffer, FrameBufferConfig, FrameBufferInfo, PixelFormat};
use vstd::prelude::*;

verus! {

/// The size of a pixel in every mode with a framebuffer.
pub const GOP_BYTES_PER_PIXEL: usize = 4;

/// Why there is no framebuffer.
#[derive(Clone, Copy, Debug, Eq, PartialEq)]
pub enum FrameBufferError {
    GraphicsOutputNotFound,
    GraphicsOutputOpen,
    NoCompatibleMode,
    ModeSet,
    BltOnly,
    InvalidLayout,
}

/// How the pixels of a mode are laid out.
#[derive(Clone, Copy, Debug, Eq, PartialEq, Structural)]
pub enum GopPixelFormat {
    Rgb,
    Bgr,
    /// The layout is that of the mode's masks.
    Bitmask,
    /// There is no framebuffer, only block transfer.
    BltOnly,
}

/// Which bits of a pixel belong to which channel.
#[derive(Clone, Copy, Debug, Eq, PartialEq)]
pub struct GopBitmask {
    pub red: u32,
    pub green: u32,
    pub blue: u32,
    pub reserved: u32,
}

/// A graphics mode.
#[derive(Clone, Copy, Debug, Eq, PartialEq)]
pub struct GopMode {
    pub width: usize,
    pub height: usize,
    pub stride: usize,
    pub pixel_format: GopPixelFormat,
    pub pixel_bitmask: Option<GopBitmask>,
}

/// The pixel format of a mode, or why there is none.
pub open spec fn pixel_format_of(mode: GopMode) -> Result<PixelFormat, FrameBufferError> {
    match mode.pixel_format {
        GopPixelFormat::Rgb => Ok(PixelFormat::Rgb),
        GopPixelFormat::Bgr => Ok(PixelFormat::Bgr),
        GopPixelFormat::Bitmask => match mode.pixel_bitmask {
            Some(masks) => Ok(
                PixelFormat::Bitmask {
                    red: masks.red,
                    green: masks.green,
                    blue: masks.blue,
                    reserved: masks.reserved,
                },
            ),
            None => Err(FrameBufferError::InvalidLayout),
        },
        GopPixelFormat::BltOnly => Err(FrameBufferError::BltOnly),
    }
}

/// How many bytes the rows of a mode take up.
pub open spec fn minimum_bytes(mode: GopMode) -> int {
    mode.stride * mode.height * GOP_BYTES_PER_PIXEL
}

/// The layout of the framebuffer of a mode, or why it has none that could be addressed.
pub open spec fn layout_of(mode: GopMode) -> Result<GopLayout, FrameBufferError> {
    match pixel_format_of(mode) {
        Err(error) => Err(error),
        Ok(pixel_format) => if minimum_bytes(mode) > usize::MAX {
            Err(FrameBufferError::InvalidLayout)
        } else {
            Ok(GopLayout { mode, pixel_format, minimum_byte_len: minimum_bytes(mode) as usize })
        },
    }
}

/// Whether `byte_len` bytes hold a picture of the mode.
pub open spec fn holds_picture(mode: GopMode, byte_len: int) -> bool {
    &&& mode.width > 0
    &&& mode.height > 0
    &&& mode.width <= mode.stride
    &&& minimum_bytes(mode) <= byte_len
}

/// The layout of the framebuffer of a mode, which still has to be held against its size.
#[derive(Clone, Copy, Debug, Eq, PartialEq)]
pub struct GopLayout {
    pub mode: GopMode,
    pub pixel_format: PixelFormat,
    pub minimum_byte_len: usize,
}

/// The framebuffer of a mode, `byte_len` bytes long, or why it cannot be used.
pub open spec fn gop_framebuffer(mode: GopMode, byte_len: usize) -> Result<
    FrameBufferInfo,
    FrameBufferError,
> {
    match layout_of(mode) {
        Err(error) => Err(error),
        Ok(layout) => if holds_picture(mode, byte_len as int) {
            Ok(
                FrameBufferInfo {
                    byte_len,
                    width: mode.width,
                    height: mode.height,
                    pixel_format: layout.pixel_format,
                    bytes_per_pixel: GOP_BYTES_PER_PIXEL,
                    stride: mode.stride,
                },
            )
        } else {
            Err(FrameBufferError::InvalidLayout)
        },
    }
}

/// The layout of the framebuffer of a mode. A mode without a framebuffer is told apart here, before
/// anyone asks the firmware for it.
pub fn gop_layout(mode: &GopMode) -> (r: Result<GopLayout, FrameBufferError>)
    ensures
        r == layout_of(*mode),
{
    let pixel_format = match mode.pixel_format {
        GopPixelFormat::Rgb => PixelFormat::Rgb,
        GopPixelFormat::Bgr => PixelFormat::Bgr,
        GopPixelFormat::Bitmask => match mode.pixel_bitmask {
            Some(masks) => PixelFormat::Bitmask {
                red: masks.red,
                green: masks.green,
                blue: masks.blue,
                reserved: masks.reserved,
            },
            None => return Err(FrameBufferError::InvalidLayout),
        },
        GopPixelFormat::BltOnly => return Err(FrameBufferError::BltOnly),
    };
    let pixels: usize = match mode.stride.checked_mul(mode.height) {
        Some(pixels) => pixels,
        None => return Err(FrameBufferError::InvalidLayout),
    };
    match pixels.checked_mul(GOP_BYTES_PER_PIXEL) {
        Some(minimum_byte_len) => Ok(GopLayout { mode: *mode, pixel_format, minimum_byte_len }),
        None => Err(FrameBufferError::InvalidLayout),
    }
}

/// The framebuffer of a mode, of which the firmware says where it is and how long.
pub fn parse_gop_framebuffer(mode: &GopMode, buffer_start: u64, byte_len: usize) -> (r: Result<
    FrameBuffer,
    FrameBufferError,
>)
    ensures
        match r {
            Ok(framebuffer) => {
                &&& gop_framebuffer(*mode, byte_len) == Ok::<FrameBufferInfo, FrameBufferError>(
                    framebuffer.layout(),
                )
                &&& framebuffer.start() == buffer_start
            },
            Err(error) => gop_framebuffer(*mode, byte_len) == Err::<
                FrameBufferInfo,
                FrameBufferError,
            >(error),
        },
{
    let layout = match gop_layout(mode) {
        Ok(layout) => layout,
        Err(error) => return Err(error),
    };
    if mode.width == 0 || mode.height == 0 || mode.stride < mode.width || byte_len
        < layout.minimum_byte_len {
        return Err(FrameBufferError::InvalidLayout);
    }
    let info = FrameBufferInfo {
        byte_len,
        width: mode.width,
        height: mode.height,
        pixel_format: layout.pixel_format,
        bytes_per_pixel: GOP_BYTES_PER_PIXEL,
        stride: mode.stride,
    };
    Ok(FrameBuffer::new(buffer_start, info))
}

/// Whether a mode has a framebuffer and is as large as asked for.
pub open spec fn compatible(mode: GopMode, config: FrameBufferConfig) -> bool {
    &&& mode.pixel_format != GopPixelFormat::BltOnly
    &&& config.minimum_width matches Some(minimum) ==> minimum <= mode.width
    &&& config.minimum_height matches Some(minimum) ==> minimum <= mode.height
}

/// The number of pixels of a mode, as far as it can be told.
pub open spec fn area(mode: GopMode) -> int {
    if mode.width * mode.height <= usize::MAX {
        mode.width * mode.height
    } else {
        usize::MAX as int
    }
}

/// Whether `i` is the first of the smallest compatible modes.
pub open spec fn is_selected(modes: Seq<GopMode>, config: FrameBufferConfig, i: int) -> bool {
    &&& 0 <= i < modes.len()
    &&& compatible(modes[i], config)
    &&& forall|j: int|
        #![trigger modes[j]]
        0 <= j < modes.len() && compatible(modes[j], config) ==> area(modes[i]) <= area(modes[j])
            && (j < i ==> area(modes[i]) < area(modes[j]))
}

fn is_compatible(mode: &GopMode, config: &FrameBufferConfig) -> (r: bool)
    ensures
        r == compatible(*mode, *config),
{
    let wide = match config.minimum_width {
        Some(minimum) => mode.width >= minimum,
        None => true,
    };
    let high = match config.minimum_height {
        Some(minimum) => mode.height >= minimum,
        None => true,
    };
    mode.pixel_format != GopPixelFormat::BltOnly && wide && high
}

fn area_of(mode: &GopMode) -> (r: usize)
    ensures
        r == area(*mode),
{
    match mode.width.checked_mul(mode.height) {
        Some(pixels) => pixels,
        None => usize::MAX,
    }
}

/// The first of the smallest modes that have a framebuffer and are as large as asked for.
pub fn select_mode(modes: &[GopMode], config: &FrameBufferConfig) -> (r: Option<usize>)
    ensures
        match r {
            Some(i) => is_selected(modes@, *config, i as int),
            None => forall|i: int|
                0 <= i < modes@.len() ==> !compatible(#[trigger] modes@[i], *config),
        },
{
    let mut best: Option<usize> = None;
    let mut i: usize = 0;
    while i < modes.len()
        invariant
            i <= modes@.len(),
            match best {
                Some(b) => b < i && is_selected(modes@.take(i as int), *config, b as int),
                None => forall|j: int|
                    0 <= j < i ==> !compatible(#[trigger] modes@[j], *config),
            },
        decreases modes@.len() - i,
    {
        let ghost before = modes@.take(i as int);
        let ghost after = modes@.take(i + 1);
        assert(after =~= before.push(modes@[i as int]));
        assert forall|j: int| 0 <= j < i implies after[j] == before[j] && before[j] == modes@[j] by {}
        let mode = &modes[i];
        if is_compatible(mode, config) {
            match best {
                Some(b) => {
                    assert(before[b as int] == modes@[b as int]);
                    if area_of(mode) < area_of(&modes[b]) {
                        best = Some(i);
                    }
                },
                None => {
                    best = Some(i);
                },
            }
        }
        i = i + 1;
    }
    assert(modes@.take(i as int) =~= modes@);
    best
}

/// Two indices of the first of the smallest compatible modes are the same: there is one such mode
/// or none.
pub proof fn law_selected_mode_is_unique(
    modes: Seq<GopMode>,
    config: FrameBufferConfig,
    i: int,
    j: int,
)
    requires
        is_selected(modes, config, i),
        is_selected(modes, config, j),
    ensures
        i == j,
{
    assert(compatible(modes[i], config) && compatible(modes[j], config));
}

/// Every pixel of a framebuffer that was accepted lies within its bytes, and no two pixels share a
/// byte.
pub proof fn law_pixels_lie_in_the_framebuffer(
    mode: GopMode,
    byte_len: usize,
    info: FrameBufferInfo,
    x: int,
    y: int,
    x2: int,
    y2: int,
)
    requires
        gop_framebuffer(mode, byte_len) == Ok::<FrameBufferInfo, FrameBufferError>(info),
        0 <= x < info.width,
        0 <= y < info.height,
        0 <= x2 < info.width,
        0 <= y2 < info.height,
        (x, y) != (x2, y2),
    ensures
        0 <= info.pixel_offset(x, y),
        info.pixel_offset(x, y) + info.bytes_per_pixel <= info.byte_len,
        info.pixel_offset(x, y) + info.bytes_per_pixel <= info.pixel_offset(x2, y2)
            || info.pixel_offset(x2, y2) + info.bytes_per_pixel <= info.pixel_offset(x, y),
{
    let stride = info.stride as int;
    assert(0 <= y * stride && y * stride + stride <= info.height * stride) by (nonlinear_arith)
        requires
            0 <= y,
            y + 1 <= info.height,
            0 <= stride,
    ;
    assert(info.height * stride == mode.stride * mode.height) by (nonlinear_arith)
        requires
            info.height == mode.height,
            stride == mode.stride,
    ;
    if y < y2 {
        assert(y * stride + stride <= y2 * stride) by (nonlinear_arith)
            requires
                y + 1 <= y2,
                0 <= stride,
        ;
    } else if y2 < y {
        assert(y2 * stride + stride <= y * stride) by (nonlinear_arith)
            requires
                y2 + 1 <= y,
                0 <= stride,
        ;
    }
}

/// What the search for a framebuffer does next.
#[derive(Debug)]
pub enum FrameBufferStep {
    /// Find the graphics output.
    Find,
    /// Open it.
    Open,
    /// List its modes.
    ListModes,
    /// Set the mode at this position of the list.
    SetMode(usize),
    /// Read the current mode.
    ReadMode,
    /// Read where the framebuffer of this mode is and how long.
    ReadFrameBuffer(GopMode),
    Done(FrameBuffer),
}

/// What came of a step.
#[derive(Debug)]
pub enum FrameBufferReply {
    Failed,
    Succeeded,
    Modes(Vec<GopMode>),
    Mode(GopMode),
    FrameBuffer { start: u64, byte_len: usize },
}

/// Whether this can come of that step. Only finding, opening and setting can fail.
pub open spec fn answers(step: FrameBufferStep, reply: FrameBufferReply) -> bool {
    match step {
        FrameBufferStep::Find | FrameBufferStep::Open | FrameBufferStep::SetMode(_) => reply
            is Failed || reply is Succeeded,
        FrameBufferStep::ListModes => reply is Modes,
        FrameBufferStep::ReadMode => reply is Mode,
        FrameBufferStep::ReadFrameBuffer(_) => reply is FrameBuffer,
        FrameBufferStep::Done(_) => false,
    }
}

/// Whether `next` is what follows a step with this reply.
pub open spec fn follows(
    config: FrameBufferConfig,
    step: FrameBufferStep,
    reply: FrameBufferReply,
    next: Result<FrameBufferStep, FrameBufferError>,
) -> bool {
    match (step, reply) {
        (FrameBufferStep::Find, FrameBufferReply::Failed) => next == Err::<FrameBufferStep, _>(
            FrameBufferError::GraphicsOutputNotFound,
        ),
        (FrameBufferStep::Find, _) => next == Ok::<_, FrameBufferError>(FrameBufferStep::Open),
        (FrameBufferStep::Open, FrameBufferReply::Failed) => next == Err::<FrameBufferStep, _>(
            FrameBufferError::GraphicsOutputOpen,
        ),
        (FrameBufferStep::Open, _) => next == Ok::<_, FrameBufferError>(
            if config.minimum_width is Some || config.minimum_height is Some {
                FrameBufferStep::ListModes
            } else {
                FrameBufferStep::ReadMode
            },
        ),
        (FrameBufferStep::ListModes, FrameBufferReply::Modes(modes)) => match next {
            Ok(FrameBufferStep::SetMode(i)) => is_selected(modes@, config, i as int),
            Err(FrameBufferError::NoCompatibleMode) => forall|i: int|
                0 <= i < modes@.len() ==> !compatible(#[trigger] modes@[i], config),
            _ => false,
        },
        (FrameBufferStep::SetMode(_), FrameBufferReply::Failed) => next == Err::<
            FrameBufferStep,
            _,
        >(FrameBufferError::ModeSet),
        (FrameBufferStep::SetMode(_), _) => next == Ok::<_, FrameBufferError>(
            FrameBufferStep::ReadMode,
        ),
        (FrameBufferStep::ReadMode, FrameBufferReply::Mode(mode)) => next == match layout_of(mode) {
            Ok(_) => Ok(FrameBufferStep::ReadFrameBuffer(mode)),
            Err(error) => Err(error),
        },
        (
            FrameBufferStep::ReadFrameBuffer(mode),
            FrameBufferReply::FrameBuffer { start, byte_len },
        ) => match gop_framebuffer(mode, byte_len) {
            Ok(info) => next matches Ok(FrameBufferStep::Done(framebuffer)) && framebuffer.start()
                == start && framebuffer.layout() == info,
            Err(error) => next == Err::<FrameBufferStep, _>(error),
        },
        _ => false,
    }
}

/// Goes on with the search for a framebuffer, which starts with `Find`. A mode is set only where one
/// is asked for. The framebuffer of a mode without one is not read.
pub fn framebuffer(config: &FrameBufferConfig, step: FrameBufferStep, reply: FrameBufferReply) -> (r:
    Result<FrameBufferStep, FrameBufferError>)
    requires
        answers(step, reply),
    ensures
        follows(*config, step, reply, r),
{
    match (step, reply) {
        (FrameBufferStep::Find, FrameBufferReply::Failed) => Err(
            FrameBufferError::GraphicsOutputNotFound,
        ),
        (FrameBufferStep::Find, _) => Ok(FrameBufferStep::Open),
        (FrameBufferStep::Open, FrameBufferReply::Failed) => Err(
            FrameBufferError::GraphicsOutputOpen,
        ),
        (FrameBufferStep::Open, _) => if config.minimum_width.is_some()
            || config.minimum_height.is_some() {
            Ok(FrameBufferStep::ListModes)
        } else {
            Ok(FrameBufferStep::ReadMode)
        },
        (FrameBufferStep::ListModes, FrameBufferReply::Modes(modes)) => match select_mode(
            modes.as_slice(),
            config,
        ) {
            Some(i) => Ok(FrameBufferStep::SetMode(i)),
            None => Err(FrameBufferError::NoCompatibleMode),
        },
        (FrameBufferStep::SetMode(_), FrameBufferReply::Failed) => Err(FrameBufferError::ModeSet),
        (FrameBufferStep::SetMode(_), _) => Ok(FrameBufferStep::ReadMode),
        (FrameBufferStep::ReadMode, FrameBufferReply::Mode(mode)) => match gop_layout(&mode) {
            Ok(_) => Ok(FrameBufferStep::ReadFrameBuffer(mode)),
            Err(error) => Err(error),
        },
        (
            FrameBufferStep::ReadFrameBuffer(mode),
            FrameBufferReply::FrameBuffer { start, byte_len },
        ) => match parse_gop_framebuffer(&mode, start, byte_len) {
            Ok(framebuffer) => Ok(FrameBufferStep::Done(framebuffer)),
            Err(error) => Err(error),
        },
        _ => Err(FrameBufferError::InvalidLayout),
    }
}

// ---------------------------------------------------------------------------------------------
// What the operations are for
// ---------------------------------------------------------------------------------------------
/// A mode is compatible if and only if it has a framebuffer and is at least as wide and as high as
/// asked for.
pub proof fn law_compatible_modes_are_large_enough(mode: GopMode, config: FrameBufferConfig)
    ensures
        compatible(mode, config) <==> {
            &&& mode.pixel_format is Rgb || mode.pixel_format is Bgr || mode.pixel_format is Bitmask
            &&& config.minimum_width is None || mode.width >= config.minimum_width->0
            &&& config.minimum_height is None || mode.height >= config.minimum_height->0
        },
{
}

/// No compatible mode has fewer pixels than the chosen one, and none before it has as few. Numbers of
/// pixels that are too large to tell count as the largest that can be told.
pub proof fn law_chosen_mode_has_the_fewest_pixels(
    modes: Seq<GopMode>,
    config: FrameBufferConfig,
    i: int,
    j: int,
)
    requires
        is_selected(modes, config, i),
        0 <= j < modes.len(),
        modes[j].pixel_format is Rgb || modes[j].pixel_format is Bgr || modes[j].pixel_format
            is Bitmask,
        config.minimum_width is None || modes[j].width >= config.minimum_width->0,
        config.minimum_height is None || modes[j].height >= config.minimum_height->0,
    ensures
        0 <= i < modes.len(),
        modes[i].width * modes[i].height <= modes[j].width * modes[j].height || modes[j].width
            * modes[j].height >= usize::MAX,
        j < i ==> modes[i].width * modes[i].height < modes[j].width * modes[j].height && modes[i].width
            * modes[i].height < usize::MAX,
{
    assert(compatible(modes[j], config));
}

/// The chosen mode has a framebuffer and is at least as large as asked for; and a mode that is so,
/// has fewer pixels than any such mode before it and no more than any such mode behind it, is the
/// chosen one.
pub proof fn law_the_first_smallest_mode_is_chosen(
    modes: Seq<GopMode>,
    config: FrameBufferConfig,
    i: int,
)
    requires
        0 <= i < modes.len(),
    ensures
        is_selected(modes, config, i) ==> {
            &&& !(modes[i].pixel_format is BltOnly)
            &&& config.minimum_width is None || modes[i].width >= config.minimum_width->0
            &&& config.minimum_height is None || modes[i].height >= config.minimum_height->0
        },
        ({
            &&& !(modes[i].pixel_format is BltOnly)
            &&& config.minimum_width is None || modes[i].width >= config.minimum_width->0
            &&& config.minimum_height is None || modes[i].height >= config.minimum_height->0
            &&& forall|j: int|
                #![trigger modes[j]]
                0 <= j < modes.len() && !(modes[j].pixel_format is BltOnly) && (
                config.minimum_width is None || modes[j].width >= config.minimum_width->0) && (
                config.minimum_height is None || modes[j].height >= config.minimum_height->0)
                    ==> modes[i].width * modes[i].height <= modes[j].width * modes[j].height && (j < i
                    ==> modes[i].width * modes[i].height < modes[j].width * modes[j].height
                    && modes[i].width * modes[i].height < usize::MAX)
        }) ==> is_selected(modes, config, i),
{
}

/// The framebuffer of a mode is accepted if and only if the mode has one whose pixels are known, the
/// mode is not empty, its rows are as long as they have to be, and all of them lie in the
/// framebuffer.
pub proof fn law_framebuffers_are_accepted_exactly(mode: GopMode, byte_len: usize)
    ensures
        gop_framebuffer(mode, byte_len) is Ok <==> {
            &&& mode.pixel_format is Rgb || mode.pixel_format is Bgr || (mode.pixel_format is Bitmask
                && mode.pixel_bitmask is Some)
            &&& 0 < mode.width <= mode.stride
            &&& 0 < mode.height
            &&& mode.stride * mode.height * 4 <= byte_len
        },
        gop_framebuffer(mode, byte_len) == Err::<FrameBufferInfo, FrameBufferError>(
            FrameBufferError::BltOnly,
        ) <==> mode.pixel_format is BltOnly,
        gop_framebuffer(mode, byte_len) is Err && !(mode.pixel_format is BltOnly)
            ==> gop_framebuffer(mode, byte_len) == Err::<FrameBufferInfo, FrameBufferError>(
            FrameBufferError::InvalidLayout,
        ),
{
    assert(mode.stride * mode.height * GOP_BYTES_PER_PIXEL == mode.stride * mode.height * 4);
}

/// An accepted framebuffer is described by its mode: its size, the distance of its rows, four bytes
/// for a pixel, and the channels that the mode names.
pub proof fn law_framebuffers_are_described_by_their_mode(
    mode: GopMode,
    byte_len: usize,
    info: FrameBufferInfo,
)
    requires
        gop_framebuffer(mode, byte_len) == Ok::<FrameBufferInfo, FrameBufferError>(info),
    ensures
        info.byte_len == byte_len,
        info.width == mode.width,
        info.height == mode.height,
        info.stride == mode.stride,
        info.bytes_per_pixel == 4,
        info.pixel_format is Rgb <==> mode.pixel_format is Rgb,
        info.pixel_format is Bgr <==> mode.pixel_format is Bgr,
        info.pixel_format matches PixelFormat::Bitmask { red, green, blue, reserved }
            ==> mode.pixel_bitmask matches Some(masks) && masks.red == red && masks.green == green
            && masks.blue == blue && masks.reserved == reserved,
{
}

/// The layout of a mode, before its framebuffer is read: it is there if and only if the pixels are
/// known and the rows have a length in bytes that can be told.
pub proof fn law_layouts_are_those_of_their_modes(mode: GopMode)
    ensures
        layout_of(mode) is Ok <==> {
            &&& mode.pixel_format is Rgb || mode.pixel_format is Bgr || (mode.pixel_format is Bitmask
                && mode.pixel_bitmask is Some)
            &&& mode.stride * mode.height * 4 <= usize::MAX
        },
        layout_of(mode) == Err::<GopLayout, FrameBufferError>(FrameBufferError::BltOnly)
            <==> mode.pixel_format is BltOnly,
        layout_of(mode) is Err && !(mode.pixel_format is BltOnly) ==> layout_of(mode) == Err::<
            GopLayout,
            FrameBufferError,
        >(FrameBufferError::InvalidLayout),
        layout_of(mode) matches Ok(layout) ==> {
            &&& layout.mode == mode
            &&& layout.minimum_byte_len == mode.stride * mode.height * 4
            &&& layout.pixel_format is Rgb <==> mode.pixel_format is Rgb
            &&& layout.pixel_format is Bgr <==> mode.pixel_format is Bgr
            &&& layout.pixel_format matches PixelFormat::Bitmask { red, green, blue, reserved }
                ==> mode.pixel_bitmask matches Some(masks) && masks.red == red && masks.green
                == green && masks.blue == blue && masks.reserved == reserved
        },
{
    assert(mode.stride * mode.height * GOP_BYTES_PER_PIXEL == mode.stride * mode.height * 4);
}

/// The order of the search: find, open, choose and set a mode where a size is asked for, read the
/// mode, read its framebuffer. Each failure has its own error.
pub proof fn law_the_search_goes_in_order(
    config: FrameBufferConfig,
    step: FrameBufferStep,
    reply: FrameBufferReply,
    next: Result<FrameBufferStep, FrameBufferError>,
)
    requires
        follows(config, step, reply, next),
    ensures
        step is Find && reply is Failed ==> next == Err::<FrameBufferStep, FrameBufferError>(
            FrameBufferError::GraphicsOutputNotFound,
        ),
        step is Find && reply is Succeeded ==> next matches Ok(FrameBufferStep::Open),
        step is Open && reply is Failed ==> next == Err::<FrameBufferStep, FrameBufferError>(
            FrameBufferError::GraphicsOutputOpen,
        ),
        step is Open && reply is Succeeded && config.minimum_width is None && config.minimum_height
            is None ==> next matches Ok(FrameBufferStep::ReadMode),
        step is Open && reply is Succeeded && (config.minimum_width is Some
            || config.minimum_height is Some) ==> next matches Ok(FrameBufferStep::ListModes),
        step is ListModes ==> match (reply, next) {
            (FrameBufferReply::Modes(modes), Ok(FrameBufferStep::SetMode(i))) => is_selected(
                modes@,
                config,
                i as int,
            ),
            (
                FrameBufferReply::Modes(modes),
                Err(FrameBufferError::NoCompatibleMode),
            ) => forall|i: int|
                #![trigger modes@[i]]
                0 <= i < modes@.len() ==> modes@[i].pixel_format is BltOnly || (config.minimum_width
                    is Some && modes@[i].width < config.minimum_width->0) || (config.minimum_height
                    is Some && modes@[i].height < config.minimum_height->0),
            _ => false,
        },
        step is SetMode && reply is Failed ==> next == Err::<FrameBufferStep, FrameBufferError>(
            FrameBufferError::ModeSet,
        ),
        step is SetMode && reply is Succeeded ==> next matches Ok(FrameBufferStep::ReadMode),
        step is ReadMode ==> match (reply, next) {
            (FrameBufferReply::Mode(mode), Ok(FrameBufferStep::ReadFrameBuffer(read))) => read
                == mode && layout_of(mode) is Ok,
            (FrameBufferReply::Mode(mode), Err(error)) => layout_of(mode) == Err::<GopLayout, _>(
                error,
            ),
            _ => false,
        },
        step matches FrameBufferStep::ReadFrameBuffer(mode) ==> match (reply, next) {
            (
                FrameBufferReply::FrameBuffer { start, byte_len },
                Ok(FrameBufferStep::Done(framebuffer)),
            ) => framebuffer.start() == start && gop_framebuffer(mode, byte_len) == Ok::<_, FrameBufferError>(
                framebuffer.layout(),
            ),
            (FrameBufferReply::FrameBuffer { start, byte_len }, Err(error)) => gop_framebuffer(
                mode,
                byte_len,
            ) == Err::<FrameBufferInfo, _>(error),
            _ => false,
        },
        !(step is Done),
{
}

/// Every step can be answered: finding, opening and setting by success or failure, the others by what
/// was read.
pub proof fn law_every_step_can_be_answered(
    modes: Vec<GopMode>,
    mode: GopMode,
    i: usize,
    start: u64,
    byte_len: usize,
)
    ensures
        answers(FrameBufferStep::Find, FrameBufferReply::Failed),
        answers(FrameBufferStep::Find, FrameBufferReply::Succeeded),
        answers(FrameBufferStep::Open, FrameBufferReply::Failed),
        answers(FrameBufferStep::Open, FrameBufferReply::Succeeded),
        answers(FrameBufferStep::ListModes, FrameBufferReply::Modes(modes)),
        answers(FrameBufferStep::SetMode(i), FrameBufferReply::Failed),
        answers(FrameBufferStep::SetMode(i), FrameBufferReply::Succeeded),
        answers(FrameBufferStep::ReadMode, FrameBufferReply::Mode(mode)),
        answers(
            FrameBufferStep::ReadFrameBuffer(mode),
            (FrameBufferReply::FrameBuffer { start, byte_len }),
        ),
{
}

} // verus!
