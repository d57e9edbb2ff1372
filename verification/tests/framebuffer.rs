use bootloader::framebuffer::{FrameBuffer, FrameBufferConfig, FrameBufferInfo, PixelFormat};
use bootloader::gop::{
    framebuffer, gop_layout, parse_gop_framebuffer, select_mode, FrameBufferError,
    FrameBufferReply, FrameBufferStep, GopBitmask, GopMode, GopPixelFormat,
};

fn mode(width: usize, height: usize) -> GopMode {
    GopMode {
        width,
        height,
        stride: width,
        pixel_format: GopPixelFormat::Bgr,
        pixel_bitmask: None,
    }
}

fn at_least(width: Option<usize>, height: Option<usize>) -> FrameBufferConfig {
    FrameBufferConfig {
        minimum_width: width,
        minimum_height: height,
    }
}

#[test]
fn a_framebuffer_keeps_what_it_was_made_with() {
    let info = FrameBufferInfo {
        byte_len: 64,
        width: 4,
        height: 4,
        pixel_format: PixelFormat::Rgb,
        bytes_per_pixel: 4,
        stride: 4,
    };
    let framebuffer = FrameBuffer::new(0x8000_0000, info);
    assert_eq!(framebuffer.buffer_start(), 0x8000_0000);
    assert_eq!(framebuffer.info(), info);
}

#[test]
fn nothing_is_asked_for_by_default() {
    assert_eq!(FrameBufferConfig::default(), at_least(None, None));
}

#[test]
fn the_search_goes_step_by_step() {
    let none = at_least(None, None);
    let wide = at_least(Some(800), None);
    let go = |config: &FrameBufferConfig, step, reply| framebuffer(config, step, reply);
    assert!(matches!(
        go(&none, FrameBufferStep::Find, FrameBufferReply::Failed),
        Err(FrameBufferError::GraphicsOutputNotFound)
    ));
    assert!(matches!(
        go(&none, FrameBufferStep::Find, FrameBufferReply::Succeeded),
        Ok(FrameBufferStep::Open)
    ));
    assert!(matches!(
        go(&none, FrameBufferStep::Open, FrameBufferReply::Failed),
        Err(FrameBufferError::GraphicsOutputOpen)
    ));
    assert!(matches!(
        go(&none, FrameBufferStep::Open, FrameBufferReply::Succeeded),
        Ok(FrameBufferStep::ReadMode)
    ));
    assert!(matches!(
        go(&wide, FrameBufferStep::Open, FrameBufferReply::Succeeded),
        Ok(FrameBufferStep::ListModes)
    ));
    assert!(matches!(
        go(&at_least(None, Some(1)), FrameBufferStep::Open, FrameBufferReply::Succeeded),
        Ok(FrameBufferStep::ListModes)
    ));
    let modes = vec![mode(640, 480), mode(1024, 768)];
    assert!(matches!(
        go(&wide, FrameBufferStep::ListModes, FrameBufferReply::Modes(modes)),
        Ok(FrameBufferStep::SetMode(1))
    ));
    assert!(matches!(
        go(&wide, FrameBufferStep::ListModes, FrameBufferReply::Modes(vec![mode(640, 480)])),
        Err(FrameBufferError::NoCompatibleMode)
    ));
    assert!(matches!(
        go(&wide, FrameBufferStep::SetMode(1), FrameBufferReply::Failed),
        Err(FrameBufferError::ModeSet)
    ));
    assert!(matches!(
        go(&wide, FrameBufferStep::SetMode(1), FrameBufferReply::Succeeded),
        Ok(FrameBufferStep::ReadMode)
    ));
    let mut blt = mode(1024, 768);
    blt.pixel_format = GopPixelFormat::BltOnly;
    assert!(matches!(
        go(&wide, FrameBufferStep::ReadMode, FrameBufferReply::Mode(blt)),
        Err(FrameBufferError::BltOnly)
    ));
    match go(&wide, FrameBufferStep::ReadMode, FrameBufferReply::Mode(mode(1024, 768))) {
        Ok(FrameBufferStep::ReadFrameBuffer(m)) => assert_eq!(m, mode(1024, 768)),
        other => panic!("{:?}", other),
    }
    let read = |byte_len: usize| {
        go(
            &wide,
            FrameBufferStep::ReadFrameBuffer(mode(1024, 768)),
            FrameBufferReply::FrameBuffer { start: 0x8000, byte_len },
        )
    };
    match read(1024 * 768 * 4) {
        Ok(FrameBufferStep::Done(found)) => {
            assert_eq!(found.buffer_start(), 0x8000);
            assert_eq!(found.info().width, 1024);
        }
        other => panic!("{:?}", other),
    }
    assert!(matches!(read(7), Err(FrameBufferError::InvalidLayout)));
}

#[test]
fn the_layout_is_that_of_the_mode() {
    let mut m = mode(640, 480);
    m.stride = 656;
    let framebuffer = parse_gop_framebuffer(&m, 0x9000_0000, 656 * 480 * 4).unwrap();
    assert_eq!(framebuffer.buffer_start(), 0x9000_0000);
    assert_eq!(
        framebuffer.info(),
        FrameBufferInfo {
            byte_len: 656 * 480 * 4,
            width: 640,
            height: 480,
            pixel_format: PixelFormat::Bgr,
            bytes_per_pixel: 4,
            stride: 656,
        }
    );
    assert_eq!(
        parse_gop_framebuffer(&m, 0, 656 * 480 * 4 - 1).unwrap_err(),
        FrameBufferError::InvalidLayout
    );
    let last = (479 * 656 + 639) * 4;
    assert!(last + 4 <= framebuffer.info().byte_len);
}

#[test]
fn pixel_formats_are_told_apart() {
    let mut m = mode(1, 1);
    m.pixel_format = GopPixelFormat::Rgb;
    assert_eq!(gop_layout(&m).unwrap().pixel_format, PixelFormat::Rgb);
    m.pixel_format = GopPixelFormat::Bitmask;
    assert_eq!(gop_layout(&m), Err(FrameBufferError::InvalidLayout));
    m.pixel_bitmask = Some(GopBitmask {
        red: 1,
        green: 2,
        blue: 4,
        reserved: 8,
    });
    let masks = PixelFormat::Bitmask {
        red: 1,
        green: 2,
        blue: 4,
        reserved: 8,
    };
    assert_eq!(gop_layout(&m).unwrap().pixel_format, masks);
    assert_eq!(gop_layout(&m).unwrap().minimum_byte_len, 4);
    m.pixel_format = GopPixelFormat::BltOnly;
    assert_eq!(gop_layout(&m), Err(FrameBufferError::BltOnly));
    assert_eq!(
        parse_gop_framebuffer(&m, 0, 4).unwrap_err(),
        FrameBufferError::BltOnly
    );
}

#[test]
fn layouts_that_cannot_be_are_refused() {
    let invalid = |m: GopMode| parse_gop_framebuffer(&m, 0, usize::MAX).unwrap_err();
    assert_eq!(invalid(mode(0, 1)), FrameBufferError::InvalidLayout);
    assert_eq!(invalid(mode(1, 0)), FrameBufferError::InvalidLayout);
    let mut narrow = mode(2, 2);
    narrow.stride = 1;
    assert_eq!(invalid(narrow), FrameBufferError::InvalidLayout);
    assert_eq!(invalid(mode(usize::MAX, 2)), FrameBufferError::InvalidLayout);
    assert_eq!(invalid(mode(usize::MAX / 4 + 1, 1)), FrameBufferError::InvalidLayout);
    assert!(parse_gop_framebuffer(&mode(usize::MAX / 4, 1), 0, usize::MAX).is_ok());
}

#[test]
fn the_smallest_mode_that_is_large_enough_is_chosen() {
    let mut blt = mode(800, 600);
    blt.pixel_format = GopPixelFormat::BltOnly;
    let modes = [
        mode(1920, 1080),
        blt,
        mode(1024, 768),
        mode(768, 1024),
        mode(640, 480),
    ];
    assert_eq!(select_mode(&modes, &at_least(Some(641), Some(481))), Some(2));
    assert_eq!(select_mode(&modes, &at_least(Some(800), None)), Some(2));
    assert_eq!(select_mode(&modes, &at_least(None, Some(800))), Some(3));
    assert_eq!(select_mode(&modes, &at_least(None, None)), Some(4));
    assert_eq!(select_mode(&modes, &at_least(Some(1920), Some(1080))), Some(0));
    assert_eq!(select_mode(&modes, &at_least(Some(1921), None)), None);
    assert_eq!(select_mode(&[], &at_least(None, None)), None);
    assert_eq!(
        select_mode(&[mode(usize::MAX, 3), mode(usize::MAX, 2)], &at_least(None, None)),
        Some(0)
    );
}
