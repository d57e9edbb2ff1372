use bootloader::boot_info::{BootConfig, BootConfigError};
use bootloader::cfg::{CfgFile, FromCfg};

#[test]
fn parses_framebuffer_dimensions() {
    let cfg =
        CfgFile::parse(b"kernel=/kernel.elf\nframebuffer_width=1920\nframebuffer_height=1080\n")
            .unwrap();

    let config = BootConfig::from_cfg(&cfg).unwrap();

    assert_eq!(config.kernel, "/kernel.elf");
    assert_eq!(config.framebuffer.minimum_width, Some(1920));
    assert_eq!(config.framebuffer.minimum_height, Some(1080));
}

#[test]
fn rejects_invalid_framebuffer_dimensions() {
    let cfg =
        CfgFile::parse(b"kernel=/kernel.elf\nframebuffer_width=wide\nframebuffer_height=1080\n")
            .unwrap();

    assert_eq!(
        BootConfig::from_cfg(&cfg),
        Err(BootConfigError::InvalidFramebufferWidth)
    );
}
