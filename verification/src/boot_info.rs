//! What the boot loader reads from its configuration and hands to the kernel.
use crate::cfg::{last_value, CfgFile, FromCfg, Pair};
use crate::framebuffer::{FrameBuffer, FrameBufferConfig};
use crate::mapper::GranuleKind;
use crate::memory_map::MemoryMap;
use crate::text::{decimal, parse_usize};
use vstd::prelude::*;

verus! {

/// Everything that the kernel is told.
#[derive(Debug)]
pub struct BootInfo<'a> {
    pub memory_map: MemoryMap<'a>,
    pub framebuffer: Optional<FrameBuffer>,
    /// Zero where there is none.
    pub rsdp_addr: u64,
    /// Zero where there is none.
    pub fdt_addr: u64,
    pub stub_entry: u64,
    pub stub_virt_base: u64,
    pub stub_virt_size: u64,
    pub translation: TranslationInfo,
}

/// A value that may be missing.
#[derive(Debug)]
pub enum Optional<T> {
    Present(T),
    Absent,
}

/// How the upper half of the address space is translated.
#[derive(Clone, Copy, Debug)]
pub struct TranslationInfo {
    pub root_table: u64,
    pub recursive_base: u64,
    pub recursive_index: usize,
    pub input_addr_bits: u8,
    pub output_addr_bits: u8,
    pub granule_kind: GranuleKind,
    pub mair_el1: u64,
    pub tcr_el1: u64,
    pub tcr2_el1: u64,
    pub ttbr1_el1: u64,
    pub scratch_page: u64,
    /// The address of the descriptor that maps the scratch page.
    pub scratch_descriptor: u64,
}

/// The settings of the boot loader.
#[derive(Clone, Copy, Debug, Eq, PartialEq)]
pub struct BootConfig<'a> {
    /// The path of the kernel.
    pub kernel: &'a str,
    pub framebuffer: FrameBufferConfig,
}

/// What is wrong with the settings.
#[derive(Clone, Copy, Debug, Eq, PartialEq)]
pub enum BootConfigError {
    MissingKernel,
    MissingFramebufferWidth,
    InvalidFramebufferWidth,
    MissingFramebufferHeight,
    InvalidFramebufferHeight,
}

/// A `BootConfig` as a mathematical value.
pub struct BootSettings {
    pub kernel: Seq<char>,
    pub framebuffer: FrameBufferConfig,
}

impl<'a> View for BootConfig<'a> {
    type V = BootSettings;

    open spec fn view(&self) -> BootSettings {
        BootSettings { kernel: self.kernel@, framebuffer: self.framebuffer }
    }
}

/// The settings that these entries write. The kernel is looked at first, then the width, then the
/// height; the first thing that is wrong is reported.
pub open spec fn boot_settings(entries: Seq<Pair>) -> Result<BootSettings, BootConfigError> {
    match (
        last_value(entries, "kernel"@),
        last_value(entries, "framebuffer_width"@),
        last_value(entries, "framebuffer_height"@),
    ) {
        (None, _, _) => Err(BootConfigError::MissingKernel),
        (_, None, _) => Err(BootConfigError::MissingFramebufferWidth),
        (Some(kernel), Some(width), height) => match (decimal(width), height) {
            (None, _) => Err(BootConfigError::InvalidFramebufferWidth),
            (_, None) => Err(BootConfigError::MissingFramebufferHeight),
            (Some(width), Some(height)) => match decimal(height) {
                None => Err(BootConfigError::InvalidFramebufferHeight),
                Some(height) => Ok(
                    BootSettings {
                        kernel,
                        framebuffer: FrameBufferConfig {
                            minimum_width: Some(width),
                            minimum_height: Some(height),
                        },
                    },
                ),
            },
        },
    }
}

impl<'a> FromCfg<'a> for BootConfig<'a> {
    type Error = BootConfigError;

    /// Reads the settings: `kernel`, `framebuffer_width` and `framebuffer_height`, all of which
    /// have to be there, and the last two of which have to be decimal numbers.
    fn from_cfg(cfg: &CfgFile<'a>) -> (r: Result<Self, BootConfigError>)
        ensures
            match r {
                Ok(config) => boot_settings(cfg@) == Ok::<BootSettings, BootConfigError>(config@),
                Err(error) => boot_settings(cfg@) == Err::<BootSettings, BootConfigError>(error),
            },
    {
        let kernel = match cfg.get("kernel") {
            Some(kernel) => kernel,
            None => return Err(BootConfigError::MissingKernel),
        };
        let width: usize = match cfg.get("framebuffer_width") {
            Some(width) => match parse_usize(width) {
                Some(width) => width,
                None => return Err(BootConfigError::InvalidFramebufferWidth),
            },
            None => return Err(BootConfigError::MissingFramebufferWidth),
        };
        let height: usize = match cfg.get("framebuffer_height") {
            Some(height) => match parse_usize(height) {
                Some(height) => height,
                None => return Err(BootConfigError::InvalidFramebufferHeight),
            },
            None => return Err(BootConfigError::MissingFramebufferHeight),
        };
        Ok(
            BootConfig {
                kernel,
                framebuffer: FrameBufferConfig {
                    minimum_width: Some(width),
                    minimum_height: Some(height),
                },
            },
        )
    }
}

/// Entries with other keys do not change the settings.
pub proof fn law_other_keys_do_not_matter(entries: Seq<Pair>, entry: Pair)
    requires
        entry.0 != "kernel"@,
        entry.0 != "framebuffer_width"@,
        entry.0 != "framebuffer_height"@,
    ensures
        boot_settings(entries.push(entry)) == boot_settings(entries),
{
    assert(entries.push(entry).drop_last() =~= entries);
}

/// The settings are read if and only if all three keys are there and both sizes are numbers; they
/// are then what the last entries of the keys say.
pub proof fn law_settings_are_the_last_entries(
    entries: Seq<Pair>,
    kernel: Seq<char>,
    width: usize,
    height: usize,
)
    ensures
        (boot_settings(entries) is Ok && boot_settings(entries)->Ok_0.kernel == kernel
            && boot_settings(entries)->Ok_0.framebuffer.minimum_width == Some(width)
            && boot_settings(entries)->Ok_0.framebuffer.minimum_height == Some(height)) <==> {
            &&& last_value(entries, "kernel"@) == Some(kernel)
            &&& last_value(entries, "framebuffer_width"@) matches Some(w) && decimal(w) == Some(
                width,
            )
            &&& last_value(entries, "framebuffer_height"@) matches Some(h) && decimal(h) == Some(
                height,
            )
        },
        boot_settings(entries) is Ok ==> boot_settings(entries)->Ok_0.framebuffer.minimum_width
            is Some && boot_settings(entries)->Ok_0.framebuffer.minimum_height is Some,
{
}

/// What is reported where the settings cannot be read: the kernel comes first, then the width, then
/// the height.
pub proof fn law_missing_and_wrong_settings_are_reported(entries: Seq<Pair>)
    ensures
        ({
            let kernel = last_value(entries, "kernel"@);
            let width = last_value(entries, "framebuffer_width"@);
            let height = last_value(entries, "framebuffer_height"@);
            let outcome = boot_settings(entries);
            &&& kernel is None <==> outcome == Err::<BootSettings, BootConfigError>(
                BootConfigError::MissingKernel,
            )
            &&& kernel is Some && width is None <==> outcome == Err::<
                BootSettings,
                BootConfigError,
            >(BootConfigError::MissingFramebufferWidth)
            &&& kernel is Some && width is Some && decimal(width->0) is None <==> outcome == Err::<
                BootSettings,
                BootConfigError,
            >(BootConfigError::InvalidFramebufferWidth)
            &&& kernel is Some && width is Some && decimal(width->0) is Some && height is None
                <==> outcome == Err::<BootSettings, BootConfigError>(
                BootConfigError::MissingFramebufferHeight,
            )
            &&& kernel is Some && width is Some && decimal(width->0) is Some && height is Some
                && decimal(height->0) is None <==> outcome == Err::<BootSettings, BootConfigError>(
                BootConfigError::InvalidFramebufferHeight,
            )
        }),
{
}

/// The settings as a value are the settings.
pub proof fn law_settings_keep_every_field(config: BootConfig)
    ensures
        config@.kernel == config.kernel@,
        config@.framebuffer == config.framebuffer,
{
}

} // verus!
