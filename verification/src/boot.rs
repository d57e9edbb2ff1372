//! The decisions of the boot sequence, from reading the settings to what the kernel is told.
use crate::align::PAGE_SIZE;
use crate::boot_info::{
    boot_settings, BootConfig, BootInfo, BootSettings, Optional, TranslationInfo,
};
use crate::cfg::{parsed, CfgFile, FromCfg};
use crate::elf::{goblin_elf, ElfModel, KernelElf};
use crate::firmware_tables::FirmwareTables;
use crate::framebuffer::FrameBuffer;
use crate::kernel_loading::{
    validate_kernel, validation, KernelLoadError, LoadedKernel, Status,
};
use crate::mapper::{ips_field, ips_of, output_addr_bits, MapperError, RootInfo};
use crate::mapping::{
    descriptor_address, law_descriptor_addresses_hold_the_indices, recursive_descriptor,
};
use crate::memory_map::MemoryMap;
use vstd::prelude::*;

verus! {

/// The entry of the root table that refers to the root table itself.
pub const RECURSIVE_INDEX: usize = 510;

/// The page through which the kernel reaches memory that is not mapped otherwise.
pub const SCRATCH_PAGE: u64 = 0xFFFF_8300_0000_0000;

/// The size of the stack that the kernel's entry code starts on.
pub const STUB_STACK_PAGES: u64 = 16;

/// The size of the stack that the kernel goes on with.
pub const KERNEL_STACK_PAGES: u64 = 256;

/// Why the kernel could not be started.
#[derive(Clone, Debug, Eq, PartialEq)]
pub enum BootError {
    UefiInit,
    ImageFileSystem,
    CfgRead,
    CfgParse,
    BootConfig,
    KernelRead,
    KernelParse,
    KernelInvalid,
    KernelLoad(KernelLoadError<MapperError>),
    MapperInit,
    LoadedImage,
    TransitionMapping,
    RecursiveMapping,
    MapperInstall,
}

/// The image failed to load.
pub const LOAD_ERROR: u64 = 0x8000_0000_0000_0001;

/// The operation is not supported.
pub const UNSUPPORTED: u64 = 0x8000_0000_0000_0003;

/// A resource has run out.
pub const OUT_OF_RESOURCES: u64 = 0x8000_0000_0000_0009;

/// The item was not found.
pub const NOT_FOUND: u64 = 0x8000_0000_0000_000e;

/// The operation was aborted.
pub const ABORTED: u64 = 0x8000_0000_0000_0015;

/// The status that the boot loader ends with after an error.
pub open spec fn status_of(error: BootError) -> Status {
    match error {
        BootError::UefiInit => Status(ABORTED),
        BootError::ImageFileSystem => Status(UNSUPPORTED),
        BootError::CfgRead | BootError::KernelRead => Status(NOT_FOUND),
        BootError::MapperInit => Status(OUT_OF_RESOURCES),
        _ => Status(LOAD_ERROR),
    }
}

impl BootError {
    /// The status that the boot loader ends with.
    pub fn status(self) -> (r: Status)
        ensures
            r == status_of(self),
    {
        match self {
            BootError::UefiInit => Status(ABORTED),
            BootError::ImageFileSystem => Status(UNSUPPORTED),
            BootError::CfgRead => Status(NOT_FOUND),
            BootError::CfgParse => Status(LOAD_ERROR),
            BootError::BootConfig => Status(LOAD_ERROR),
            BootError::KernelRead => Status(NOT_FOUND),
            BootError::KernelParse => Status(LOAD_ERROR),
            BootError::KernelInvalid => Status(LOAD_ERROR),
            BootError::KernelLoad(_) => Status(LOAD_ERROR),
            BootError::MapperInit => Status(OUT_OF_RESOURCES),
            BootError::LoadedImage => Status(LOAD_ERROR),
            BootError::TransitionMapping => Status(LOAD_ERROR),
            BootError::RecursiveMapping => Status(LOAD_ERROR),
            BootError::MapperInstall => Status(LOAD_ERROR),
        }
    }
}

/// No error is reported as a success: the highest bit of its status is set.
pub proof fn law_an_error_is_no_success(error: BootError)
    ensures
        status_of(error).0 > 0x8000_0000_0000_0000,
{
}

/// The settings in a configuration file.
pub open spec fn settings_in(bytes: Seq<u8>) -> Result<BootSettings, BootError> {
    match parsed(bytes) {
        Err(_) => Err(BootError::CfgParse),
        Ok(entries) => match boot_settings(entries) {
            Err(_) => Err(BootError::BootConfig),
            Ok(settings) => Ok(settings),
        },
    }
}

/// Reads the settings out of a configuration file.
pub fn read_settings<'a>(bytes: &'a [u8]) -> (r: Result<BootConfig<'a>, BootError>)
    ensures
        match r {
            Ok(config) => settings_in(bytes@) == Ok::<BootSettings, BootError>(config@),
            Err(error) => settings_in(bytes@) == Err::<BootSettings, BootError>(error),
        },
{
    match CfgFile::parse(bytes) {
        Ok(file) => match BootConfig::from_cfg(&file) {
            Ok(config) => Ok(config),
            Err(_) => Err(BootError::BootConfig),
        },
        Err(_) => Err(BootError::CfgParse),
    }
}

/// The kernel in a file, of which this was parsed.
pub open spec fn kernel_in(elf: Option<ElfModel>) -> Result<ElfModel, BootError> {
    match elf {
        None => Err(BootError::KernelParse),
        Some(model) => if validation(model) is Ok {
            Ok(model)
        } else {
            Err(BootError::KernelInvalid)
        },
    }
}

/// Reads a kernel and checks that it can be loaded.
pub fn read_kernel(bytes: &[u8]) -> (r: Result<KernelElf, BootError>)
    ensures
        match r {
            Ok(kernel) => kernel_in(goblin_elf(bytes@)) == Ok::<ElfModel, BootError>(kernel@),
            Err(error) => kernel_in(goblin_elf(bytes@)) == Err::<ElfModel, BootError>(error),
        },
        match (r, goblin_elf(bytes@)) {
            (Err(error), None) => error == BootError::KernelParse,
            (Err(error), Some(model)) => error == BootError::KernelInvalid && validation(
                model,
            ) is Err,
            (Ok(kernel), Some(model)) => kernel@ == model && validation(model) is Ok,
            (Ok(kernel), None) => false,
        },
{
    let kernel = match KernelElf::parse(bytes) {
        Ok(kernel) => kernel,
        Err(_) => return Err(BootError::KernelParse),
    };
    match validate_kernel(&kernel) {
        Ok(_) => Ok(kernel),
        Err(_) => Err(BootError::KernelInvalid),
    }
}

/// The width of physical addresses that the firmware set up, which the kernel's tables keep.
pub fn physical_width(tcr: u64) -> (r: Result<u8, BootError>)
    ensures
        match r {
            Ok(bits) => ips_of(bits) == Some(ips_field(tcr)),
            Err(error) => ips_field(tcr) == 7 && error == BootError::MapperInit,
        },
{
    match output_addr_bits(tcr) {
        Some(bits) => Ok(bits),
        None => Err(BootError::MapperInit),
    }
}

/// The addresses that an image takes up.
pub open spec fn image_addresses(base: u64, size: u64) -> Result<(u64, u64), BootError> {
    if base + size > u64::MAX {
        Err(BootError::TransitionMapping)
    } else {
        Ok((base, (base + size) as u64))
    }
}

/// The addresses that an image of `size` bytes takes up: from the first up to, not including, the
/// second.
pub fn image_range(base: u64, size: u64) -> (r: Result<(u64, u64), BootError>)
    ensures
        r == image_addresses(base, size),
        match r {
            Ok((start, end)) => start == base && end == base + size,
            Err(error) => base + size > u64::MAX && error == BootError::TransitionMapping,
        },
{
    match base.checked_add(size) {
        Some(end) => Ok((base, end)),
        None => Err(BootError::TransitionMapping),
    }
}

/// The end of a stack.
pub open spec fn stack_end(base: u64, pages: u64) -> int {
    base + pages * PAGE_SIZE
}

/// Where a stack of `pages` pages begins: it grows down from its end.
pub fn stack_top(base: u64, pages: u64) -> (r: u64)
    requires
        base + pages * PAGE_SIZE <= u64::MAX,
    ensures
        r == base + pages * PAGE_SIZE,
        r == stack_end(base, pages),
{
    base + pages * PAGE_SIZE
}

/// What the processor's registers hold once the tables are in use.
#[derive(Clone, Copy, Debug, Eq, PartialEq)]
pub struct TranslationRegisters {
    pub mair_el1: u64,
    pub tcr_el1: u64,
    pub ttbr1_el1: u64,
}

/// What the kernel is told of the translation.
pub open spec fn told_translation(
    root: RootInfo,
    recursive_base: u64,
    registers: TranslationRegisters,
) -> TranslationInfo {
    TranslationInfo {
        root_table: root.addr,
        recursive_base,
        recursive_index: RECURSIVE_INDEX,
        input_addr_bits: root.addr_bits,
        output_addr_bits: root.output_addr_bits,
        granule_kind: root.granule,
        mair_el1: registers.mair_el1,
        tcr_el1: registers.tcr_el1,
        tcr2_el1: 0,
        ttbr1_el1: registers.ttbr1_el1,
        scratch_page: SCRATCH_PAGE,
        scratch_descriptor: descriptor_address(recursive_base, SCRATCH_PAGE) as u64,
    }
}

/// What the kernel is told of the translation.
pub fn translation_info(
    root: RootInfo,
    recursive_base: u64,
    registers: TranslationRegisters,
) -> (r: TranslationInfo)
    ensures
        r == told_translation(root, recursive_base, registers),
        r == (TranslationInfo {
            root_table: root.addr,
            recursive_base,
            recursive_index: RECURSIVE_INDEX,
            input_addr_bits: root.addr_bits,
            output_addr_bits: root.output_addr_bits,
            granule_kind: root.granule,
            mair_el1: registers.mair_el1,
            tcr_el1: registers.tcr_el1,
            tcr2_el1: 0,
            ttbr1_el1: registers.ttbr1_el1,
            scratch_page: SCRATCH_PAGE,
            scratch_descriptor: descriptor_address(recursive_base, SCRATCH_PAGE) as u64,
        }),
{
    TranslationInfo {
        root_table: root.addr,
        recursive_base,
        recursive_index: RECURSIVE_INDEX,
        input_addr_bits: root.addr_bits,
        output_addr_bits: root.output_addr_bits,
        granule_kind: root.granule,
        mair_el1: registers.mair_el1,
        tcr_el1: registers.tcr_el1,
        tcr2_el1: 0,
        ttbr1_el1: registers.ttbr1_el1,
        scratch_page: SCRATCH_PAGE,
        scratch_descriptor: recursive_descriptor(recursive_base, SCRATCH_PAGE),
    }
}

/// An address that may be missing, as the kernel is told it.
pub open spec fn told_address(address: Option<u64>) -> u64 {
    match address {
        Some(address) => address,
        None => 0,
    }
}

/// Everything that the kernel is told.
pub fn boot_info<'a>(
    memory_map: MemoryMap<'a>,
    framebuffer: Optional<FrameBuffer>,
    tables: FirmwareTables,
    kernel: &LoadedKernel,
    translation: TranslationInfo,
) -> (r: BootInfo<'a>)
    ensures
        r.memory_map == memory_map,
        r.framebuffer == framebuffer,
        r.rsdp_addr == told_address(tables.rsdp),
        r.fdt_addr == told_address(tables.fdt),
        r.rsdp_addr == (match tables.rsdp {
            Some(address) => address,
            None => 0,
        }),
        r.fdt_addr == (match tables.fdt {
            Some(address) => address,
            None => 0,
        }),
        r.stub_entry == kernel.virt_entry,
        r.stub_virt_base == kernel.virt_base,
        r.stub_virt_size == kernel.virt_size,
        r.translation == translation,
{
    BootInfo {
        memory_map,
        framebuffer,
        rsdp_addr: match tables.rsdp {
            Some(address) => address,
            None => 0,
        },
        fdt_addr: match tables.fdt {
            Some(address) => address,
            None => 0,
        },
        stub_entry: kernel.virt_entry,
        stub_virt_base: kernel.virt_base,
        stub_virt_size: kernel.virt_size,
        translation,
    }
}

/// The status of each error: the loader was aborted, there is no file system, a file is missing, the
/// tables could not be made, or, for all else, the kernel could not be loaded.
pub proof fn law_statuses_say_what_went_wrong(error: BootError)
    ensures
        status_of(error).0 == 0x8000_0000_0000_0015 <==> error is UefiInit,
        status_of(error).0 == 0x8000_0000_0000_0003 <==> error is ImageFileSystem,
        status_of(error).0 == 0x8000_0000_0000_000e <==> error is CfgRead || error is KernelRead,
        status_of(error).0 == 0x8000_0000_0000_0009 <==> error is MapperInit,
        status_of(error).0 == 0x8000_0000_0000_0001 <==> !(error is UefiInit) && !(error
            is ImageFileSystem) && !(error is CfgRead) && !(error is KernelRead) && !(error
            is MapperInit),
{
}

/// The settings of a file are those of its entries. A file that cannot be read and settings that are
/// wrong are told apart.
pub proof fn law_settings_come_from_the_file(bytes: Seq<u8>)
    ensures
        settings_in(bytes) is Ok <==> parsed(bytes) is Ok && boot_settings(parsed(bytes)->Ok_0) is Ok,
        settings_in(bytes) is Ok ==> settings_in(bytes)->Ok_0 == boot_settings(
            parsed(bytes)->Ok_0,
        )->Ok_0,
        settings_in(bytes) == Err::<BootSettings, BootError>(BootError::CfgParse) <==> parsed(bytes)
            is Err,
        settings_in(bytes) == Err::<BootSettings, BootError>(BootError::BootConfig) <==> parsed(
            bytes,
        ) is Ok && boot_settings(parsed(bytes)->Ok_0) is Err,
{
}

/// A kernel is read if and only if the file was parsed and is valid; it is then what was parsed. A
/// file that cannot be parsed and one that is not valid are told apart.
pub proof fn law_valid_kernels_are_read(elf: Option<ElfModel>)
    ensures
        kernel_in(elf) is Ok <==> elf is Some && validation(elf->0) is Ok,
        kernel_in(elf) is Ok ==> kernel_in(elf)->Ok_0 == elf->0,
        kernel_in(elf) == Err::<ElfModel, BootError>(BootError::KernelParse) <==> elf is None,
        kernel_in(elf) == Err::<ElfModel, BootError>(BootError::KernelInvalid) <==> elf is Some
            && validation(elf->0) is Err,
{
}

/// An image takes up as many addresses as it has bytes, from its base on, if there are so many.
pub proof fn law_images_take_up_their_bytes(base: u64, size: u64)
    ensures
        image_addresses(base, size) is Ok <==> size <= u64::MAX - base,
        image_addresses(base, size) matches Ok((start, end)) ==> start == base && end - start == size,
        image_addresses(base, size) is Err ==> image_addresses(base, size)->Err_0
            == BootError::TransitionMapping,
{
}

/// A stack has 4096 bytes for each page below its end.
pub proof fn law_stacks_have_their_pages(base: u64, pages: u64)
    ensures
        stack_end(base, pages) - base == pages * 4096,
{
}

/// The kernel is told where its tables are and how they were built, what the registers hold, and
/// through which descriptor the scratch page is mapped.
pub proof fn law_the_kernel_is_told_the_truth(
    root: RootInfo,
    recursive_base: u64,
    registers: TranslationRegisters,
    address: Option<u64>,
)
    ensures
        ({
            let told = told_translation(root, recursive_base, registers);
            let at = told.scratch_descriptor as int;
            &&& told.root_table == root.addr
            &&& told.recursive_base == recursive_base
            &&& told.recursive_index == 510
            &&& told.input_addr_bits == root.addr_bits
            &&& told.output_addr_bits == root.output_addr_bits
            &&& told.granule_kind == root.granule
            &&& told.mair_el1 == registers.mair_el1
            &&& told.tcr_el1 == registers.tcr_el1
            &&& told.tcr2_el1 == 0
            &&& told.ttbr1_el1 == registers.ttbr1_el1
            &&& told.scratch_page == 0xffff_8300_0000_0000
            &&& at / 0x80_0000_0000 == recursive_base as int / 0x80_0000_0000
            &&& at % 0x80_0000_0000 == 0x41_8000_0000
        }),
        address matches Some(a) ==> told_address(address) == a,
        address is None ==> told_address(address) == 0,
{
    law_descriptor_addresses_hold_the_indices(recursive_base, SCRATCH_PAGE);
}

} // verus!
