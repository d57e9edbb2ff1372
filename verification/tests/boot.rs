use bootloader::boot::{
    boot_info, image_range, physical_width, read_settings, stack_top, translation_info, BootError,
    TranslationRegisters, ABORTED, KERNEL_STACK_PAGES, LOAD_ERROR, NOT_FOUND, OUT_OF_RESOURCES,
    RECURSIVE_INDEX, SCRATCH_PAGE, STUB_STACK_PAGES, UNSUPPORTED,
};
use bootloader::boot_info::Optional;
use bootloader::firmware_tables::FirmwareTables;
use bootloader::framebuffer::{FrameBuffer, FrameBufferInfo, PixelFormat};
use bootloader::kernel_loading::{KernelLoadError, LoadedKernel, SegmentPerms, Status};
use bootloader::mapper::{GranuleKind, MapperError, RootInfo};
use bootloader::memory_map::{MemoryMap, UefiMemoryDescriptor};
use bootloader::transition::{
    data_permissions, image_permissions, map_transition_part, transition_memory_type,
    transition_parts, transition_plan, TransitionPart, TransitionParts, TransitionPlan,
};

#[test]
fn each_error_has_its_status() {
    let status = |error: BootError| error.status().0;
    assert_eq!(status(BootError::UefiInit), ABORTED);
    assert_eq!(status(BootError::ImageFileSystem), UNSUPPORTED);
    assert_eq!(status(BootError::CfgRead), NOT_FOUND);
    assert_eq!(status(BootError::KernelRead), NOT_FOUND);
    assert_eq!(status(BootError::MapperInit), OUT_OF_RESOURCES);
    for error in [
        BootError::CfgParse,
        BootError::BootConfig,
        BootError::KernelParse,
        BootError::KernelInvalid,
        BootError::KernelLoad(KernelLoadError::PhysicalAllocationFailed(Status(9))),
        BootError::KernelLoad(KernelLoadError::MappingFailed(MapperError::NoMemory)),
        BootError::LoadedImage,
        BootError::TransitionMapping,
        BootError::RecursiveMapping,
        BootError::MapperInstall,
    ] {
        assert_eq!(status(error), LOAD_ERROR);
    }
}

#[test]
fn settings_are_read_from_bytes() {
    let config = read_settings(b"kernel=/k\nframebuffer_width=8\nframebuffer_height=4\n").unwrap();
    assert_eq!(config.kernel, "/k");
    assert_eq!(config.framebuffer.minimum_height, Some(4));
    assert_eq!(read_settings(b"kernel"), Err(BootError::CfgParse));
    assert_eq!(read_settings(b"kernel=/k"), Err(BootError::BootConfig));
}

#[test]
fn a_reserved_width_is_refused() {
    assert_eq!(physical_width(5 << 32), Ok(48));
    assert_eq!(physical_width(7 << 32), Err(BootError::MapperInit));
}

#[test]
fn ranges_end_within_the_address_space() {
    assert_eq!(image_range(0x1000, 0x2000), Ok((0x1000, 0x3000)));
    assert_eq!(image_range(u64::MAX, 0), Ok((u64::MAX, u64::MAX)));
    assert_eq!(image_range(u64::MAX, 1), Err(BootError::TransitionMapping));
    assert_eq!(stack_top(0x10_0000, STUB_STACK_PAGES), 0x11_0000);
    assert_eq!(stack_top(0x10_0000, KERNEL_STACK_PAGES), 0x20_0000);
}

#[test]
fn memory_in_use_stays_mapped() {
    let kept: Vec<u32> = (0..16).filter(|&t| transition_memory_type(t)).collect();
    assert_eq!(kept, vec![1, 2, 3, 4, 5, 6, 9, 10]);
    assert!(!transition_memory_type(0x8000_0001));
}

#[test]
fn an_empty_part_is_left_out() {
    assert_eq!(map_transition_part(5, 5, data_permissions()), None);
    assert_eq!(map_transition_part(6, 5, data_permissions()), None);
    assert_eq!(
        map_transition_part(5, 7, image_permissions()),
        Some(TransitionPart {
            start: 5,
            byte_len: 2,
            permissions: SegmentPerms { read: true, write: true, execute: true },
        })
    );
}

fn descriptor(memory_type: u32, phys_start: u64, page_count: u64) -> UefiMemoryDescriptor {
    UefiMemoryDescriptor {
        memory_type,
        padding: 0,
        phys_start,
        virt_start: 0,
        page_count,
        attributes: 0,
    }
}

fn data(start: u64, byte_len: u64) -> Option<TransitionPart> {
    Some(TransitionPart { start, byte_len, permissions: data_permissions() })
}

fn image(start: u64, byte_len: u64) -> Option<TransitionPart> {
    Some(TransitionPart { start, byte_len, permissions: image_permissions() })
}

#[test]
fn memory_is_split_at_the_image() {
    let parts = |d: UefiMemoryDescriptor| transition_parts(&d, 0x4000, 0x6000);
    let split = |before, image, behind| Ok(TransitionParts { before, image, behind });
    assert_eq!(
        parts(descriptor(2, 0x1000, 10)),
        split(data(0x1000, 0x3000), image(0x4000, 0x2000), data(0x6000, 0x5000))
    );
    assert_eq!(parts(descriptor(2, 0x1000, 3)), split(data(0x1000, 0x3000), None, None));
    assert_eq!(parts(descriptor(2, 0x6000, 1)), split(None, None, data(0x6000, 0x1000)));
    assert_eq!(parts(descriptor(1, 0x5000, 1)), split(None, image(0x5000, 0x1000), None));
    assert_eq!(
        parts(descriptor(1, 0x5000, 2)),
        split(None, image(0x5000, 0x1000), data(0x6000, 0x1000))
    );
    assert_eq!(parts(descriptor(7, 0x1000, 10)), split(None, None, None));
    assert_eq!(parts(descriptor(2, u64::MAX, 0)), split(None, None, None));
    assert_eq!(
        parts(descriptor(2, 0, u64::MAX / 4096 + 1)),
        Err(BootError::TransitionMapping)
    );
    assert_eq!(
        parts(descriptor(2, u64::MAX - 0xfff, 1)),
        Err(BootError::TransitionMapping)
    );
    assert_eq!(
        parts(descriptor(7, u64::MAX - 0xfff, 1)),
        split(None, None, None)
    );
}

#[test]
fn a_memory_map_is_mapped_up_to_the_first_error() {
    let good = [
        descriptor(2, 0x1000, 4),
        descriptor(7, 0x8000, 1),
        descriptor(9, 0x9000, 1),
    ];
    let parts = vec![
        data(0x1000, 0x3000).unwrap(),
        image(0x4000, 0x1000).unwrap(),
        data(0x9000, 0x1000).unwrap(),
    ];
    assert_eq!(
        transition_plan(&good, 0x4000, 0x6000),
        TransitionPlan { parts: parts.clone(), error: None }
    );
    for addr in (0u64..0x1_0000).step_by(0x800) {
        let held = parts.iter().filter(|p| p.start <= addr && addr - p.start < p.byte_len).count();
        assert!(held <= 1);
    }
    let bad = [good[0], good[1], good[2], descriptor(1, u64::MAX, 1), descriptor(2, 0x2_0000, 1)];
    assert_eq!(
        transition_plan(&bad, 0x4000, 0x6000),
        TransitionPlan { parts, error: Some(BootError::TransitionMapping) }
    );
    assert_eq!(
        transition_plan(&[], 0, 0),
        TransitionPlan { parts: vec![], error: None }
    );
}

#[test]
fn the_kernel_is_told_what_was_set_up() {
    let root = RootInfo {
        addr: 0x5000,
        addr_bits: 48,
        output_addr_bits: 44,
        granule: GranuleKind::Size4KiB,
    };
    let registers = TranslationRegisters { mair_el1: 1, tcr_el1: 2, ttbr1_el1: 3 };
    let translation = translation_info(root, 0xffff_ff7f_bfdf_e000, registers);
    assert_eq!(translation.root_table, 0x5000);
    assert_eq!(translation.recursive_base, 0xffff_ff7f_bfdf_e000);
    assert_eq!(translation.recursive_index, RECURSIVE_INDEX);
    assert_eq!(translation.recursive_index, 510);
    assert_eq!((translation.input_addr_bits, translation.output_addr_bits), (48, 44));
    assert_eq!(translation.granule_kind, GranuleKind::Size4KiB);
    assert_eq!((translation.mair_el1, translation.tcr_el1, translation.ttbr1_el1), (1, 2, 3));
    assert_eq!(translation.tcr2_el1, 0);
    assert_eq!(translation.scratch_page, SCRATCH_PAGE);
    assert_eq!(SCRATCH_PAGE, 0xffff_8300_0000_0000);
    assert_eq!(translation.scratch_descriptor, 0xffff_ff41_8000_0000);

    let buffer = [0u8; 80];
    let kernel = LoadedKernel {
        virt_entry: 0x10,
        virt_base: 0x20,
        virt_size: 0x30,
        segments: Vec::new(),
    };
    let layout = FrameBufferInfo {
        byte_len: 4,
        width: 1,
        height: 1,
        pixel_format: PixelFormat::Rgb,
        bytes_per_pixel: 4,
        stride: 1,
    };
    let info = boot_info(
        MemoryMap::from_raw_parts(&buffer, 80, 40, 1),
        Optional::Present(FrameBuffer::new(0x9000, layout)),
        FirmwareTables { rsdp: Some(7), fdt: None },
        &kernel,
        translation,
    );
    assert_eq!(info.memory_map.len(), 2);
    match info.framebuffer {
        Optional::Present(framebuffer) => assert_eq!(framebuffer.buffer_start(), 0x9000),
        Optional::Absent => panic!("there is a framebuffer"),
    }
    assert_eq!((info.rsdp_addr, info.fdt_addr), (7, 0));
    assert_eq!((info.stub_entry, info.stub_virt_base, info.stub_virt_size), (0x10, 0x20, 0x30));
    assert_eq!(info.translation.root_table, 0x5000);
}
