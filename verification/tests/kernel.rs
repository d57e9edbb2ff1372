use bootloader::boot::{read_kernel, BootError};
use bootloader::elf::{
    ElfParseError, KernelElf, ProgramHeader, EM_AARCH64, ET_DYN, ET_EXEC, PT_LOAD,
};
use bootloader::kernel_loading::{
    align_down, align_up, load_kernel_at_preferred_virtual_address,
    load_kernel_at_preferred_virtual_address_with_va_bits, mapped_range_overlaps, segment_perms,
    usize_from_u64, valid_va, valid_va_range, validate_kernel, KernelLoadError,
    KernelValidationError, LoadStep, LoadedKernel, LoadedSegment, SegmentPerms, Status,
};
use bootloader::mapper::MapperError;

const BASE: u64 = 0xffff_8000_0000_0000;

/// A 64-bit little-endian file: header, program headers and contents from byte 0x1000 on.
fn elf_file(machine: u16, kind: u16, entry: u64, headers: &[ProgramHeader], len: usize) -> Vec<u8> {
    let mut f = vec![0x7f, b'E', b'L', b'F', 2, 1, 1, 0];
    f.resize(16, 0);
    f.extend(kind.to_le_bytes());
    f.extend(machine.to_le_bytes());
    f.extend(1u32.to_le_bytes());
    f.extend(entry.to_le_bytes());
    f.extend(64u64.to_le_bytes());
    f.extend(0u64.to_le_bytes());
    f.extend(0u32.to_le_bytes());
    f.extend(64u16.to_le_bytes());
    f.extend(56u16.to_le_bytes());
    f.extend((headers.len() as u16).to_le_bytes());
    f.extend(64u16.to_le_bytes());
    f.extend(0u16.to_le_bytes());
    f.extend(0u16.to_le_bytes());
    for h in headers {
        f.extend(h.p_type.to_le_bytes());
        f.extend(h.p_flags.to_le_bytes());
        f.extend(h.p_offset.to_le_bytes());
        f.extend(h.p_vaddr.to_le_bytes());
        f.extend(h.p_vaddr.to_le_bytes());
        f.extend(h.p_filesz.to_le_bytes());
        f.extend(h.p_memsz.to_le_bytes());
        f.extend(h.p_align.to_le_bytes());
    }
    while f.len() < len {
        f.push((f.len() % 251) as u8);
    }
    f
}

fn load(vaddr: u64, offset: u64, filesz: u64, memsz: u64) -> ProgramHeader {
    ProgramHeader {
        p_type: PT_LOAD,
        p_flags: 5,
        p_offset: offset,
        p_vaddr: vaddr,
        p_filesz: filesz,
        p_memsz: memsz,
        p_align: 0x1000,
    }
}

fn kernel(headers: Vec<ProgramHeader>) -> KernelElf {
    KernelElf {
        e_machine: EM_AARCH64,
        e_type: ET_EXEC,
        is_64: true,
        little_endian: true,
        entry: BASE,
        has_interpreter: false,
        has_dynamic: false,
        program_headers: headers,
    }
}

/// Loads a kernel into memory of the test, with segments from physical address 0x4000_0000 on.
fn run(
    kernel: &KernelElf,
    file: &[u8],
) -> Result<(LoadedKernel, Vec<Vec<u8>>), KernelLoadError<MapperError>> {
    let mut step = load_kernel_at_preferred_virtual_address(kernel, file)?;
    let mut images = Vec::new();
    let mut next = 0x4000_0000u64;
    loop {
        match step {
            LoadStep::Allocate(wanted) => {
                let mut pages = vec![0xaau8; wanted.page_count() * 4096];
                assert_eq!(pages.len() as u64, wanted.segment_plan().mapped_size);
                let placed = wanted.place(next)?;
                assert_eq!(placed.byte_len(), pages.len());
                let filled = placed.fill(&mut pages);
                assert_eq!(filled.segment().phys_start, next);
                next += pages.len() as u64;
                images.push(pages);
                step = filled.mapped()?;
            }
            LoadStep::Done(loaded) => return Ok((loaded, images)),
        }
    }
}

fn refused(headers: Vec<ProgramHeader>, file: &[u8]) -> KernelLoadError<MapperError> {
    run(&kernel(headers), file).unwrap_err()
}

#[test]
fn a_file_is_parsed() {
    let headers = [load(BASE, 0x1000, 0x20, 0x40), load(BASE + 0x2000, 0x1000, 0, 8)];
    let file = elf_file(EM_AARCH64, ET_EXEC, BASE + 4, &headers, 0x1100);
    let elf = KernelElf::parse(&file).unwrap();
    let mut expected = kernel(headers.to_vec());
    expected.entry = BASE + 4;
    assert_eq!(elf, expected);
    assert_eq!(read_kernel(&file), Ok(expected));
}

#[test]
fn a_file_that_is_no_elf_is_refused() {
    assert_eq!(KernelElf::parse(b"hello"), Err(ElfParseError));
    assert_eq!(KernelElf::parse(&[]), Err(ElfParseError));
    assert_eq!(read_kernel(b"hello"), Err(BootError::KernelParse));
}

#[test]
fn a_damaged_file_is_parsed_or_refused() {
    let headers = [load(BASE + 0x200, 0x200, 0x20, 0x40), load(BASE + 0x2200, 0x200, 0, 8)];
    let file = elf_file(EM_AARCH64, ET_EXEC, BASE, &headers, 0x300);
    assert!(read_kernel(&file).is_ok());
    for len in 0..64 {
        assert_eq!(KernelElf::parse(&file[..len]), Err(ElfParseError));
    }
    for at in 0..64 + 2 * 56 {
        for value in [0u8, 1, 2, 3, 6, 0x7f, 0x80, 0xff] {
            let mut damaged = file.clone();
            damaged[at] = value;
            match (KernelElf::parse(&damaged), read_kernel(&damaged)) {
                (Err(_), outcome) => assert_eq!(outcome, Err(BootError::KernelParse)),
                (Ok(elf), Ok(kernel)) => {
                    assert_eq!(elf, kernel);
                    assert_eq!(validate_kernel(&elf), Ok(()));
                }
                (Ok(elf), Err(error)) => {
                    assert_eq!(error, BootError::KernelInvalid);
                    assert!(validate_kernel(&elf).is_err());
                }
            }
        }
    }
}

#[test]
fn a_file_for_another_machine_is_refused() {
    let file = elf_file(62, ET_EXEC, BASE, &[load(BASE, 0x1000, 0x20, 0x40)], 0x1100);
    assert_eq!(KernelElf::parse(&file).unwrap().e_machine, 62);
    assert_eq!(read_kernel(&file), Err(BootError::KernelInvalid));
}

#[test]
fn constants_are_those_of_the_format() {
    assert_eq!(EM_AARCH64, goblin::elf64::header::EM_AARCH64);
    assert_eq!(ET_EXEC, goblin::elf64::header::ET_EXEC);
    assert_eq!(ET_DYN, goblin::elf64::header::ET_DYN);
    assert_eq!(PT_LOAD, goblin::elf::program_header::PT_LOAD);
}

#[test]
fn validation_checks_the_header_in_order() {
    let good = kernel(vec![load(BASE, 0x1000, 0x20, 0x40)]);
    assert_eq!(validate_kernel(&good), Ok(()));
    let bad = |change: fn(&mut KernelElf)| {
        let mut k = good.clone();
        change(&mut k);
        validate_kernel(&k).unwrap_err()
    };
    assert_eq!(bad(|k| k.e_machine = 62), KernelValidationError::NotAarch64);
    assert_eq!(bad(|k| k.is_64 = false), KernelValidationError::NotElf64);
    assert_eq!(bad(|k| k.little_endian = false), KernelValidationError::NotLittleEndian);
    assert_eq!(bad(|k| k.e_type = 1), KernelValidationError::UnsupportedElfType);
    assert_eq!(bad(|k| k.entry = 0), KernelValidationError::MissingEntry);
    assert_eq!(bad(|k| k.has_interpreter = true), KernelValidationError::InterpreterUnsupported);
    assert_eq!(bad(|k| k.has_dynamic = true), KernelValidationError::DynamicKernelUnsupported);
    assert_eq!(bad(|k| k.program_headers.clear()), KernelValidationError::MissingLoadSegment);
    assert_eq!(
        bad(|k| k.program_headers[0].p_type = 2),
        KernelValidationError::MissingLoadSegment
    );
    assert_eq!(
        bad(|k| k.program_headers[0].p_filesz = 0x41),
        KernelValidationError::InvalidLoadSegmentSize
    );
    assert_eq!(
        bad(|k| k.program_headers[0].p_align = 0x1800),
        KernelValidationError::InvalidLoadSegmentAlign
    );
    assert_eq!(
        bad(|k| k.program_headers[0].p_offset = 0x1001),
        KernelValidationError::LoadSegmentAddressMismatch
    );
    assert_eq!(
        bad(|k| {
            k.e_machine = 62;
            k.entry = 0;
        }),
        KernelValidationError::NotAarch64
    );
    let mut shared = good.clone();
    shared.e_type = ET_DYN;
    assert_eq!(validate_kernel(&shared), Ok(()));
    let mut unaligned = good.clone();
    unaligned.program_headers[0].p_align = 0;
    unaligned.program_headers[0].p_offset = 0x1001;
    assert_eq!(validate_kernel(&unaligned), Ok(()));
}

#[test]
fn validation_finds_overlapping_segments() {
    let a = load(BASE, 0x1000, 0x20, 0x2000);
    assert_eq!(
        validate_kernel(&kernel(vec![a, load(BASE + 0x1000, 0x1000, 0, 1)])),
        Err(KernelValidationError::LoadSegmentOverlap)
    );
    assert_eq!(validate_kernel(&kernel(vec![a, load(BASE + 0x2000, 0x1000, 0, 1)])), Ok(()));
    assert_eq!(
        validate_kernel(&kernel(vec![load(u64::MAX - 0xfff, 0x1000, 0, 0x1000)])),
        Err(KernelValidationError::LoadSegmentOverlap)
    );
    let mut ignored = load(BASE, 0x1000, 0, 1);
    ignored.p_type = 6;
    assert_eq!(validate_kernel(&kernel(vec![a, ignored])), Ok(()));
}

#[test]
fn a_kernel_is_loaded_where_it_asks_to_be() {
    let mut text = load(BASE + 0x10_0123, 0x1123, 0x100, 0x100);
    text.p_flags = 5;
    let mut note = load(0, 0, 0, 0);
    note.p_type = 4;
    let mut data = load(BASE + 0x8000, 0x1800, 0x10, 0x1801);
    data.p_flags = 6;
    data.p_align = 0x800;
    let file = elf_file(EM_AARCH64, ET_EXEC, BASE + 0x10_0123, &[text, note, data], 0x2000);
    let elf = read_kernel(&file).unwrap();
    let (loaded, images) = run(&elf, &file).unwrap();
    assert_eq!(loaded.virt_entry, BASE + 0x10_0123);
    assert_eq!(loaded.virt_base, BASE + 0x8000);
    assert_eq!(loaded.virt_size, 0x10_1000 - 0x8000);
    assert_eq!(loaded.segments.len(), 2);
    let s = &loaded.segments[0];
    assert_eq!((s.virt_start, s.phys_start, s.byte_len), (BASE + 0x10_0000, 0x4000_0000, 0x1000));
    assert_eq!(s.perms, SegmentPerms { read: true, write: false, execute: true });
    let s = &loaded.segments[1];
    assert_eq!((s.virt_start, s.phys_start, s.byte_len), (BASE + 0x8000, 0x4000_1000, 0x2000));
    assert_eq!(s.perms, SegmentPerms { read: true, write: true, execute: false });
    assert!(images[0][..0x123].iter().all(|&b| b == 0));
    assert_eq!(images[0][0x123..0x223], file[0x1123..0x1223]);
    assert!(images[0][0x223..].iter().all(|&b| b == 0));
    assert_eq!(images[1][..0x10], file[0x1800..0x1810]);
    assert!(images[1][0x10..].iter().all(|&b| b == 0));
}

#[test]
fn loading_reports_each_error() {
    let file = vec![7u8; 0x2000];
    assert_eq!(refused(vec![], &file), KernelLoadError::MissingLoadSegment);
    assert_eq!(refused(vec![load(BASE, 0, 0, 0)], &file), KernelLoadError::InvalidSegmentSize);
    assert_eq!(refused(vec![load(BASE, 0, 2, 1)], &file), KernelLoadError::InvalidSegmentSize);
    assert_eq!(
        refused(vec![load(BASE, 0x1fff, 2, 2)], &file),
        KernelLoadError::InvalidSegmentOffset
    );
    assert_eq!(
        refused(vec![load(BASE, u64::MAX, 2, 2)], &file),
        KernelLoadError::InvalidSegmentOffset
    );
    assert_eq!(
        refused(vec![load(BASE + 1, 0, 0, u64::MAX)], &file),
        KernelLoadError::InvalidSegmentRange
    );
    assert_eq!(
        refused(vec![load(0x8000_0000_0000, 0, 0, 1)], &file),
        KernelLoadError::InvalidVirtualRange
    );
    assert_eq!(
        refused(vec![load(BASE, 0, 0, 1), load(BASE + 0x800, 0, 0, 1)], &file),
        KernelLoadError::MappedSegmentOverlap
    );
    assert_eq!(
        refused(vec![load(u64::MAX - 0xfff, 0, 0, 1)], &file),
        KernelLoadError::MappedSegmentOverlap
    );
    let mut lost = kernel(vec![load(BASE, 0, 0, 1)]);
    lost.entry = 0x8000_0000_0000;
    assert_eq!(run(&lost, &file).unwrap_err(), KernelLoadError::InvalidVirtualRange);
    match load_kernel_at_preferred_virtual_address(&kernel(vec![load(BASE + 8, 0, 0, 1)]), &file) {
        Ok(LoadStep::Allocate(wanted)) => assert_eq!(
            wanted.place(u64::MAX - 7).err(),
            Some(KernelLoadError::InvalidSegmentRange)
        ),
        _ => panic!("a segment was expected"),
    }
}

#[test]
fn a_refusal_ends_the_loading() {
    let file = vec![7u8; 0x2000];
    let elf = kernel(vec![load(BASE, 0, 0, 1)]);
    let start = || match load_kernel_at_preferred_virtual_address(&elf, &file) {
        Ok(LoadStep::Allocate(wanted)) => wanted,
        _ => panic!("a segment was expected"),
    };
    assert_eq!(
        start().refused(Status(9)),
        KernelLoadError::PhysicalAllocationFailed(Status(9))
    );
    let filled = start().place(0x4000_0000).unwrap().fill(&mut vec![1u8; 4096]);
    assert_eq!(
        filled.not_mapped(MapperError::InvalidGeometry),
        KernelLoadError::MappingFailed(MapperError::InvalidGeometry)
    );
}

#[test]
fn the_width_of_addresses_can_be_given() {
    let file = vec![7u8; 0x2000];
    let low = kernel(vec![load(0x40_0000_0000, 0, 0, 1)]);
    assert!(load_kernel_at_preferred_virtual_address_with_va_bits(&low, &file, 48).is_ok());
    assert_eq!(
        load_kernel_at_preferred_virtual_address_with_va_bits(&low, &file, 39).err(),
        Some(KernelLoadError::InvalidVirtualRange)
    );
}

#[test]
fn addresses_are_canonical() {
    assert!(valid_va(0x7fff_ffff_ffff, 48));
    assert!(!valid_va(0x8000_0000_0000, 48));
    assert!(!valid_va(0xffff_7fff_ffff_ffff, 48));
    assert!(valid_va(0xffff_8000_0000_0000, 48));
    assert!(valid_va(0x1234_5678_9abc_def0, 64));
    assert!(!valid_va(0, 0));
    assert!(!valid_va(0, 65));
    assert!(valid_va(u64::MAX, 1));
    assert!(valid_va(0, 1));
    assert!(!valid_va(1, 1));
    assert!(!valid_va_range(0, 0, 48));
    assert!(valid_va_range(0, 0x8000_0000_0000, 48));
    assert!(!valid_va_range(0, 0x8000_0000_0001, 48));
    assert!(valid_va_range(u64::MAX, 1, 48));
    assert!(!valid_va_range(u64::MAX, 2, 48));
}

#[test]
fn pages_are_aligned() {
    assert_eq!(align_down(0x1fff, 0x1000), 0x1000);
    assert_eq!(align_down(0x1000, 0x1000), 0x1000);
    assert_eq!(align_up::<MapperError>(0x1001, 0x1000), Ok(0x2000));
    assert_eq!(align_up::<MapperError>(0, 0x1000), Ok(0));
    assert_eq!(
        align_up::<MapperError>(u64::MAX - 0xffe, 0x1000),
        Err(KernelLoadError::InvalidSegmentRange)
    );
    assert_eq!(align_up::<MapperError>(u64::MAX - 0xfff, 0x1000), Ok(u64::MAX - 0xfff));
    assert_eq!(usize_from_u64::<MapperError>(77), Ok(77));
}

#[test]
fn flags_become_permissions() {
    let all = SegmentPerms { read: true, write: true, execute: true };
    assert_eq!(segment_perms(7), all);
    assert_eq!(segment_perms(0xffff_fff8), SegmentPerms { read: false, write: false, execute: false });
    assert_eq!(segment_perms(1), SegmentPerms { read: false, write: false, execute: true });
    assert_eq!(segment_perms(2), SegmentPerms { read: false, write: true, execute: false });
    assert_eq!(segment_perms(4), SegmentPerms { read: true, write: false, execute: false });
}

#[test]
fn mapped_ranges_are_compared() {
    let perms = segment_perms(4);
    let at = |virt_start: u64, byte_len: u64| LoadedSegment { virt_start, phys_start: 0, byte_len, perms };
    let segments = [at(0x1000, 0x1000), at(0x4000, 0x2000)];
    assert!(!mapped_range_overlaps(&segments, 0x2000, 0x2000));
    assert!(mapped_range_overlaps(&segments, 0x2000, 0x2001));
    assert!(mapped_range_overlaps(&segments, 0, 0x1001));
    assert!(!mapped_range_overlaps(&segments, 0, 0x1000));
    assert!(mapped_range_overlaps(&[], u64::MAX, 1));
    assert!(mapped_range_overlaps(&[at(u64::MAX, 1)], 0, 1));
}
