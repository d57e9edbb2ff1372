use bootloader::align::PAGE_SIZE;
use bootloader::boot::{ABORTED, LOAD_ERROR, NOT_FOUND, OUT_OF_RESOURCES, UNSUPPORTED};
use bootloader::file::{path_units, PathError};
use bootloader::firmware_tables::{
    find_firmware_tables, guid_from_bytes, ConfigTable, FirmwareTables, ACPI2_GUID, ACPI_GUID, EFI_DTB_TABLE_GUID,
};
use bootloader::memory_map::{MemoryMap, UefiMemoryDescriptor, DESCRIPTOR_BYTES};
use bootloader::transition::{
    ACPI_NON_VOLATILE, ACPI_RECLAIM, BOOT_SERVICES_CODE, BOOT_SERVICES_DATA, LOADER_CODE,
    LOADER_DATA, RUNTIME_SERVICES_CODE, RUNTIME_SERVICES_DATA,
};
use uefi::mem::memory_map::MemoryType;
use uefi::table::cfg::ConfigTableEntry;
use uefi::{Guid, Status};

fn guid(text: &str) -> u128 {
    u128::from_str_radix(&text.replace('-', ""), 16).unwrap()
}

fn text_of(guid: Guid) -> String {
    format!("{guid}")
}

#[test]
fn constants_are_those_of_the_firmware() {
    assert_eq!(PAGE_SIZE, uefi::boot::PAGE_SIZE as u64);
    assert_eq!(LOAD_ERROR, Status::LOAD_ERROR.0 as u64);
    assert_eq!(UNSUPPORTED, Status::UNSUPPORTED.0 as u64);
    assert_eq!(OUT_OF_RESOURCES, Status::OUT_OF_RESOURCES.0 as u64);
    assert_eq!(NOT_FOUND, Status::NOT_FOUND.0 as u64);
    assert_eq!(ABORTED, Status::ABORTED.0 as u64);
    assert_eq!(LOADER_CODE, MemoryType::LOADER_CODE.0);
    assert_eq!(LOADER_DATA, MemoryType::LOADER_DATA.0);
    assert_eq!(BOOT_SERVICES_CODE, MemoryType::BOOT_SERVICES_CODE.0);
    assert_eq!(BOOT_SERVICES_DATA, MemoryType::BOOT_SERVICES_DATA.0);
    assert_eq!(RUNTIME_SERVICES_CODE, MemoryType::RUNTIME_SERVICES_CODE.0);
    assert_eq!(RUNTIME_SERVICES_DATA, MemoryType::RUNTIME_SERVICES_DATA.0);
    assert_eq!(ACPI_RECLAIM, MemoryType::ACPI_RECLAIM.0);
    assert_eq!(ACPI_NON_VOLATILE, MemoryType::ACPI_NON_VOLATILE.0);
    assert_eq!(ACPI2_GUID, guid(&text_of(ConfigTableEntry::ACPI2_GUID)));
    assert_eq!(ACPI_GUID, guid(&text_of(ConfigTableEntry::ACPI_GUID)));
    for known in [ConfigTableEntry::ACPI2_GUID, ConfigTableEntry::SMBIOS3_GUID] {
        assert_eq!(guid_from_bytes(&known.to_bytes()), guid(&text_of(known)));
    }
    assert_eq!(guid_from_bytes(&ConfigTableEntry::ACPI_GUID.to_bytes()), ACPI_GUID);
    assert_eq!(guid_from_bytes(&[0xff; 16]), u128::MAX);
    assert_eq!(EFI_DTB_TABLE_GUID, guid("b1b621d5-f19c-41a5-830b-d9152c69aae0"));
    assert_eq!(
        DESCRIPTOR_BYTES,
        core::mem::size_of::<uefi::mem::memory_map::MemoryDescriptor>()
    );
}

#[test]
fn paths_are_written_in_16_bit_units() {
    assert_eq!(path_units("\\k.elf"), Ok(vec![0x5c, 0x6b, 0x2e, 0x65, 0x6c, 0x66, 0]));
    assert_eq!(path_units(""), Ok(vec![0]));
    assert_eq!(path_units("\u{e9}\u{4e2d}\u{ffff}"), Ok(vec![0xe9, 0x4e2d, 0xffff, 0]));
    assert_eq!(path_units("a\0b"), Err(PathError));
    assert_eq!(path_units("a\u{1f600}"), Err(PathError));
    assert_eq!(path_units("\u{10000}"), Err(PathError));
}

fn table(guid: u128, address: u64) -> ConfigTable {
    ConfigTable { guid, address }
}

#[test]
fn the_newer_root_pointer_takes_precedence() {
    let find = |tables: &[ConfigTable]| find_firmware_tables(tables);
    assert_eq!(find(&[]), FirmwareTables { rsdp: None, fdt: None });
    assert_eq!(
        find(&[table(ACPI_GUID, 1), table(ACPI2_GUID, 2), table(EFI_DTB_TABLE_GUID, 3)]),
        FirmwareTables { rsdp: Some(2), fdt: Some(3) }
    );
    assert_eq!(find(&[table(ACPI2_GUID, 2), table(ACPI_GUID, 1)]).rsdp, Some(2));
    assert_eq!(find(&[table(ACPI_GUID, 1), table(ACPI_GUID, 4)]).rsdp, Some(1));
    assert_eq!(find(&[table(ACPI2_GUID, 2), table(ACPI2_GUID, 5)]).rsdp, Some(5));
    assert_eq!(
        find(&[table(EFI_DTB_TABLE_GUID, 6), table(7, 8), table(EFI_DTB_TABLE_GUID, 9)]),
        FirmwareTables { rsdp: None, fdt: Some(9) }
    );
}

fn descriptor(n: u64) -> UefiMemoryDescriptor {
    UefiMemoryDescriptor {
        memory_type: 0x0403_0201 + n as u32,
        padding: 0xa0b0_c0d0,
        phys_start: 0x1122_3344_5566_7788 + n,
        virt_start: n,
        page_count: u64::MAX - n,
        attributes: 0x8000_0000_0000_000f,
    }
}

fn bytes_of(descriptors: &[UefiMemoryDescriptor], step: usize) -> Vec<u8> {
    let mut out = Vec::new();
    for d in descriptors {
        let start = out.len();
        out.extend(d.memory_type.to_le_bytes());
        out.extend(d.padding.to_le_bytes());
        out.extend(d.phys_start.to_le_bytes());
        out.extend(d.virt_start.to_le_bytes());
        out.extend(d.page_count.to_le_bytes());
        out.extend(d.attributes.to_le_bytes());
        out.resize(start + step, 0xee);
    }
    out
}

fn all(map: &MemoryMap) -> Vec<UefiMemoryDescriptor> {
    let mut iter = map.iter();
    let mut out = Vec::new();
    while let Some(d) = iter.next() {
        out.push(d);
    }
    assert_eq!(iter.next(), None);
    out
}

#[test]
fn descriptors_are_read_at_their_distance() {
    let descriptors = [descriptor(0), descriptor(1), descriptor(2)];
    for step in [40, 48, 56] {
        let bytes = bytes_of(&descriptors, step);
        let map = MemoryMap::from_raw_parts(&bytes, bytes.len(), step, 1);
        assert_eq!(map.len(), 3);
        assert!(!map.is_empty());
        assert_eq!(all(&map), descriptors);
        assert_eq!(map.buffer(), &bytes[..]);
        assert_eq!(map.buffer_len(), bytes.len());
        assert_eq!(map.descriptor_size(), step);
        assert_eq!(map.descriptor_version(), 1);
    }
}

#[test]
fn a_map_counts_whole_descriptors_in_use() {
    let bytes = bytes_of(&[descriptor(0), descriptor(1)], 48);
    let map = MemoryMap::from_raw_parts(&bytes, 95, 48, 1);
    assert_eq!(map.len(), 1);
    assert_eq!(all(&map), [descriptor(0)]);
    let none = MemoryMap::from_raw_parts(&bytes, 47, 48, 1);
    assert_eq!(none.len(), 0);
    assert!(none.is_empty());
    assert_eq!(all(&none), []);
}

#[test]
fn descriptors_that_are_too_small_are_not_read() {
    let bytes = [0u8; 96];
    let small = MemoryMap::from_raw_parts(&bytes, 96, 39, 1);
    assert_eq!(small.len(), 2);
    assert_eq!(all(&small), []);
    let zero = MemoryMap::from_raw_parts(&bytes, 96, 0, 1);
    assert_eq!(zero.len(), 0);
    assert!(zero.is_empty());
    assert_eq!(all(&zero), []);
}
