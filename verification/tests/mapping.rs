use bootloader::kernel_loading::SegmentPerms;
use bootloader::mapper::{
    output_addr_bits, plan_install, BootConfig, BootTranslationConfig, GranuleKind,
    InstallPlan, InstallableDescriptorFormat, MapperError, RootInfo, Vmsa128, Vmsa64, Vmsa64Lpa2,
    TCR2_D128, TCR_DS, TTBR1_MASK,
};
use bootloader::mapping::{
    install_recursive_mapping, leaf_permissions, map_kernel_range, recursive_base,
    recursive_descriptor, DataAccess, IdentityTableAccess, LeafPermissions, PageMapping,
};
use bootloader::table_pool::{
    FixedTablePool, NewChunk, PoolReply, PoolStep, TableAllocLayout, UefiTablePool,
};

fn root() -> RootInfo {
    RootInfo {
        addr: 0x4321_0000,
        addr_bits: 48,
        output_addr_bits: 40,
        granule: GranuleKind::Size4KiB,
    }
}

#[test]
fn tables_are_reached_at_their_address() {
    let access = IdentityTableAccess::new();
    assert_eq!(access.table_at(0x5000), Ok(0x5000));
    assert_eq!(access.table_at(0), Err(MapperError::NullTable));
}

#[test]
fn permissions_are_for_the_kernel_only() {
    let perms = |write, execute| {
        leaf_permissions(SegmentPerms { read: true, write, execute })
    };
    let expected = |privileged_data, privileged_execute| LeafPermissions {
        privileged_data,
        unprivileged_data: DataAccess::Denied,
        privileged_execute,
        unprivileged_execute: false,
        privileged_gcs: false,
        unprivileged_gcs: false,
    };
    assert_eq!(perms(true, false), expected(DataAccess::ReadWrite, false));
    assert_eq!(perms(false, true), expected(DataAccess::ReadOnly, true));
}

#[test]
fn a_range_is_mapped_page_by_page() {
    let at = |i: u64| Some(PageMapping { virt: 0x10_0000 + i * 0x4000, phys: 0x4000 + i * 0x4000 });
    let mut range = map_kernel_range(GranuleKind::Size16KiB, 0x10_0000, 0x4000, 0xc000);
    assert_eq!(range.page(), at(0));
    assert_eq!(range.answer(true), Ok(at(1)));
    assert_eq!(range.answer(false), Err(MapperError::InvalidGeometry));
    assert_eq!(range.page(), at(1));
    assert_eq!(range.answer(true), Ok(at(2)));
    assert_eq!(range.answer(true), Ok(None));
    assert_eq!(range.page(), None);
    let mut top = map_kernel_range(GranuleKind::Size4KiB, u64::MAX - 0xfff, 0, 0x1000);
    assert_eq!(top.page(), Some(PageMapping { virt: u64::MAX - 0xfff, phys: 0 }));
    assert_eq!(top.answer(true), Ok(None));
    assert_eq!(map_kernel_range(GranuleKind::Size4KiB, 0, 0, 0).page(), None);
}

const SHIFTS: [u32; 4] = [39, 30, 21, 12];

fn indices(addr: u64) -> [u64; 4] {
    SHIFTS.map(|s| (addr >> s) & 0x1ff)
}

#[test]
fn the_recursive_base_selects_the_same_entry_everywhere() {
    for index in [0usize, 1, 255, 256, 510, 511] {
        let base = recursive_base(index, &SHIFTS, 48);
        assert_eq!(indices(base), [index as u64; 4]);
        assert_eq!(base >> 48, if index >= 256 { 0xffff } else { 0 });
        assert_eq!(base & 0xfff, 0);
    }
    assert_eq!(recursive_base(510, &SHIFTS, 48), 0xffff_ff7f_bfdf_e000);
}

#[test]
fn the_root_table_refers_to_itself() {
    let mut table = [0u64; 512];
    let base = install_recursive_mapping(&mut table, 0x4000_0000, 510, &SHIFTS, 48, 0);
    assert_eq!(base, Ok(0xffff_ff7f_bfdf_e000));
    assert_eq!(table[510], 0x4000_0003);
    assert_eq!(table.iter().filter(|&&e| e != 0).count(), 1);
    assert_eq!(
        install_recursive_mapping(&mut table, 0x4000_0000, 510, &SHIFTS, 48, 0),
        Err(MapperError::InvalidGeometry)
    );
    assert_eq!(
        install_recursive_mapping(&mut table, 0x4000_0000, 512, &SHIFTS, 48, 0),
        Err(MapperError::InvalidGeometry)
    );
    assert_eq!(table[510], 0x4000_0003);
}

#[test]
fn a_descriptor_is_reached_through_the_recursive_entry() {
    let base = recursive_base(510, &SHIFTS, 48);
    let virt = 0xffff_8300_0000_0000u64;
    let at = recursive_descriptor(base, virt);
    assert_eq!(at, 0xffff_ff41_8000_0000);
    let walk = indices(virt);
    assert_eq!(indices(at), [510, walk[0], walk[1], walk[2]]);
    assert_eq!((at & 0xfff) / 8, walk[3]);
    let other = 0xffff_8123_4567_8000u64;
    let at = recursive_descriptor(base, other);
    let walk = indices(other);
    assert_eq!(indices(at), [510, walk[0], walk[1], walk[2]]);
    assert_eq!(at & 0xfff, walk[3] * 8);
}

#[test]
fn the_width_of_physical_addresses_is_read() {
    let widths: Vec<Option<u8>> = (0..8u64).map(|f| output_addr_bits(0xf_0000_1234 ^ (7 << 32) | (f << 32))).collect();
    let expected = [Some(32), Some(36), Some(40), Some(42), Some(44), Some(48), Some(52), None];
    assert_eq!(widths[..], expected[..]);
}

#[test]
fn the_walk_settings_are_masked() {
    let config = BootConfig::default();
    assert_eq!(config.mair(), 0xff);
    assert_eq!(config.table_walk_shareability(), 3);
    assert_eq!(config.table_walk_outer_cacheability(), 1);
    assert_eq!(config.table_walk_inner_cacheability(), 1);
    let odd = BootConfig {
        mair: 5,
        table_walk_shareability: 0xfe,
        table_walk_outer_cacheability: 0xfd,
        table_walk_inner_cacheability: 0x04,
    };
    assert_eq!(odd.mair(), 5);
    assert_eq!(odd.table_walk_shareability(), 2);
    assert_eq!(odd.table_walk_outer_cacheability(), 1);
    assert_eq!(odd.table_walk_inner_cacheability(), 0);
}

#[test]
fn registers_are_planned() {
    let config = BootConfig::default();
    let plan = plan_install::<Vmsa64, _>(&config, root(), true, u64::MAX, None).unwrap();
    let upper = (2u64 << 32) | (2 << 30) | (3 << 28) | (1 << 26) | (1 << 24) | (16 << 16);
    assert_eq!(
        plan,
        InstallPlan {
            mair: 0xff,
            tcr2: None,
            tcr: ((u64::MAX & !TTBR1_MASK) | upper) & !TCR_DS,
            root_table: 0x4321_0000,
        }
    );
    let plan = plan_install::<Vmsa64, _>(&config, root(), true, 0, Some(u64::MAX)).unwrap();
    assert_eq!(plan.tcr, upper);
    assert_eq!(plan.tcr2, Some(u64::MAX & !TCR2_D128));
    assert_eq!(output_addr_bits(plan.tcr), Some(40));
    let plan = plan_install::<Vmsa64Lpa2, _>(&config, root(), true, 0, Some(0)).unwrap();
    assert_eq!(plan.tcr, upper | TCR_DS);
    assert_eq!(plan.tcr2, Some(0));
    let plan = plan_install::<Vmsa128, _>(&config, root(), true, TCR_DS, Some(1)).unwrap();
    assert_eq!(plan.tcr, upper);
    assert_eq!(plan.tcr2, Some(1 | TCR2_D128));
}

#[test]
fn each_granule_has_its_encoding() {
    let config = BootConfig::default();
    let tg1 = |granule: GranuleKind| {
        let mut r = root();
        r.granule = granule;
        let plan = plan_install::<Vmsa64, _>(&config, r, true, 0, None).unwrap();
        (plan.tcr >> 30) & 3
    };
    assert_eq!(tg1(GranuleKind::Size4KiB), 2);
    assert_eq!(tg1(GranuleKind::Size16KiB), 1);
    assert_eq!(tg1(GranuleKind::Size64KiB), 3);
    assert_eq!(GranuleKind::Size4KiB.size(), 0x1000);
    assert_eq!(GranuleKind::Size16KiB.size(), 0x4000);
    assert_eq!(GranuleKind::Size64KiB.size(), 0x1_0000);
}

#[test]
fn what_the_processor_cannot_do_is_refused() {
    let config = BootConfig::default();
    assert_eq!(
        plan_install::<Vmsa64, _>(&config, root(), false, 0, None),
        Err(MapperError::UnsupportedDescriptorFormat)
    );
    let mut odd = root();
    odd.output_addr_bits = 41;
    assert_eq!(
        plan_install::<Vmsa64, _>(&config, odd, true, 0, None),
        Err(MapperError::UnsupportedPhysicalAddressWidth(41))
    );
}

#[test]
fn formats_select_their_bits() {
    let mut tcr = u64::MAX;
    Vmsa64::configure_tcr(&mut tcr);
    assert_eq!(tcr, u64::MAX & !(1 << 59));
    Vmsa64Lpa2::configure_tcr(&mut tcr);
    assert_eq!(tcr, u64::MAX);
    Vmsa128::configure_tcr(&mut tcr);
    assert_eq!(tcr, u64::MAX & !(1 << 59));
    assert_eq!(
        (Vmsa64::USES_D128, Vmsa64Lpa2::USES_D128, Vmsa128::USES_D128),
        (false, false, true)
    );
    assert_eq!(TCR_DS, 1 << 59);
    assert_eq!(TCR2_D128, 1 << 5);
    assert_eq!(
        TTBR1_MASK,
        (0x7 << 32) | (0x3 << 30) | (0x3 << 28) | (0x3 << 26) | (0x3 << 24) | (1 << 23) | (0x3f << 16)
    );
}

fn layout(bytes: usize, align: usize) -> TableAllocLayout {
    TableAllocLayout::new(bytes, align).unwrap()
}

#[test]
fn tables_are_aligned_to_powers_of_two() {
    assert!(TableAllocLayout::new(8, 0).is_none());
    assert!(TableAllocLayout::new(8, 3).is_none());
    assert!(TableAllocLayout::new(8, 1).is_some());
}

#[test]
fn a_fixed_pool_hands_out_its_tables() {
    let granule = GranuleKind::Size4KiB;
    assert_eq!(FixedTablePool::pages_wanted(granule, 3), Ok(4));
    assert_eq!(FixedTablePool::pages_wanted(GranuleKind::Size64KiB, 1), Ok(32));
    assert_eq!(
        FixedTablePool::pages_wanted(granule, usize::MAX / 0x1000 + 1),
        Err(MapperError::NoMemory)
    );
    assert_eq!(
        FixedTablePool::pages_wanted(granule, usize::MAX / 0x1000),
        Ok(usize::MAX / 0x1000 + 1)
    );
    let new = FixedTablePool::new(granule, 2, Some(0x1234)).unwrap();
    assert_eq!(new.base(), 0x2000);
    assert_eq!(new.bytes(), 0x2000);
    let mut memory = vec![0xaau8; new.bytes()];
    let mut pool = new.clear(&mut memory);
    assert!(memory.iter().all(|&b| b == 0));
    assert_eq!(pool.allocate_zeroed_table(layout(0x1000, 0x1000)), Ok(0x2000));
    assert_eq!(pool.allocate_zeroed_table(layout(0x1000, 0x1000)), Ok(0x3000));
    assert_eq!(pool.reclaim_table(), Ok(()));
    assert_eq!(
        pool.allocate_zeroed_table(layout(1, 1)),
        Err(MapperError::NoMemory)
    );
    assert_eq!(
        FixedTablePool::new(granule, 1, Some(u64::MAX)).err(),
        Some(MapperError::NoMemory)
    );
    assert_eq!(FixedTablePool::new(granule, 1, None).err(), Some(MapperError::NoMemory));
    let top = FixedTablePool::new(granule, 1, Some(u64::MAX - 0xfff)).unwrap();
    let mut pool = top.clear(&mut vec![0u8; 0x1000]);
    assert_eq!(pool.allocate_zeroed_table(layout(0x1000, 0x1000)), Ok(u64::MAX - 0xfff));
}

/// A table out of the last chunk.
fn last(pool: &mut UefiTablePool, wanted: TableAllocLayout) -> Option<u64> {
    match pool.allocate_zeroed_table(wanted, PoolReply::Asked) {
        Ok(PoolStep::Done(addr)) => Some(addr),
        Ok(PoolStep::Allocate(_)) => None,
        other => panic!("{:?}", other),
    }
}

/// The chunk of an allocation.
fn chunk(pool: &mut UefiTablePool, base: u64, pages: usize) -> Result<NewChunk, MapperError> {
    match pool.allocate_zeroed_table(layout(8, 8), PoolReply::Allocated { base, pages })? {
        PoolStep::Clear(chunk) => Ok(chunk),
        other => panic!("{:?}", other),
    }
}

/// A table out of a new chunk.
fn fresh(
    pool: &mut UefiTablePool,
    chunk: NewChunk,
    wanted: TableAllocLayout,
) -> Result<u64, MapperError> {
    let cleared = PoolReply::Cleared(chunk_cleared(chunk));
    match pool.allocate_zeroed_table(wanted, cleared)? {
        PoolStep::Done(addr) => Ok(addr),
        other => panic!("{:?}", other),
    }
}

fn chunk_cleared(chunk: NewChunk) -> bootloader::table_pool::PoolChunk {
    let mut memory = vec![0xaau8; chunk.bytes()];
    let chunk = chunk.clear(&mut memory);
    assert!(memory.iter().all(|&b| b == 0));
    chunk
}

fn pages(pool: &mut UefiTablePool, wanted: TableAllocLayout) -> Result<usize, MapperError> {
    match pool.allocate_zeroed_table(wanted, PoolReply::Asked)? {
        PoolStep::Allocate(pages) => Ok(pages),
        other => panic!("{:?}", other),
    }
}

#[test]
fn a_growing_pool_adds_chunks() {
    let granule = GranuleKind::Size4KiB;
    let mut pool = UefiTablePool::new(granule);
    let table = layout(0x1000, 0x1000);
    assert_eq!(last(&mut pool, table), None);
    assert_eq!(pages(&mut pool, table), Ok(17));
    assert_eq!(pages(&mut pool, layout(0x20000, 0x1000)), Ok(33));
    assert_eq!(pages(&mut pool, layout(usize::MAX, 1)), Err(MapperError::NoMemory));
    assert_eq!(
        pool.allocate_zeroed_table(table, PoolReply::Refused).err(),
        Some(MapperError::NoMemory)
    );
    let first = chunk(&mut pool, 0x8800, 17).unwrap();
    assert_eq!(first.base(), 0x9000);
    assert_eq!(first.bytes(), 17 * 0x1000 - 0x800);
    assert_eq!(fresh(&mut pool, first, table), Ok(0x9000));
    for i in 1..16 {
        assert_eq!(last(&mut pool, table), Some(0x9000 + i * 0x1000));
    }
    assert_eq!(last(&mut pool, table), None);
    assert_eq!(last(&mut pool, layout(0x800, 8)), Some(0x1_9000));
    assert_eq!(last(&mut pool, layout(1, 1)), None);
    assert_eq!(pool.reclaim_table(), Ok(()));
    assert_eq!(last(&mut pool, layout(1, 1)), None);
    let small = chunk(&mut pool, 0x10_0000, 1).unwrap();
    assert_eq!(
        fresh(&mut pool, small, layout(0x2000, 1)),
        Err(MapperError::InvalidGeometry)
    );
    assert_eq!(
        chunk(&mut pool, u64::MAX - 1, 1).err(),
        Some(MapperError::NoMemory)
    );
    let top = chunk(&mut pool, u64::MAX - 0xfff, 1).unwrap();
    assert_eq!(fresh(&mut pool, top, table), Ok(u64::MAX - 0xfff));
}

#[test]
fn tables_of_a_pool_are_aligned_apart_and_zero() {
    let mut pool = UefiTablePool::new(GranuleKind::Size4KiB);
    let mut memory = vec![0xaau8; 0x20_0000];
    let mut next = 0x800u64;
    let mut tables: Vec<(u64, usize)> = Vec::new();
    for (bytes, align) in [(0x1000usize, 0x1000usize), (0x18, 8), (0x40, 0x40), (0x1000, 0x1000)]
        .into_iter()
        .cycle()
        .take(60)
    {
        let wanted = layout(bytes, align);
        let mut reply = PoolReply::Asked;
        let addr = loop {
            reply = match pool.allocate_zeroed_table(wanted, reply).unwrap() {
                PoolStep::Allocate(pages) => {
                    let base = next;
                    next += pages as u64 * 0x1000;
                    PoolReply::Allocated { base, pages }
                }
                PoolStep::Clear(chunk) => {
                    let at = chunk.base() as usize;
                    let end = at + chunk.bytes();
                    PoolReply::Cleared(chunk.clear(&mut memory[at..end]))
                }
                PoolStep::Done(addr) => break addr,
            };
        };
        assert_eq!(addr % align as u64, 0);
        for &(other, other_bytes) in &tables {
            assert!(other + other_bytes as u64 <= addr || addr + bytes as u64 <= other);
        }
        let range = addr as usize..addr as usize + bytes;
        assert!(memory[range.clone()].iter().all(|&b| b == 0));
        memory[range].fill(0x55);
        tables.push((addr, bytes));
    }
    assert!(next > 0x20000);
}

#[test]
fn tables_in_a_chunk_are_aligned_and_apart() {
    let mut pool = UefiTablePool::new(GranuleKind::Size4KiB);
    let mut chunk = chunk_cleared(chunk(&mut pool, 0x4000, 4).unwrap());
    assert_eq!((chunk.base(), chunk.bytes()), (0x4000, 0x4000));
    assert_eq!(chunk.allocate_from_chunk(layout(0x18, 8)), Some(0x4000));
    assert_eq!(chunk.allocate_from_chunk(layout(0x40, 0x40)), Some(0x4040));
    assert_eq!(chunk.allocate_from_chunk(layout(0x1000, 0x1000)), Some(0x5000));
    assert_eq!(chunk.allocate_from_chunk(layout(0x2001, 1)), None);
    assert_eq!(chunk.allocate_from_chunk(layout(0x2000, 1)), Some(0x6000));
    assert_eq!(chunk.allocate_from_chunk(layout(0, 0x1000)), Some(0x8000));
    assert_eq!(chunk.allocate_from_chunk(layout(1, 1)), None);
}
