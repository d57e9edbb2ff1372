//! What the mapper of the platform is asked to map: ranges page by page, and the translation
//! tables themselves.
use crate::align::lemma_pow2_64;
use crate::kernel_loading::{canonical, SegmentPerms};
use crate::mapper::{GranuleKind, MapperError};
use vstd::arithmetic::power2::{lemma2_to64, lemma_pow2_adds, pow2};
use vstd::prelude::*;

verus! {

/// Access to tables at addresses that are mapped to themselves.
#[derive(Clone, Copy, Debug)]
pub struct IdentityTableAccess;

impl IdentityTableAccess {
    /// Access without any state.
    pub fn new() -> (r: Self)
        ensures
            r == IdentityTableAccess,
    {
        IdentityTableAccess
    }

    /// Where the table at this physical address can be accessed; no table is at zero.
    pub fn table_at(&self, addr: u64) -> (r: Result<u64, MapperError>)
        ensures
            match r {
                Ok(at) => addr != 0 && at == addr,
                Err(e) => addr == 0 && e is NullTable,
            },
    {
        if addr == 0 {
            return Err(MapperError::NullTable);
        }
        Ok(addr)
    }
}

// ---------------------------------------------------------------------------------------------
// Ranges
// ---------------------------------------------------------------------------------------------
/// How data may be accessed.
#[derive(Clone, Copy, Debug, Eq, PartialEq)]
pub enum DataAccess {
    Denied,
    ReadOnly,
    ReadWrite,
}

/// What the pages of a kernel range may be used for.
#[derive(Clone, Copy, Debug, Eq, PartialEq)]
pub struct LeafPermissions {
    pub privileged_data: DataAccess,
    pub unprivileged_data: DataAccess,
    pub privileged_execute: bool,
    pub unprivileged_execute: bool,
    pub privileged_gcs: bool,
    pub unprivileged_gcs: bool,
}

/// The permissions of kernel pages.
pub open spec fn kernel_permissions(perms: SegmentPerms) -> LeafPermissions {
    LeafPermissions {
        privileged_data: if perms.write {
            DataAccess::ReadWrite
        } else {
            DataAccess::ReadOnly
        },
        unprivileged_data: DataAccess::Denied,
        privileged_execute: perms.execute,
        unprivileged_execute: false,
        privileged_gcs: false,
        unprivileged_gcs: false,
    }
}

/// The permissions of kernel pages: the kernel can always read, writes and executes where it is
/// allowed to, and nobody else has access.
pub fn leaf_permissions(perms: SegmentPerms) -> (r: LeafPermissions)
    ensures
        r == kernel_permissions(perms),
        r == (LeafPermissions {
            privileged_data: if perms.write {
                DataAccess::ReadWrite
            } else {
                DataAccess::ReadOnly
            },
            unprivileged_data: DataAccess::Denied,
            privileged_execute: perms.execute,
            unprivileged_execute: false,
            privileged_gcs: false,
            unprivileged_gcs: false,
        }),
{
    LeafPermissions {
        privileged_data: if perms.write {
            DataAccess::ReadWrite
        } else {
            DataAccess::ReadOnly
        },
        unprivileged_data: DataAccess::Denied,
        privileged_execute: perms.execute,
        unprivileged_execute: false,
        privileged_gcs: false,
        unprivileged_gcs: false,
    }
}

/// One page to map.
#[derive(Clone, Copy, Debug, Eq, PartialEq)]
pub struct PageMapping {
    pub virt: u64,
    pub phys: u64,
}

/// The pages of a range, from the lowest on.
pub open spec fn range_pages(size: int, virt_start: int, phys_start: int, byte_len: int) -> Seq<
    PageMapping,
> {
    Seq::new(
        (byte_len / size) as nat,
        |i: int|
            PageMapping {
                virt: (virt_start + i * size) as u64,
                phys: (phys_start + i * size) as u64,
            },
    )
}

/// The first of these pages, if there is one.
pub open spec fn first_page(pages: Seq<PageMapping>) -> Option<PageMapping> {
    if pages.len() > 0 {
        Some(pages[0])
    } else {
        None
    }
}

/// One page less of what is left of a range.
proof fn lemma_one_page_less(granule: GranuleKind, off: u64, byte_len: u64)
    requires
        off < byte_len,
        off % granule.bytes() == 0,
        byte_len % granule.bytes() == 0,
    ensures
        ({
            let size = granule.bytes() as int;
            &&& off + size <= byte_len
            &&& (off + size) % size == 0
            &&& (byte_len - off) / size == (byte_len - (off + size)) / size + 1
        }),
{
    match granule {
        GranuleKind::Size4KiB => {},
        GranuleKind::Size16KiB => {},
        GranuleKind::Size64KiB => {},
    }
}

/// A range that is being mapped page by page.
#[derive(Clone, Copy, Debug)]
pub struct KernelRange {
    granule: GranuleKind,
    virt_start: u64,
    phys_start: u64,
    byte_len: u64,
    off: u64,
}

impl KernelRange {
    #[verifier::type_invariant]
    spec fn wf(self) -> bool {
        &&& self.byte_len % self.granule.bytes() == 0
        &&& self.off % self.granule.bytes() == 0
        &&& self.off <= self.byte_len
        &&& self.virt_start + self.byte_len <= u64::MAX + 1
        &&& self.phys_start + self.byte_len <= u64::MAX + 1
    }

    /// The pages that are still to be mapped, in order.
    pub closed spec fn remaining(self) -> Seq<PageMapping> {
        let size = self.granule.bytes() as int;
        range_pages(
            size,
            self.virt_start + self.off,
            self.phys_start + self.off,
            self.byte_len - self.off,
        )
    }

    /// The page to map now.
    pub fn page(&self) -> (r: Option<PageMapping>)
        ensures
            r == first_page(self.remaining()),
    {
        proof {
            use_type_invariant(self);
        }
        if self.off >= self.byte_len {
            return None;
        }
        proof {
            lemma_one_page_less(self.granule, self.off, self.byte_len);
        }
        Some(
            PageMapping { virt: self.virt_start + self.off, phys: self.phys_start + self.off },
        )
    }

    /// Takes the reply to mapping the page, and goes on to the next one. A page that could not be
    /// mapped ends the mapping: nothing is undone, and the page stays the one to map.
    pub fn answer(&mut self, inserted: bool) -> (r: Result<Option<PageMapping>, MapperError>)
        requires
            old(self).remaining().len() > 0,
        ensures
            match r {
                Ok(next) => {
                    &&& inserted
                    &&& final(self).remaining() == old(self).remaining().drop_first()
                    &&& next == first_page(final(self).remaining())
                },
                Err(e) => {
                    &&& !inserted
                    &&& e is InvalidGeometry
                    &&& final(self).remaining() == old(self).remaining()
                },
            },
    {
        if !inserted {
            return Err(MapperError::InvalidGeometry);
        }
        proof {
            use_type_invariant(&*self);
        }
        let size: u64 = self.granule.size();
        proof {
            if self.off >= self.byte_len {
                assert(self.remaining().len() == 0);
            }
            lemma_one_page_less(self.granule, self.off, self.byte_len);
        }
        let ghost before = self.remaining();
        self.off = self.off + size;
        proof {
            let after = self.remaining();
            assert(before.drop_first().len() == after.len());
            assert forall|i: int| 0 <= i < after.len() implies before.drop_first()[i] == after[i] by {
                assert((i + 1) * size == i * size + size) by (nonlinear_arith);
            }
            assert(before.drop_first() =~= after);
        }
        Ok(self.page())
    }
}

/// The pages to map for a range of whole pages, with the virtual range at the physical one.
pub fn map_kernel_range(
    granule: GranuleKind,
    virt_start: u64,
    phys_start: u64,
    byte_len: u64,
) -> (r: KernelRange)
    requires
        virt_start % granule.bytes() == 0,
        phys_start % granule.bytes() == 0,
        byte_len % granule.bytes() == 0,
        virt_start + byte_len <= u64::MAX + 1,
        phys_start + byte_len <= u64::MAX + 1,
    ensures
        r.remaining() == range_pages(
            granule.bytes() as int,
            virt_start as int,
            phys_start as int,
            byte_len as int,
        ),
{
    KernelRange { granule, virt_start, phys_start, byte_len, off: 0 }
}

/// Mapping a range page by page maps every address of it, and nothing else: the virtual address
/// `virt_start + x` goes to the physical address `phys_start + x`.
pub proof fn law_range_pages_cover_the_range(
    granule: GranuleKind,
    virt_start: u64,
    phys_start: u64,
    byte_len: u64,
    x: int,
)
    requires
        virt_start % granule.bytes() == 0,
        phys_start % granule.bytes() == 0,
        byte_len % granule.bytes() == 0,
        virt_start + byte_len <= u64::MAX + 1,
        phys_start + byte_len <= u64::MAX + 1,
    ensures
        ({
            let size = granule.bytes() as int;
            let pages = range_pages(
                size,
                virt_start as int,
                phys_start as int,
                byte_len as int,
            );
            0 <= x < byte_len <==> exists|i: int|
                0 <= i < pages.len() && (#[trigger] pages[i]).virt <= virt_start + x
                    < pages[i].virt + size && virt_start + x - pages[i].virt == phys_start + x
                    - pages[i].phys
        }),
{
    let size = granule.bytes() as int;
    let pages = range_pages(size, virt_start as int, phys_start as int, byte_len as int);
    assert forall|i: int| 0 <= i < pages.len() implies (#[trigger] pages[i]).virt == virt_start + i
        * size && pages[i].phys == phys_start + i * size && 0 <= i * size <= byte_len - size by {
        match granule {
            GranuleKind::Size4KiB => {},
            GranuleKind::Size16KiB => {},
            GranuleKind::Size64KiB => {},
        }
    }
    if 0 <= x < byte_len {
        let i = x / size;
        match granule {
            GranuleKind::Size4KiB => {},
            GranuleKind::Size16KiB => {},
            GranuleKind::Size64KiB => {},
        }
        assert(0 <= i < pages.len());
        assert(pages[i].virt <= virt_start + x < pages[i].virt + size);
    }
}

// ---------------------------------------------------------------------------------------------
// Recursive mapping
// ---------------------------------------------------------------------------------------------
/// The address bits that select entry `index` at every level, given where each level has its bits.
pub open spec fn index_bits(index: u64, shifts: Seq<u32>) -> u64
    decreases shifts.len(),
{
    if shifts.len() == 0 {
        0
    } else {
        index_bits(index, shifts.drop_last()) | (index << shifts.last())
    }
}

/// An address of `addr_bits` bits, with its highest bit repeated in all bits above.
pub open spec fn sign_extended(addr: u64, addr_bits: u8) -> u64 {
    if addr & (1u64 << (addr_bits - 1)) != 0 {
        addr | !(((1u64 << addr_bits) - 1) as u64)
    } else {
        addr
    }
}

/// The virtual address at which the root table appears once its entry `index` points back at it.
/// `shifts` says, from the root level to the last one, from which bit on an address has the index
/// of that level.
pub fn recursive_base(index: usize, shifts: &[u32], addr_bits: u8) -> (r: u64)
    requires
        forall|i: int| 0 <= i < shifts@.len() ==> #[trigger] shifts@[i] < 64,
        1 <= addr_bits < 64,
    ensures
        r == sign_extended(index_bits(index as u64, shifts@), addr_bits),
{
    let mut base: u64 = 0;
    let mut level: usize = 0;
    assert(shifts@.take(0) =~= Seq::<u32>::empty());
    while level < shifts.len()
        invariant
            level <= shifts@.len(),
            forall|i: int| 0 <= i < shifts@.len() ==> #[trigger] shifts@[i] < 64,
            base == index_bits(index as u64, shifts@.take(level as int)),
        decreases shifts@.len() - level,
    {
        let shift: u32 = shifts[level];
        assert(shifts@[level as int] < 64);
        proof {
            let longer = shifts@.take(level + 1);
            assert(longer.drop_last() =~= shifts@.take(level as int));
            assert(longer.last() == shift);
        }
        base = base | ((index as u64) << shift);
        level += 1;
    }
    assert(shifts@.take(shifts@.len() as int) =~= shifts@);
    let sign_bit: u64 = 1u64 << (addr_bits - 1);
    if base & sign_bit != 0 {
        assert(1u64 << addr_bits >= 1) by (bit_vector)
            requires
                addr_bits < 64,
        ;
        base = base | !((1u64 << addr_bits) - 1);
    }
    base
}

/// What comes of pointing entry `index` of a table at the table itself: the virtual address at which
/// the tables appear, and the table. The entry must exist and be invalid before.
pub open spec fn recursive_install(
    root: Seq<u64>,
    root_addr: u64,
    index: usize,
    shifts: Seq<u32>,
    addr_bits: u8,
    invalid: u64,
) -> Result<(u64, Seq<u64>), MapperError> {
    if index >= root.len() || root[index as int] != invalid {
        Err(MapperError::InvalidGeometry)
    } else {
        Ok(
            (
                sign_extended(index_bits(index as u64, shifts), addr_bits),
                root.update(index as int, root_addr | 3),
            ),
        )
    }
}

/// Points entry `index` of the root table at the root table itself, and hands out the virtual
/// address at which the tables then appear. The entry must exist and be invalid before.
pub fn install_recursive_mapping(
    root: &mut [u64],
    root_addr: u64,
    index: usize,
    shifts: &[u32],
    addr_bits: u8,
    invalid: u64,
) -> (r: Result<u64, MapperError>)
    requires
        forall|i: int| 0 <= i < shifts@.len() ==> #[trigger] shifts@[i] < 64,
        1 <= addr_bits < 64,
    ensures
        match r {
            Ok(base) => recursive_install(
                old(root)@,
                root_addr,
                index,
                shifts@,
                addr_bits,
                invalid,
            ) == Ok::<(u64, Seq<u64>), MapperError>((base, final(root)@)),
            Err(e) => recursive_install(
                old(root)@,
                root_addr,
                index,
                shifts@,
                addr_bits,
                invalid,
            ) == Err::<(u64, Seq<u64>), MapperError>(e) && final(root)@ == old(root)@,
        },
{
    if index >= root.len() {
        return Err(MapperError::InvalidGeometry);
    }
    let base: u64 = recursive_base(index, shifts, addr_bits);
    if root[index] != invalid {
        return Err(MapperError::InvalidGeometry);
    }
    root[index] = root_addr | 0b11;
    Ok(base)
}

/// A recursive entry changes nothing else in the root table, and it stays: where it can be told from
/// an invalid one, installing a second one at the same index fails, whatever it is for.
pub proof fn law_recursive_entry_is_installed_once(
    root: Seq<u64>,
    root_addr: u64,
    index: usize,
    shifts: Seq<u32>,
    addr_bits: u8,
    invalid: u64,
    later_addr: u64,
    later_shifts: Seq<u32>,
    later_bits: u8,
)
    requires
        recursive_install(root, root_addr, index, shifts, addr_bits, invalid) is Ok,
        invalid != root_addr | 3,
    ensures
        ({
            let table = recursive_install(
                root,
                root_addr,
                index,
                shifts,
                addr_bits,
                invalid,
            )->Ok_0.1;
            &&& table.len() == root.len()
            &&& table[index as int] == root_addr | 3
            &&& forall|i: int| 0 <= i < root.len() && i != index ==> #[trigger] table[i] == root[i]
            &&& recursive_install(
                table,
                later_addr,
                index,
                later_shifts,
                later_bits,
                invalid,
            ) == Err::<(u64, Seq<u64>), MapperError>(MapperError::InvalidGeometry)
        }),
{
}

/// The index that a virtual address has in the tables of a level, with pages of 4 KiB.
pub open spec fn level_index(addr: u64, level: int) -> int {
    if level == 0 {
        (addr / 0x80_0000_0000) as int % 512
    } else if level == 1 {
        (addr / 0x4000_0000) as int % 512
    } else if level == 2 {
        (addr / 0x20_0000) as int % 512
    } else {
        (addr / 0x1000) as int % 512
    }
}

/// The virtual address of the last-level descriptor of `virtual_address`, where the tables appear
/// at `recursive_base`: the indices of the address, each one level further down.
pub open spec fn descriptor_address(recursive_base: u64, virtual_address: u64) -> int {
    recursive_base - recursive_base % 0x80_0000_0000 + level_index(virtual_address, 0) * 0x4000_0000
        + level_index(virtual_address, 1) * 0x20_0000 + level_index(virtual_address, 2) * 0x1000
        + level_index(virtual_address, 3) * 8
}

/// The virtual address of the last-level descriptor of `virtual_address`, where the tables appear
/// at `recursive_base`, with pages of 4 KiB.
pub fn recursive_descriptor(recursive_base: u64, virtual_address: u64) -> (r: u64)
    ensures
        r == descriptor_address(recursive_base, virtual_address),
{
    let index_mask: u64 = 0x1ff;
    let l0: u64 = (virtual_address >> 39) & index_mask;
    let l1: u64 = (virtual_address >> 30) & index_mask;
    let l2: u64 = (virtual_address >> 21) & index_mask;
    let l3: u64 = (virtual_address >> 12) & index_mask;
    proof {
        let v = virtual_address;
        assert((v >> 39) & 0x1ff == (v / 0x80_0000_0000) % 512 && (v >> 30) & 0x1ff == (v
            / 0x4000_0000) % 512 && (v >> 21) & 0x1ff == (v / 0x20_0000) % 512 && (v >> 12) & 0x1ff
            == (v / 0x1000) % 512) by (bit_vector);
        let b = recursive_base;
        assert(((b & 0xffff_ff80_0000_0000) | (l0 << 30) | (l1 << 21) | (l2 << 12) | ((l3 * 8) as u64))
            == (b - b % 0x80_0000_0000) + l0 * 0x4000_0000 + l1 * 0x20_0000 + l2 * 0x1000 + l3 * 8)
            by (bit_vector)
            requires
                l0 < 512,
                l1 < 512,
                l2 < 512,
                l3 < 512,
        ;
    }
    (recursive_base & 0xffff_ff80_0000_0000) | (l0 << 30) | (l1 << 21) | (l2 << 12) | (l3 * 8)
}

/// The levels of tables for 48-bit addresses with pages of 4 KiB.
pub open spec fn shifts_4k() -> Seq<u32> {
    seq![39u32, 30u32, 21u32, 12u32]
}

/// With pages of 4 KiB and 48-bit addresses, the tables appear at a canonical address that has the
/// recursive index at every level: resolving it goes through the root table each time and ends at
/// the root table.
pub proof fn law_recursive_base_walks_to_the_root(index: u64)
    requires
        index < 512,
    ensures
        ({
            let base = sign_extended(index_bits(index, shifts_4k()), 48);
            &&& forall|level: int| 0 <= level < 4 ==> #[trigger] level_index(base, level) == index
            &&& base % 0x1000 == 0
            &&& canonical(base as int, 48)
        }),
{
    let s = shifts_4k();
    reveal_with_fuel(index_bits, 5);
    assert(s.drop_last() =~= seq![39u32, 30u32, 21u32]);
    assert(s.drop_last().drop_last() =~= seq![39u32, 30u32]);
    assert(s.drop_last().drop_last().drop_last() =~= seq![39u32]);
    assert(s.drop_last().drop_last().drop_last().drop_last() =~= Seq::<u32>::empty());
    let raw = index_bits(index, s);
    assert(raw == 0u64 | (index << 39u32) | (index << 30u32) | (index << 21u32) | (index << 12u32));
    let base = sign_extended(raw, 48);
    assert(base == if raw & (1u64 << 47u8) != 0 {
        raw | !(((1u64 << 48u8) - 1) as u64)
    } else {
        raw
    });
    assert((base / 0x80_0000_0000) % 512 == index && (base / 0x4000_0000) % 512 == index && (base
        / 0x20_0000) % 512 == index && (base / 0x1000) % 512 == index && base % 0x1000 == 0 && (base
        < 0x8000_0000_0000 || base >= 0xffff_8000_0000_0000)) by (bit_vector)
        requires
            index < 512,
            raw == 0u64 | (index << 39u32) | (index << 30u32) | (index << 21u32) | (index << 12u32),
            base == if raw & (1u64 << 47u8) != 0 {
                raw | !(((1u64 << 48u8) - 1) as u64)
            } else {
                raw
            },
    ;
    lemma_pow2_47();
    lemma_pow2_64();
}

/// The highest bit of a 48-bit address.
proof fn lemma_pow2_47()
    ensures
        pow2(47) == 0x8000_0000_0000,
{
    lemma2_to64();
    lemma_pow2_adds(32, 15);
}

/// Resolving the descriptor address goes through the recursive entry once and then follows the
/// first three indices of the virtual address, so it ends in the last-level table of that address,
/// at the entry of its last index.
pub proof fn law_descriptor_address_walks_to_the_last_table(index: u64, virtual_address: u64)
    requires
        index < 512,
    ensures
        ({
            let base = sign_extended(index_bits(index, shifts_4k()), 48);
            let at = descriptor_address(base, virtual_address);
            &&& 0 <= at <= u64::MAX
            &&& level_index(at as u64, 0) == index
            &&& level_index(at as u64, 1) == level_index(virtual_address, 0)
            &&& level_index(at as u64, 2) == level_index(virtual_address, 1)
            &&& level_index(at as u64, 3) == level_index(virtual_address, 2)
            &&& at % 0x1000 == level_index(virtual_address, 3) * 8
            &&& canonical(at, 48)
        }),
{
    law_recursive_base_walks_to_the_root(index);
    let base = sign_extended(index_bits(index, shifts_4k()), 48);
    assert(level_index(base, 0) == index);
    lemma_pow2_47();
    lemma_pow2_64();
    let top: u64 = (base - base % 0x80_0000_0000) as u64;
    let a = level_index(virtual_address, 0) as u64;
    let b = level_index(virtual_address, 1) as u64;
    let c = level_index(virtual_address, 2) as u64;
    let d = level_index(virtual_address, 3) as u64;
    assert(top <= 0xffff_ff80_0000_0000 && top % 0x80_0000_0000 == 0 && top / 0x80_0000_0000 == base
        / 0x80_0000_0000 && (base < 0x8000_0000_0000 ==> top < 0x8000_0000_0000) && (base
        >= 0xffff_8000_0000_0000 ==> top >= 0xffff_8000_0000_0000)) by (bit_vector)
        requires
            top == base - base % 0x80_0000_0000,
    ;
    let at = (top + a * 0x4000_0000 + b * 0x20_0000 + c * 0x1000 + d * 8) as u64;
    assert(at == top + a * 0x4000_0000 + b * 0x20_0000 + c * 0x1000 + d * 8);
    assert(at == descriptor_address(base, virtual_address));
    assert(at / 0x80_0000_0000 == top / 0x80_0000_0000 && (at / 0x4000_0000) % 512 == a && (at
        / 0x20_0000) % 512 == b && (at / 0x1000) % 512 == c && at % 0x1000 == d * 8 && (top
        < 0x8000_0000_0000 ==> at < 0x8000_0000_0000) && at >= top) by (bit_vector)
        requires
            at == top + a * 0x4000_0000 + b * 0x20_0000 + c * 0x1000 + d * 8,
            top % 0x80_0000_0000 == 0,
            a < 512,
            b < 512,
            c < 512,
            d < 512,
    ;
}

// ---------------------------------------------------------------------------------------------
// What the operations are for
// ---------------------------------------------------------------------------------------------
/// The pages of a range are as many as it takes, from its start on and one behind the other, at the
/// same distance in both address spaces.
pub proof fn law_pages_of_a_range_follow_each_other(
    size: u64,
    virt_start: u64,
    phys_start: u64,
    byte_len: u64,
    i: int,
)
    requires
        size > 0,
        byte_len % size == 0,
        virt_start + byte_len <= u64::MAX + 1,
        phys_start + byte_len <= u64::MAX + 1,
    ensures
        ({
            let pages = range_pages(
                size as int,
                virt_start as int,
                phys_start as int,
                byte_len as int,
            );
            &&& pages.len() * size == byte_len
            &&& 0 <= i < pages.len() ==> pages[i].virt - virt_start == i * size && pages[i].phys
                - phys_start == i * size
        }),
{
    let n = byte_len as int / size as int;
    vstd::arithmetic::div_mod::lemma_fundamental_div_mod(byte_len as int, size as int);
    assert(0 <= n && n * size == byte_len) by (nonlinear_arith)
        requires
            byte_len == size * n + byte_len as int % size as int,
            byte_len as int % size as int == 0,
            size > 0,
    ;
    if 0 <= i < n {
        assert(0 <= i * size <= byte_len - size) by (nonlinear_arith)
            requires
                0 <= i,
                i + 1 <= n,
                n * size == byte_len,
                size > 0,
        ;
    }
}

/// The page to map now is the first of those that are left; there is none if and only if none is left.
pub proof fn law_the_first_page_comes_first(pages: Seq<PageMapping>)
    ensures
        first_page(pages) is None <==> pages.len() == 0,
        pages.len() > 0 ==> first_page(pages) == Some(pages[0]),
{
}

/// The recursive base has the bits of the index at every level, and no others: a bit is set if and
/// only if, for some level, the index has the bit that lies there.
pub proof fn law_the_index_stands_at_every_level(index: u64, shifts: Seq<u32>, bit: u32)
    requires
        forall|l: int| 0 <= l < shifts.len() ==> #[trigger] shifts[l] < 64,
        bit < 64,
    ensures
        (index_bits(index, shifts) >> bit) & 1 == 1 <==> exists|l: int|
            0 <= l < shifts.len() && #[trigger] shifts[l] <= bit && (index >> ((bit - shifts[l]) as u32))
                & 1 == 1,
    decreases shifts.len(),
{
    if shifts.len() == 0 {
        assert((0u64 >> bit) & 1 == 0) by (bit_vector);
    } else {
        let fewer = shifts.drop_last();
        let n = shifts.len() - 1;
        assert forall|l: int| 0 <= l < fewer.len() implies #[trigger] fewer[l] < 64 by {
            assert(fewer[l] == shifts[l]);
        }
        law_the_index_stands_at_every_level(index, fewer, bit);
        let x = index_bits(index, fewer);
        let s = shifts[n];
        let d = (bit - s) as u32;
        assert(((x | (index << s)) >> bit) & 1 == 1 <==> ((x >> bit) & 1 == 1 || (s <= bit && (index
            >> d) & 1 == 1))) by (bit_vector)
            requires
                s < 64,
                bit < 64,
                s <= bit ==> d == bit - s,
        ;
        assert(index_bits(index, shifts) == x | (index << s));
        if (x >> bit) & 1 == 1 {
            let l = choose|l: int|
                0 <= l < fewer.len() && #[trigger] fewer[l] <= bit && (index >> ((bit - fewer[l]) as u32))
                    & 1 == 1;
            assert(shifts[l] == fewer[l]);
        }
        if exists|l: int|
            0 <= l < shifts.len() && #[trigger] shifts[l] <= bit && (index >> ((bit - shifts[l]) as u32))
                & 1 == 1 {
            let l = choose|l: int|
                0 <= l < shifts.len() && #[trigger] shifts[l] <= bit && (index >> ((bit
                    - shifts[l]) as u32)) & 1 == 1;
            if l < n {
                assert(fewer[l] == shifts[l]);
            }
        }
    }
}

/// Extending the sign keeps the bits of the address and sets all bits above, if the highest of them is
/// set; otherwise it changes nothing.
pub proof fn law_the_sign_is_extended(addr: u64, addr_bits: u8, bit: u8)
    requires
        1 <= addr_bits < 64,
        bit < 64,
    ensures
        (addr >> ((addr_bits - 1) as u8)) & 1 == 0 ==> sign_extended(addr, addr_bits) == addr,
        (addr >> ((addr_bits - 1) as u8)) & 1 == 1 ==> (sign_extended(addr, addr_bits) >> bit) & 1 == (
        if bit < addr_bits {
            (addr >> bit) & 1
        } else {
            1u64
        }),
{
    let top = (addr_bits - 1) as u8;
    let ones = ((1u64 << addr_bits) - 1) as u64;
    assert(1u64 << addr_bits >= 1) by (bit_vector)
        requires
            addr_bits < 64,
    ;
    assert((addr & (1u64 << top) != 0) == ((addr >> top) & 1 == 1) && ((addr >> top) & 1 == 0 || (addr
        >> top) & 1 == 1)) by (bit_vector)
        requires
            top < 64,
    ;
    assert(((addr | !ones) >> bit) & 1 == (if bit < addr_bits {
        (addr >> bit) & 1
    } else {
        1u64
    })) by (bit_vector)
        requires
            ones == (1u64 << addr_bits) - 1,
            addr_bits < 64,
            bit < 64,
    ;
    assert(addr & (1u64 << (addr_bits - 1)) == addr & (1u64 << top));
}

/// A recursive entry is installed if and only if the table has the entry and it was invalid. It then
/// points at the root table, with the two lowest bits set.
pub proof fn law_recursive_entries_point_at_the_root(
    root: Seq<u64>,
    root_addr: u64,
    index: usize,
    shifts: Seq<u32>,
    addr_bits: u8,
    invalid: u64,
)
    ensures
        ({
            let outcome = recursive_install(root, root_addr, index, shifts, addr_bits, invalid);
            &&& outcome is Ok <==> index < root.len() && root[index as int] == invalid
            &&& outcome is Err ==> outcome->Err_0 == MapperError::InvalidGeometry
            &&& outcome matches Ok((base, table)) ==> {
                &&& table.len() == root.len()
                &&& forall|i: int|
                    0 <= i < root.len() && i != index ==> #[trigger] table[i] == root[i]
                &&& table[index as int] % 4 == 3
                &&& table[index as int] / 4 == root_addr / 4
                &&& base == sign_extended(index_bits(index as u64, shifts), addr_bits)
            }
        }),
{
    assert((root_addr | 3) % 4 == 3 && (root_addr | 3) / 4 == root_addr / 4) by (bit_vector);
}

/// The address of a descriptor lies in the region of the recursive base. The indices of the virtual
/// address, nine bits each, stand one level further down in it, and the last one counts descriptors of
/// eight bytes.
pub proof fn law_descriptor_addresses_hold_the_indices(recursive_base: u64, virtual_address: u64)
    ensures
        ({
            let at = descriptor_address(recursive_base, virtual_address);
            let v = virtual_address as int;
            &&& 0 <= at <= u64::MAX
            &&& at / 0x80_0000_0000 == recursive_base as int / 0x80_0000_0000
            &&& (at / 0x4000_0000) % 512 == (v / 0x80_0000_0000) % 512
            &&& (at / 0x20_0000) % 512 == (v / 0x4000_0000) % 512
            &&& (at / 0x1000) % 512 == (v / 0x20_0000) % 512
            &&& (at / 8) % 512 == (v / 0x1000) % 512
            &&& at % 8 == 0
        }),
{
    let v = virtual_address;
    let a = level_index(v, 0) as u64;
    let b = level_index(v, 1) as u64;
    let c = level_index(v, 2) as u64;
    let d = level_index(v, 3) as u64;
    let top: u64 = (recursive_base - recursive_base % 0x80_0000_0000) as u64;
    assert(top <= 0xffff_ff80_0000_0000 && top % 0x80_0000_0000 == 0 && top / 0x80_0000_0000
        == recursive_base / 0x80_0000_0000) by (bit_vector)
        requires
            top == recursive_base - recursive_base % 0x80_0000_0000,
    ;
    let at = (top + a * 0x4000_0000 + b * 0x20_0000 + c * 0x1000 + d * 8) as u64;
    assert(at == descriptor_address(recursive_base, v));
    assert(at / 0x80_0000_0000 == top / 0x80_0000_0000 && (at / 0x4000_0000) % 512 == a && (at
        / 0x20_0000) % 512 == b && (at / 0x1000) % 512 == c && (at / 8) % 512 == d && at % 8 == 0)
        by (bit_vector)
        requires
            at == top + a * 0x4000_0000 + b * 0x20_0000 + c * 0x1000 + d * 8,
            top % 0x80_0000_0000 == 0,
            a < 512,
            b < 512,
            c < 512,
            d < 512,
    ;
}

/// Nobody but the kernel has access to its pages. The kernel can read all of them, write exactly those
/// that can be written, and execute exactly those that can be executed.
pub proof fn law_only_the_kernel_has_access(perms: SegmentPerms)
    ensures
        kernel_permissions(perms).unprivileged_data is Denied,
        !kernel_permissions(perms).unprivileged_execute,
        !kernel_permissions(perms).privileged_gcs,
        !kernel_permissions(perms).unprivileged_gcs,
        !(kernel_permissions(perms).privileged_data is Denied),
        kernel_permissions(perms).privileged_data is ReadWrite <==> perms.write,
        kernel_permissions(perms).privileged_execute <==> perms.execute,
{
}

} // verus!
