//! Validating a kernel and placing its segments in memory.
use crate::align::{
    aligned_down, aligned_up, is_power_of_two, lemma_aligned, lemma_mask_u64, lemma_page_size,
    lemma_pow2_64, PAGE_SIZE,
};
use crate::mapper::MapperError;
use crate::elf::{ElfModel, KernelElf, ProgramHeader, EM_AARCH64, ET_DYN, ET_EXEC, PT_LOAD};
use vstd::arithmetic::power2::{is_pow2, lemma_pow2_unfold, pow2};
use vstd::bits::lemma_u64_shl_is_mul;
use vstd::prelude::*;

verus! {

/// The width of a virtual address where none is given.
pub const DEFAULT_VA_BITS: u32 = 48;

/// A UEFI status code.
#[derive(Clone, Copy, Debug, Eq, PartialEq)]
pub struct Status(pub u64);

/// What a mapped range may be used for.
#[derive(Clone, Copy, Debug, Eq, PartialEq)]
pub struct SegmentPerms {
    pub read: bool,
    pub write: bool,
    pub execute: bool,
}

/// A kernel segment in memory: whole pages.
#[derive(Clone, Debug)]
pub struct LoadedSegment {
    pub virt_start: u64,
    pub phys_start: u64,
    pub byte_len: u64,
    pub perms: SegmentPerms,
}

/// A kernel in memory.
#[derive(Clone, Debug)]
pub struct LoadedKernel {
    pub virt_entry: u64,
    pub virt_base: u64,
    pub virt_size: u64,
    pub segments: Vec<LoadedSegment>,
}

/// Why a kernel cannot be loaded.
#[derive(Clone, Debug, Eq, PartialEq)]
pub enum KernelLoadError<MapError> {
    MissingLoadSegment,
    InvalidSegmentSize,
    InvalidSegmentOffset,
    InvalidSegmentRange,
    InvalidVirtualRange,
    MappedSegmentOverlap,
    PhysicalAllocationFailed(Status),
    MappingFailed(MapError),
}

/// Why a file is no kernel that can be loaded.
#[derive(Clone, Copy, Debug, Eq, PartialEq)]
pub enum KernelValidationError {
    NotAarch64,
    NotElf64,
    NotLittleEndian,
    UnsupportedElfType,
    MissingEntry,
    MissingLoadSegment,
    InvalidLoadSegmentSize,
    InvalidLoadSegmentAlign,
    LoadSegmentAddressMismatch,
    LoadSegmentOverlap,
    DynamicKernelUnsupported,
    InterpreterUnsupported,
}

// ---------------------------------------------------------------------------------------------
// Addresses
// ---------------------------------------------------------------------------------------------
/// Whether `addr` is canonical for virtual addresses of `va_bits` bits: it lies in the lowest or in
/// the highest `2^(va_bits - 1)` bytes of the address space.
pub open spec fn canonical(addr: int, va_bits: int) -> bool {
    &&& 1 <= va_bits <= 64
    &&& (addr < pow2((va_bits - 1) as nat) || addr >= pow2(64) - pow2((va_bits - 1) as nat))
}

/// Whether a range is not empty, ends within the address space, and has canonical ends.
pub open spec fn canonical_range(start: int, byte_len: int, va_bits: int) -> bool {
    &&& byte_len > 0
    &&& start + byte_len <= pow2(64)
    &&& canonical(start, va_bits)
    &&& canonical(start + byte_len - 1, va_bits)
}

/// Tells whether `addr` is a canonical virtual address.
pub fn valid_va(addr: u64, va_bits: u32) -> (r: bool)
    ensures
        r == canonical(addr as int, va_bits as int),
{
    proof {
        lemma_pow2_64();
    }
    if va_bits == 0 || va_bits > 64 {
        return false;
    }
    if va_bits == 64 {
        proof {
            lemma_pow2_unfold(64);
        }
        return true;
    }
    let ghost b: u64 = (va_bits - 1) as u64;
    let ghost w: u64 = va_bits as u64;
    proof {
        lemma_u64_shl_is_mul_one(b);
        lemma_u64_shl_is_mul_one(w);
        lemma_pow2_unfold(w as nat);
        assert(1u64 << w >= 1) by (bit_vector)
            requires
                w < 64,
        ;
    }
    let sign_bit: u64 = 1u64 << (va_bits - 1);
    let mask: u64 = !((1u64 << va_bits) - 1);
    proof {
        let low: u64 = (sign_bit - 1) as u64;
        assert(sign_bit == 1u64 << b);
        assert(mask == !(((1u64 << w) - 1) as u64));
        assert(((addr & sign_bit) == 0 && (addr & mask) == 0) == (addr < sign_bit)) by (bit_vector)
            requires
                sign_bit == 1u64 << b,
                mask == !(((1u64 << w) - 1) as u64),
                w == b + 1,
                b < 63,
        ;
        assert(((addr & sign_bit) != 0 && (addr & mask) == mask) == (addr >= !low)) by (bit_vector)
            requires
                sign_bit == 1u64 << b,
                mask == !(((1u64 << w) - 1) as u64),
                w == b + 1,
                b < 63,
                low == sign_bit - 1,
        ;
        assert(!low == 0xffff_ffff_ffff_ffffu64 - low) by (bit_vector);
    }
    if (addr & sign_bit) == 0 {
        (addr & mask) == 0
    } else {
        (addr & mask) == mask
    }
}

/// One shifted left is a power of two.
proof fn lemma_u64_shl_is_mul_one(n: u64)
    requires
        n < 64,
    ensures
        1u64 << n == pow2(n as nat),
{
    lemma_pow2_64();
    vstd::bits::lemma_u64_pow2_no_overflow(n as nat);
    lemma_u64_shl_is_mul(1, n);
}

/// Tells whether a range of virtual addresses can be mapped.
pub fn valid_va_range(start: u64, byte_len: u64, va_bits: u32) -> (r: bool)
    ensures
        r == canonical_range(start as int, byte_len as int, va_bits as int),
{
    proof {
        lemma_pow2_64();
    }
    if byte_len == 0 {
        return false;
    }
    let end: u64 = match start.checked_add(byte_len - 1) {
        Some(end) => end,
        None => {
            return false;
        },
    };
    valid_va(start, va_bits) && valid_va(end, va_bits)
}

/// The multiple of `align` at or below `value`.
pub fn align_down(value: u64, align: u64) -> (r: u64)
    requires
        is_pow2(align as int),
    ensures
        r == aligned_down(value as int, align as int),
{
    proof {
        lemma_mask_u64(value, align);
    }
    value & !(align - 1)
}

/// The multiple of `align` at or above `value`, if it is a 64-bit number.
pub fn align_up<MapError>(value: u64, align: u64) -> (r: Result<u64, KernelLoadError<MapError>>)
    requires
        is_pow2(align as int),
    ensures
        match r {
            Ok(up) => up == aligned_up(value as int, align as int),
            Err(e) => e is InvalidSegmentRange && value + align - 1 > u64::MAX,
        },
{
    proof {
        lemma_mask_u64(value, align);
    }
    let mask: u64 = align - 1;
    match value.checked_add(mask) {
        Some(value) => {
            proof {
                lemma_mask_u64(value, align);
            }
            Ok(value & !mask)
        },
        None => Err(KernelLoadError::InvalidSegmentRange),
    }
}

/// Converts to a `usize`, if it can hold the value.
pub fn usize_from_u64<MapError>(value: u64) -> (r: Result<usize, KernelLoadError<MapError>>)
    ensures
        match r {
            Ok(v) => v == value,
            Err(e) => e is InvalidSegmentRange && value > usize::MAX,
        },
{
    if value > usize::MAX as u64 {
        return Err(KernelLoadError::InvalidSegmentRange);
    }
    Ok(value as usize)
}

// ---------------------------------------------------------------------------------------------
// Segments
// ---------------------------------------------------------------------------------------------
/// The permissions that segment flags give: bit 0 to execute, bit 1 to write, bit 2 to read.
pub open spec fn perms_of(flags: u32) -> SegmentPerms {
    SegmentPerms {
        execute: flags % 2 == 1,
        write: (flags / 2) % 2 == 1,
        read: (flags / 4) % 2 == 1,
    }
}

/// The permissions that segment flags give.
pub fn segment_perms(flags: u32) -> (r: SegmentPerms)
    ensures
        r == perms_of(flags),
{
    assert((flags & 0x1 != 0) == (flags % 2 == 1)) by (bit_vector);
    assert((flags & 0x2 != 0) == ((flags / 2) % 2 == 1)) by (bit_vector);
    assert((flags & 0x4 != 0) == ((flags / 4) % 2 == 1)) by (bit_vector);
    SegmentPerms {
        execute: (flags & 0x1) != 0,
        write: (flags & 0x2) != 0,
        read: (flags & 0x4) != 0,
    }
}

/// Whether two ranges overlap.
pub open spec fn ranges_overlap(a_start: int, a_len: int, b_start: int, b_len: int) -> bool {
    a_start < b_start + b_len && b_start < a_start + a_len
}

/// Whether a range cannot be added to these segments: it or one of them does not end within 64-bit
/// addresses, or it overlaps one of them.
pub open spec fn overlaps(segments: Seq<LoadedSegment>, virt_start: int, byte_len: int) -> bool {
    ||| virt_start + byte_len > u64::MAX
    ||| exists|k: int|
        0 <= k < segments.len() && {
            ||| (#[trigger] segments[k]).virt_start + segments[k].byte_len > u64::MAX
            ||| ranges_overlap(
                virt_start,
                byte_len,
                segments[k].virt_start as int,
                segments[k].byte_len as int,
            )
        }
}

/// Tells whether a range overlaps one of these segments.
pub fn mapped_range_overlaps(segments: &[LoadedSegment], virt_start: u64, byte_len: u64) -> (r: bool)
    ensures
        r == overlaps(segments@, virt_start as int, byte_len as int),
{
    let virt_end: u64 = match virt_start.checked_add(byte_len) {
        Some(end) => end,
        None => {
            return true;
        },
    };
    let mut i: usize = 0;
    while i < segments.len()
        invariant
            i <= segments@.len(),
            virt_end == virt_start + byte_len,
            forall|k: int|
                0 <= k < i ==> {
                    &&& (#[trigger] segments@[k]).virt_start + segments@[k].byte_len <= u64::MAX
                    &&& !ranges_overlap(
                        virt_start as int,
                        byte_len as int,
                        segments@[k].virt_start as int,
                        segments@[k].byte_len as int,
                    )
                },
        decreases segments@.len() - i,
    {
        let segment = &segments[i];
        assert(*segment == segments@[i as int]);
        let seg_end: u64 = match segment.virt_start.checked_add(segment.byte_len) {
            Some(end) => end,
            None => {
                return true;
            },
        };
        if virt_start < seg_end && segment.virt_start < virt_end {
            return true;
        }
        i += 1;
    }
    false
}

// ---------------------------------------------------------------------------------------------
// Validation
// ---------------------------------------------------------------------------------------------
/// Whether a program header is for a segment that is loaded.
pub open spec fn is_load(ph: ProgramHeader) -> bool {
    ph.p_type == PT_LOAD
}

/// What is wrong with one program header taken by itself.
pub open spec fn header_fault(ph: ProgramHeader) -> Option<KernelValidationError> {
    if !is_load(ph) {
        None
    } else if ph.p_memsz < ph.p_filesz {
        Some(KernelValidationError::InvalidLoadSegmentSize)
    } else if ph.p_align != 0 && !is_pow2(ph.p_align as int) {
        Some(KernelValidationError::InvalidLoadSegmentAlign)
    } else if ph.p_align != 0 && ph.p_vaddr % ph.p_align != ph.p_offset % ph.p_align {
        Some(KernelValidationError::LoadSegmentAddressMismatch)
    } else {
        None
    }
}

/// The fault of the first program header that has one.
pub open spec fn first_fault(headers: Seq<ProgramHeader>) -> Option<KernelValidationError>
    decreases headers.len(),
{
    if headers.len() == 0 {
        None
    } else if header_fault(headers[0]) is Some {
        header_fault(headers[0])
    } else {
        first_fault(headers.drop_first())
    }
}

/// Whether some program header is for a segment that is loaded.
pub open spec fn has_load(headers: Seq<ProgramHeader>) -> bool {
    exists|i: int| 0 <= i < headers.len() && is_load(#[trigger] headers[i])
}

/// Whether two loaded segments share an address.
pub open spec fn segments_clash(a: ProgramHeader, b: ProgramHeader) -> bool {
    is_load(a) && is_load(b) && ranges_overlap(
        a.p_vaddr as int,
        a.p_memsz as int,
        b.p_vaddr as int,
        b.p_memsz as int,
    )
}

/// Whether every loaded segment ends within 64-bit addresses and no two of them overlap.
pub open spec fn loads_disjoint(headers: Seq<ProgramHeader>) -> bool {
    &&& forall|i: int|
        0 <= i < headers.len() && is_load(#[trigger] headers[i]) ==> headers[i].p_vaddr
            + headers[i].p_memsz <= u64::MAX
    &&& forall|i: int, j: int|
        0 <= i < j < headers.len() ==> !#[trigger] segments_clash(headers[i], headers[j])
}

/// The outcome of validating a kernel: the checks in their order, each with its error.
pub open spec fn validation(kernel: ElfModel) -> Result<(), KernelValidationError> {
    let headers = kernel.program_headers;
    if kernel.e_machine != EM_AARCH64 {
        Err(KernelValidationError::NotAarch64)
    } else if !kernel.is_64 {
        Err(KernelValidationError::NotElf64)
    } else if !kernel.little_endian {
        Err(KernelValidationError::NotLittleEndian)
    } else if kernel.e_type != ET_EXEC && kernel.e_type != ET_DYN {
        Err(KernelValidationError::UnsupportedElfType)
    } else if kernel.entry == 0 {
        Err(KernelValidationError::MissingEntry)
    } else if kernel.has_interpreter {
        Err(KernelValidationError::InterpreterUnsupported)
    } else if kernel.has_dynamic {
        Err(KernelValidationError::DynamicKernelUnsupported)
    } else if first_fault(headers) is Some {
        Err(first_fault(headers)->0)
    } else if !has_load(headers) {
        Err(KernelValidationError::MissingLoadSegment)
    } else if !loads_disjoint(headers) {
        Err(KernelValidationError::LoadSegmentOverlap)
    } else {
        Ok(())
    }
}

/// Skipping headers without a fault changes nothing of `first_fault`.
proof fn lemma_first_fault_skip(headers: Seq<ProgramHeader>, n: int)
    requires
        0 <= n <= headers.len(),
        forall|i: int| 0 <= i < n ==> header_fault(#[trigger] headers[i]) is None,
    ensures
        first_fault(headers) == first_fault(headers.skip(n)),
    decreases n,
{
    if n == 0 {
        assert(headers.skip(0) =~= headers);
    } else {
        let rest = headers.drop_first();
        assert forall|i: int| 0 <= i < n - 1 implies header_fault(#[trigger] rest[i]) is None by {
            assert(rest[i] == headers[i + 1]);
        }
        lemma_first_fault_skip(rest, n - 1);
        assert(rest.skip(n - 1) =~= headers.skip(n));
        assert(header_fault(headers[0]) is None);
    }
}

/// Checks one program header by itself.
fn check_header(ph: &ProgramHeader) -> (r: Option<KernelValidationError>)
    ensures
        r == header_fault(*ph),
{
    if ph.p_type != PT_LOAD {
        return None;
    }
    if ph.p_memsz < ph.p_filesz {
        return Some(KernelValidationError::InvalidLoadSegmentSize);
    }
    if ph.p_align != 0 && !is_power_of_two(ph.p_align) {
        return Some(KernelValidationError::InvalidLoadSegmentAlign);
    }
    if ph.p_align != 0 && (ph.p_vaddr % ph.p_align) != (ph.p_offset % ph.p_align) {
        return Some(KernelValidationError::LoadSegmentAddressMismatch);
    }
    None
}

/// Tells whether the loaded segments are disjoint.
fn check_disjoint(headers: &[ProgramHeader]) -> (r: bool)
    ensures
        r == loads_disjoint(headers@),
{
    let mut i: usize = 0;
    while i < headers.len()
        invariant
            i <= headers@.len(),
            forall|k: int|
                0 <= k < i && is_load(#[trigger] headers@[k]) ==> headers@[k].p_vaddr
                    + headers@[k].p_memsz <= u64::MAX,
            forall|k: int, j: int|
                0 <= k < i && k < j < headers@.len() ==> !#[trigger] segments_clash(
                    headers@[k],
                    headers@[j],
                ),
        decreases headers@.len() - i,
    {
        let a = headers[i];
        if a.p_type != PT_LOAD {
            i += 1;
            continue;
        }
        let a_start: u64 = a.p_vaddr;
        let a_end: u64 = match a_start.checked_add(a.p_memsz) {
            Some(end) => end,
            None => {
                assert(is_load(headers@[i as int]));
                return false;
            },
        };
        let mut j: usize = i + 1;
        while j < headers.len()
            invariant
                i < j <= headers@.len(),
                a == headers@[i as int],
                is_load(a),
                a_start == a.p_vaddr,
                a_end == a.p_vaddr + a.p_memsz,
                forall|l: int|
                    i < l < j ==> !#[trigger] segments_clash(headers@[i as int], headers@[l]),
            decreases headers@.len() - j,
        {
            let b = headers[j];
            assert(b == headers@[j as int]);
            if b.p_type == PT_LOAD {
                let b_start: u64 = b.p_vaddr;
                let b_end: u64 = match b_start.checked_add(b.p_memsz) {
                    Some(end) => end,
                    None => {
                        assert(is_load(headers@[j as int]));
                        return false;
                    },
                };
                if a_start < b_end && b_start < a_end {
                    assert(segments_clash(headers@[i as int], headers@[j as int]));
                    return false;
                }
            }
            j += 1;
        }
        i += 1;
    }
    true
}

/// Checks that a file is a kernel that can be loaded.
pub fn validate_kernel(kernel: &KernelElf) -> (r: Result<(), KernelValidationError>)
    ensures
        r == validation(kernel@),
{
    if kernel.e_machine != EM_AARCH64 {
        return Err(KernelValidationError::NotAarch64);
    }
    if !kernel.is_64 {
        return Err(KernelValidationError::NotElf64);
    }
    if !kernel.little_endian {
        return Err(KernelValidationError::NotLittleEndian);
    }
    if kernel.e_type != ET_EXEC && kernel.e_type != ET_DYN {
        return Err(KernelValidationError::UnsupportedElfType);
    }
    if kernel.entry == 0 {
        return Err(KernelValidationError::MissingEntry);
    }
    if kernel.has_interpreter {
        return Err(KernelValidationError::InterpreterUnsupported);
    }
    if kernel.has_dynamic {
        return Err(KernelValidationError::DynamicKernelUnsupported);
    }
    let headers = &kernel.program_headers;
    let mut found: bool = false;
    let mut i: usize = 0;
    while i < headers.len()
        invariant
            i <= headers@.len(),
            forall|k: int| 0 <= k < i ==> header_fault(#[trigger] headers@[k]) is None,
            found == exists|k: int| 0 <= k < i && is_load(#[trigger] headers@[k]),
            validation(kernel@) == Err::<(), KernelValidationError>(
                first_fault(headers@)->0,
            ) || first_fault(headers@) is None,
        decreases headers@.len() - i,
    {
        let ph = &headers[i];
        assert(*ph == headers@[i as int]);
        if let Some(fault) = check_header(ph) {
            proof {
                lemma_first_fault_skip(headers@, i as int);
                assert(headers@.skip(i as int)[0] == *ph);
            }
            return Err(fault);
        }
        if ph.p_type == PT_LOAD {
            found = true;
        }
        i += 1;
    }
    proof {
        lemma_first_fault_skip(headers@, headers@.len() as int);
    }
    if !found {
        return Err(KernelValidationError::MissingLoadSegment);
    }
    if !check_disjoint(headers.as_slice()) {
        return Err(KernelValidationError::LoadSegmentOverlap);
    }
    Ok(())
}

// ---------------------------------------------------------------------------------------------
// Loading
// ---------------------------------------------------------------------------------------------
/// What has to be done for one segment.
#[derive(Clone, Copy, Debug, Eq, PartialEq)]
pub struct SegmentPlan {
    /// The first page of the segment.
    pub virt_page: u64,
    /// Where in its first page the segment starts.
    pub page_offset: u64,
    /// The length of the pages that hold the segment.
    pub mapped_size: u64,
    /// The number of these pages.
    pub page_count: usize,
    /// Where in the file the contents start.
    pub file_start: usize,
    /// Where in the file the contents end.
    pub file_end: usize,
    pub perms: SegmentPerms,
}

/// The first page of a segment.
pub open spec fn page_of(ph: ProgramHeader) -> int {
    aligned_down(ph.p_vaddr as int, PAGE_SIZE as int)
}

/// The length of the pages that hold a segment.
pub open spec fn mapped_len(ph: ProgramHeader) -> int {
    aligned_up(ph.p_vaddr - page_of(ph) + ph.p_memsz, PAGE_SIZE as int)
}

/// What has to be done for a segment, next to the segments that are in memory already.
pub open spec fn plan_of(
    ph: ProgramHeader,
    file_len: int,
    va_bits: int,
    segments: Seq<LoadedSegment>,
) -> Result<SegmentPlan, KernelLoadError<MapperError>> {
    if ph.p_memsz == 0 || ph.p_memsz < ph.p_filesz {
        Err(KernelLoadError::InvalidSegmentSize)
    } else if ph.p_offset + ph.p_filesz > file_len {
        Err(KernelLoadError::InvalidSegmentOffset)
    } else if mapped_len(ph) > u64::MAX {
        Err(KernelLoadError::InvalidSegmentRange)
    } else if !canonical_range(page_of(ph), mapped_len(ph), va_bits) {
        Err(KernelLoadError::InvalidVirtualRange)
    } else if overlaps(segments, page_of(ph), mapped_len(ph)) {
        Err(KernelLoadError::MappedSegmentOverlap)
    } else if mapped_len(ph) / PAGE_SIZE as int > usize::MAX {
        Err(KernelLoadError::InvalidSegmentRange)
    } else {
        Ok(
            SegmentPlan {
                virt_page: page_of(ph) as u64,
                page_offset: (ph.p_vaddr - page_of(ph)) as u64,
                mapped_size: mapped_len(ph) as u64,
                page_count: (mapped_len(ph) / PAGE_SIZE as int) as usize,
                file_start: ph.p_offset as usize,
                file_end: (ph.p_offset + ph.p_filesz) as usize,
                perms: perms_of(ph.p_flags),
            },
        )
    }
}

/// Works out what has to be done for a segment.
pub fn plan_segment(
    ph: &ProgramHeader,
    file_len: usize,
    va_bits: u32,
    segments: &[LoadedSegment],
) -> (r: Result<SegmentPlan, KernelLoadError<MapperError>>)
    ensures
        r == plan_of(*ph, file_len as int, va_bits as int, segments@),
{
    proof {
        lemma_page_size();
    }
    if ph.p_memsz == 0 || ph.p_memsz < ph.p_filesz {
        return Err(KernelLoadError::InvalidSegmentSize);
    }
    let file_end: u64 = match ph.p_offset.checked_add(ph.p_filesz) {
        Some(end) => end,
        None => {
            return Err(KernelLoadError::InvalidSegmentOffset);
        },
    };
    if file_end > file_len as u64 {
        return Err(KernelLoadError::InvalidSegmentOffset);
    }
    let virt_page: u64 = align_down(ph.p_vaddr, PAGE_SIZE);
    proof {
        lemma_aligned(ph.p_vaddr as int, PAGE_SIZE as int);
        lemma_aligned(ph.p_vaddr - page_of(*ph) + ph.p_memsz, PAGE_SIZE as int);
    }
    let page_offset: u64 = ph.p_vaddr - virt_page;
    let used: u64 = match page_offset.checked_add(ph.p_memsz) {
        Some(used) => used,
        None => {
            return Err(KernelLoadError::InvalidSegmentRange);
        },
    };
    let mapped_size: u64 = match align_up::<MapperError>(used, PAGE_SIZE) {
        Ok(size) => size,
        Err(_) => {
            assert(mapped_len(*ph) > u64::MAX) by {
                assert(mapped_len(*ph) % 4096 == 0);
            }
            return Err(KernelLoadError::InvalidSegmentRange);
        },
    };
    if !valid_va_range(virt_page, mapped_size, va_bits) {
        return Err(KernelLoadError::InvalidVirtualRange);
    }
    if mapped_range_overlaps(segments, virt_page, mapped_size) {
        return Err(KernelLoadError::MappedSegmentOverlap);
    }
    let page_count: usize = match usize_from_u64::<MapperError>(mapped_size / PAGE_SIZE) {
        Ok(count) => count,
        Err(_) => {
            return Err(KernelLoadError::InvalidSegmentRange);
        },
    };
    Ok(
        SegmentPlan {
            virt_page,
            page_offset,
            mapped_size,
            page_count,
            file_start: ph.p_offset as usize,
            file_end: file_end as usize,
            perms: segment_perms(ph.p_flags),
        },
    )
}

/// The contents of the pages of a segment: the bytes of the file at their place, zeros elsewhere.
pub open spec fn segment_image(plan: SegmentPlan, file: Seq<u8>) -> Seq<u8> {
    Seq::new(
        plan.mapped_size as nat,
        |i: int|
            if plan.page_offset <= i < plan.page_offset + (plan.file_end - plan.file_start) {
                file[plan.file_start + i - plan.page_offset]
            } else {
                0u8
            },
    )
}

/// The program headers of the segments that are loaded.
pub open spec fn loads(headers: Seq<ProgramHeader>) -> Seq<ProgramHeader> {
    headers.filter(|ph: ProgramHeader| is_load(ph))
}

/// Whether `segment` is the segment of `ph` in memory.
pub open spec fn is_segment_of(segment: LoadedSegment, ph: ProgramHeader) -> bool {
    &&& segment.virt_start == page_of(ph)
    &&& segment.byte_len == mapped_len(ph)
    &&& segment.perms == perms_of(ph.p_flags)
}

/// Whether the segment of `ph` lies within the file, holds its contents and has canonical
/// addresses.
pub open spec fn is_loadable(ph: ProgramHeader, file_len: int, va_bits: int) -> bool {
    &&& 0 < ph.p_memsz
    &&& ph.p_filesz <= ph.p_memsz
    &&& ph.p_offset + ph.p_filesz <= file_len
    &&& page_of(ph) + mapped_len(ph) <= u64::MAX
    &&& canonical_range(page_of(ph), mapped_len(ph), va_bits)
}

/// Whether no two of these segments overlap.
pub open spec fn segments_disjoint(segments: Seq<LoadedSegment>) -> bool {
    forall|i: int, j: int|
        0 <= i < j < segments.len() ==> !ranges_overlap(
            (#[trigger] segments[i]).virt_start as int,
            segments[i].byte_len as int,
            (#[trigger] segments[j]).virt_start as int,
            segments[j].byte_len as int,
        )
}

/// The lowest address of these segments; the highest number where there is none.
pub open spec fn lowest(segments: Seq<LoadedSegment>) -> int
    decreases segments.len(),
{
    if segments.len() == 0 {
        u64::MAX as int
    } else {
        let before = lowest(segments.drop_last());
        let start = segments.last().virt_start as int;
        if start < before {
            start
        } else {
            before
        }
    }
}

/// The end of the highest of these segments; zero where there is none.
pub open spec fn highest(segments: Seq<LoadedSegment>) -> int
    decreases segments.len(),
{
    if segments.len() == 0 {
        0
    } else {
        let before = highest(segments.drop_last());
        let end = segments.last().virt_start + segments.last().byte_len;
        if end > before {
            end
        } else {
            before
        }
    }
}

/// How far a kernel has been loaded: the segments of the program headers before `next` are in
/// memory.
pub struct LoadModel {
    pub kernel: ElfModel,
    pub file: Seq<u8>,
    pub va_bits: int,
    pub next: int,
    pub segments: Seq<LoadedSegment>,
}

impl LoadModel {
    /// The segments in memory are those of the program headers before `next`, in their order, each
    /// with the addresses that its header asks for, and no two of them overlap.
    pub open spec fn inv(self) -> bool {
        let done = loads(self.kernel.program_headers.take(self.next));
        &&& 0 <= self.next <= self.kernel.program_headers.len()
        &&& self.segments.len() == done.len()
        &&& forall|k: int|
            #![trigger self.segments[k]]
            0 <= k < done.len() ==> is_segment_of(self.segments[k], done[k]) && is_loadable(
                done[k],
                self.file.len() as int,
                self.va_bits,
            )
        &&& segments_disjoint(self.segments)
    }
}

/// A `LoadedKernel` as a mathematical value.
pub struct LoadedModel {
    pub virt_entry: u64,
    pub virt_base: u64,
    pub virt_size: u64,
    pub segments: Seq<LoadedSegment>,
}

impl View for LoadedKernel {
    type V = LoadedModel;

    open spec fn view(&self) -> LoadedModel {
        LoadedModel {
            virt_entry: self.virt_entry,
            virt_base: self.virt_base,
            virt_size: self.virt_size,
            segments: self.segments@,
        }
    }
}

/// What comes next in loading a kernel.
pub enum StepModel {
    /// Pages for the segment of program header `state.next`.
    Allocate { state: LoadModel, plan: SegmentPlan },
    /// Nothing: all segments are in memory.
    Done(LoadedModel),
}

/// The position of the first program header from `from` on whose segment is loaded; the number of
/// headers where there is none.
pub open spec fn next_load(headers: Seq<ProgramHeader>, from: int) -> int
    decreases headers.len() - from,
{
    if from < 0 || from >= headers.len() || is_load(headers[from]) {
        from
    } else {
        next_load(headers, from + 1)
    }
}

/// What comes next in loading a kernel: the next segment, or, after the last one, the loaded
/// kernel, which must have a segment and a canonical entry point.
pub open spec fn advanced(state: LoadModel) -> Result<StepModel, KernelLoadError<MapperError>> {
    let headers = state.kernel.program_headers;
    let i = next_load(headers, state.next);
    if i < headers.len() {
        match plan_of(headers[i], state.file.len() as int, state.va_bits, state.segments) {
            Ok(plan) => Ok(
                StepModel::Allocate { state: LoadModel { next: i, ..state }, plan },
            ),
            Err(e) => Err(e),
        }
    } else if state.segments.len() == 0 {
        Err(KernelLoadError::MissingLoadSegment)
    } else if !canonical(state.kernel.entry as int, state.va_bits) {
        Err(KernelLoadError::InvalidVirtualRange)
    } else {
        Ok(
            StepModel::Done(
                LoadedModel {
                    virt_entry: state.kernel.entry,
                    virt_base: lowest(state.segments) as u64,
                    virt_size: (highest(state.segments) - lowest(state.segments)) as u64,
                    segments: state.segments,
                },
            ),
        )
    }
}

/// Whether `plan` is what has to be done next: it is for the segment of program header
/// `state.next`.
pub open spec fn is_planned(state: LoadModel, plan: SegmentPlan) -> bool {
    let headers = state.kernel.program_headers;
    &&& state.next < headers.len()
    &&& is_load(headers[state.next])
    &&& plan_of(headers[state.next], state.file.len() as int, state.va_bits, state.segments) == Ok::<
        SegmentPlan,
        KernelLoadError<MapperError>,
    >(plan)
}

/// Whether a segment can be put at a physical address: its contents have an address there, and the
/// length of its pages is one that memory can have.
pub open spec fn can_be_placed(plan: SegmentPlan, phys_page: u64) -> bool {
    phys_page + plan.page_offset <= u64::MAX && plan.mapped_size <= usize::MAX
}

/// The state before the first segment.
pub open spec fn load_start(kernel: ElfModel, file: Seq<u8>, va_bits: int) -> LoadModel {
    LoadModel { kernel, file, va_bits, next: 0, segments: Seq::empty() }
}

/// The state after the segment of program header `state.next` has been put at `phys_page`.
pub open spec fn load_more(state: LoadModel, plan: SegmentPlan, phys_page: u64) -> LoadModel {
    LoadModel {
        next: state.next + 1,
        segments: state.segments.push(
            LoadedSegment {
                virt_start: plan.virt_page,
                phys_start: phys_page,
                byte_len: plan.mapped_size,
                perms: plan.perms,
            },
        ),
        ..state
    }
}

/// Whether a loaded kernel is what its file asks for: one segment for each program header that is
/// loaded, in their order, with the addresses and permissions of its header, no two of them
/// overlapping, and bounds that fit tightly around all of them.
pub open spec fn faithful(
    kernel: ElfModel,
    file_len: int,
    va_bits: int,
    loaded: LoadedModel,
) -> bool {
    let wanted = loads(kernel.program_headers);
    let segments = loaded.segments;
    &&& loaded.virt_entry == kernel.entry
    &&& canonical(kernel.entry as int, va_bits)
    &&& segments.len() == wanted.len()
    &&& segments.len() > 0
    &&& forall|k: int|
        #![trigger segments[k]]
        0 <= k < segments.len() ==> {
            &&& is_segment_of(segments[k], wanted[k])
            &&& is_loadable(wanted[k], file_len, va_bits)
            &&& loaded.virt_base <= segments[k].virt_start
            &&& segments[k].virt_start + segments[k].byte_len <= loaded.virt_base
                + loaded.virt_size
        }
    &&& segments_disjoint(segments)
    &&& exists|k: int| 0 <= k < segments.len() && (#[trigger] segments[k]).virt_start == loaded.virt_base
    &&& exists|k: int|
        0 <= k < segments.len() && (#[trigger] segments[k]).virt_start + segments[k].byte_len
            == loaded.virt_base + loaded.virt_size
}

/// One more program header adds its segment, if it is loaded.
proof fn lemma_loads_take(headers: Seq<ProgramHeader>, n: int)
    requires
        0 <= n < headers.len(),
    ensures
        is_load(headers[n]) ==> loads(headers.take(n + 1)) == loads(headers.take(n)).push(headers[n]),
        !is_load(headers[n]) ==> loads(headers.take(n + 1)) == loads(headers.take(n)),
{
    reveal(Seq::filter);
    let longer = headers.take(n + 1);
    assert(longer.drop_last() =~= headers.take(n));
    assert(longer.last() == headers[n]);
}

/// What `next_load` finds, and that nothing is loaded before it.
proof fn lemma_next_load(headers: Seq<ProgramHeader>, from: int)
    requires
        0 <= from <= headers.len(),
    ensures
        from <= next_load(headers, from) <= headers.len(),
        next_load(headers, from) < headers.len() ==> is_load(headers[next_load(headers, from)]),
        loads(headers.take(next_load(headers, from))) == loads(headers.take(from)),
    decreases headers.len() - from,
{
    if from < headers.len() && !is_load(headers[from]) {
        lemma_next_load(headers, from + 1);
        lemma_loads_take(headers, from);
    }
}

/// A planned segment is loadable, and its contents fit into its pages.
proof fn lemma_plan(
    ph: ProgramHeader,
    file_len: int,
    va_bits: int,
    segments: Seq<LoadedSegment>,
    plan: SegmentPlan,
)
    requires
        plan_of(ph, file_len, va_bits, segments) == Ok::<SegmentPlan, KernelLoadError<MapperError>>(
            plan,
        ),
        file_len <= usize::MAX,
    ensures
        is_loadable(ph, file_len, va_bits),
        plan.virt_page == page_of(ph),
        plan.mapped_size == mapped_len(ph),
        plan.page_offset == ph.p_vaddr - page_of(ph),
        plan.page_offset < PAGE_SIZE,
        plan.page_count * PAGE_SIZE == plan.mapped_size,
        plan.virt_page % PAGE_SIZE == 0,
        plan.virt_page + plan.mapped_size <= u64::MAX,
        plan.file_start == ph.p_offset,
        plan.file_end == ph.p_offset + ph.p_filesz,
        plan.file_end <= file_len,
        plan.page_offset + ph.p_memsz <= plan.mapped_size,
        plan.perms == perms_of(ph.p_flags),
{
    lemma_aligned(ph.p_vaddr as int, PAGE_SIZE as int);
    lemma_aligned(ph.p_vaddr - page_of(ph) + ph.p_memsz, PAGE_SIZE as int);
}

/// Loading starts in a valid state, and looking for the next segment keeps it valid.
pub proof fn law_loading_starts_valid(
    kernel: ElfModel,
    file: Seq<u8>,
    va_bits: int,
    state: LoadModel,
)
    requires
        state.inv(),
    ensures
        load_start(kernel, file, va_bits).inv(),
        advanced(state) matches Ok(StepModel::Allocate { state: next, plan: _ }) ==> next.inv(),
{
    reveal(Seq::filter);
    assert(kernel.program_headers.take(0) =~= Seq::<ProgramHeader>::empty());
    lemma_next_load(state.kernel.program_headers, state.next);
}

/// Putting the planned segment into memory keeps the state valid.
pub proof fn law_loading_keeps_the_state_valid(state: LoadModel, plan: SegmentPlan, phys_page: u64)
    requires
        state.inv(),
        state.file.len() <= usize::MAX,
        is_planned(state, plan),
    ensures
        load_more(state, plan, phys_page).inv(),
{
    let headers = state.kernel.program_headers;
    let ph = headers[state.next];
    lemma_plan(ph, state.file.len() as int, state.va_bits, state.segments, plan);
    lemma_loads_take(headers, state.next);
    let more = load_more(state, plan, phys_page);
    assert forall|i: int, j: int| 0 <= i < j < more.segments.len() implies !ranges_overlap(
        (#[trigger] more.segments[i]).virt_start as int,
        more.segments[i].byte_len as int,
        (#[trigger] more.segments[j]).virt_start as int,
        more.segments[j].byte_len as int,
    ) by {
        assert(more.segments[i] == state.segments[i]);
        if j < state.segments.len() {
            assert(more.segments[j] == state.segments[j]);
        }
    }
}

/// `lowest` and `highest` are bounds, and some segment meets each of them.
proof fn lemma_bounds(segments: Seq<LoadedSegment>)
    requires
        forall|k: int|
            0 <= k < segments.len() ==> (#[trigger] segments[k]).virt_start + segments[k].byte_len
                <= u64::MAX,
    ensures
        0 <= lowest(segments) <= u64::MAX,
        0 <= highest(segments) <= u64::MAX,
        forall|k: int|
            0 <= k < segments.len() ==> lowest(segments) <= (#[trigger] segments[k]).virt_start
                && segments[k].virt_start + segments[k].byte_len <= highest(segments),
        segments.len() > 0 ==> lowest(segments) <= highest(segments),
        segments.len() > 0 ==> exists|k: int|
            0 <= k < segments.len() && (#[trigger] segments[k]).virt_start == lowest(segments),
        segments.len() > 0 ==> exists|k: int|
            0 <= k < segments.len() && (#[trigger] segments[k]).virt_start + segments[k].byte_len
                == highest(segments),
    decreases segments.len(),
{
    if segments.len() > 0 {
        let init = segments.drop_last();
        let n = init.len() as int;
        assert forall|k: int| 0 <= k < init.len() implies (#[trigger] init[k]).virt_start
            + init[k].byte_len <= u64::MAX by {
            assert(init[k] == segments[k]);
        }
        lemma_bounds(init);
        assert forall|k: int| 0 <= k < segments.len() implies lowest(segments) <= (
        #[trigger] segments[k]).virt_start && segments[k].virt_start + segments[k].byte_len
            <= highest(segments) by {
            if k < n {
                assert(init[k] == segments[k]);
            }
        }
        assert(segments[n] == segments.last());
        if init.len() > 0 {
            let low = choose|k: int|
                0 <= k < init.len() && (#[trigger] init[k]).virt_start == lowest(init);
            assert(segments[low] == init[low]);
            let high = choose|k: int|
                0 <= k < init.len() && (#[trigger] init[k]).virt_start + init[k].byte_len == highest(
                    init,
                );
            assert(segments[high] == init[high]);
        }
    }
}

/// Every segment in memory ends within 64-bit addresses.
proof fn lemma_ends(state: LoadModel)
    requires
        state.inv(),
    ensures
        forall|k: int|
            0 <= k < state.segments.len() ==> (#[trigger] state.segments[k]).virt_start
                + state.segments[k].byte_len <= u64::MAX,
{
}

/// A kernel whose loading is done is what its file asks for.
pub proof fn law_loaded_kernel_is_faithful(state: LoadModel, loaded: LoadedModel)
    requires
        state.inv(),
        advanced(state) == Ok::<StepModel, KernelLoadError<MapperError>>(StepModel::Done(loaded)),
    ensures
        faithful(state.kernel, state.file.len() as int, state.va_bits, loaded),
{
    let headers = state.kernel.program_headers;
    let wanted = loads(headers);
    let segments = state.segments;
    lemma_next_load(headers, state.next);
    assert(headers.take(headers.len() as int) =~= headers);
    assert(loads(headers.take(state.next)) == wanted);
    lemma_ends(state);
    lemma_bounds(segments);
    assert(loaded.segments == segments);
    assert(loaded.virt_base == lowest(segments));
    assert(loaded.virt_base + loaded.virt_size == highest(segments));
    assert forall|k: int| #![trigger loaded.segments[k]] 0 <= k < loaded.segments.len() implies {
        &&& is_segment_of(loaded.segments[k], wanted[k])
        &&& is_loadable(wanted[k], state.file.len() as int, state.va_bits)
        &&& loaded.virt_base <= loaded.segments[k].virt_start
        &&& loaded.segments[k].virt_start + loaded.segments[k].byte_len <= loaded.virt_base
            + loaded.virt_size
    } by {
        assert(is_segment_of(segments[k], wanted[k]));
    }
    let low = choose|k: int|
        0 <= k < segments.len() && (#[trigger] segments[k]).virt_start == lowest(segments);
    assert(loaded.segments[low].virt_start == loaded.virt_base);
    let high = choose|k: int|
        0 <= k < segments.len() && (#[trigger] segments[k]).virt_start + segments[k].byte_len
            == highest(segments);
    assert(loaded.segments[high].virt_start + loaded.segments[high].byte_len == loaded.virt_base
        + loaded.virt_size);
}

/// Of a kernel that passed validation, loading always finds a segment, and it refuses the size of a
/// segment only where the segment is empty.
pub proof fn law_validated_kernel_has_segments(
    kernel: ElfModel,
    file: Seq<u8>,
    va_bits: int,
    i: int,
    segments: Seq<LoadedSegment>,
)
    requires
        validation(kernel) is Ok,
        0 <= i < kernel.program_headers.len(),
        is_load(kernel.program_headers[i]),
    ensures
        advanced(load_start(kernel, file, va_bits)) != Err::<
            StepModel,
            KernelLoadError<MapperError>,
        >(KernelLoadError::MissingLoadSegment),
        plan_of(kernel.program_headers[i], file.len() as int, va_bits, segments) == Err::<
            SegmentPlan,
            KernelLoadError<MapperError>,
        >(KernelLoadError::InvalidSegmentSize) ==> kernel.program_headers[i].p_memsz == 0,
{
    let headers = kernel.program_headers;
    lemma_no_fault(headers, i);
    lemma_load_found(headers, 0, i);
}

/// Where no header has a fault, this one has none.
proof fn lemma_no_fault(headers: Seq<ProgramHeader>, i: int)
    requires
        first_fault(headers) is None,
        0 <= i < headers.len(),
    ensures
        header_fault(headers[i]) is None,
    decreases headers.len(),
{
    if i > 0 {
        assert(headers.drop_first()[i - 1] == headers[i]);
        lemma_no_fault(headers.drop_first(), i - 1);
    }
}

/// Where there is a segment to load, `next_load` finds one.
proof fn lemma_load_found(headers: Seq<ProgramHeader>, from: int, i: int)
    requires
        0 <= from <= i < headers.len(),
        is_load(headers[i]),
    ensures
        next_load(headers, from) <= i,
    decreases i - from,
{
    if !is_load(headers[from]) {
        lemma_load_found(headers, from + 1, i);
    }
}

/// The pages of a segment are whole pages that hold every address the segment asks for, and no page
/// more than that takes.
pub proof fn law_segment_covers_its_header(ph: ProgramHeader, segment: LoadedSegment)
    requires
        ph.p_memsz > 0,
        is_segment_of(segment, ph),
    ensures
        segment.virt_start % PAGE_SIZE == 0,
        segment.byte_len % PAGE_SIZE == 0,
        segment.virt_start <= ph.p_vaddr < segment.virt_start + PAGE_SIZE,
        ph.p_vaddr + ph.p_memsz <= segment.virt_start + segment.byte_len,
        segment.virt_start + segment.byte_len < ph.p_vaddr + ph.p_memsz + PAGE_SIZE,
{
    lemma_aligned(ph.p_vaddr as int, PAGE_SIZE as int);
    lemma_aligned(ph.p_vaddr - page_of(ph) + ph.p_memsz, PAGE_SIZE as int);
}

/// In the pages of a segment, each byte of the file is at the address that the program header gives
/// it, and the rest of the segment is zero.
pub proof fn law_segment_image_places_the_file(
    ph: ProgramHeader,
    file: Seq<u8>,
    va_bits: int,
    segments: Seq<LoadedSegment>,
    plan: SegmentPlan,
)
    requires
        file.len() <= usize::MAX,
        plan_of(ph, file.len() as int, va_bits, segments) == Ok::<
            SegmentPlan,
            KernelLoadError<MapperError>,
        >(plan),
    ensures
        segment_image(plan, file).len() == plan.mapped_size,
        forall|i: int|
            0 <= i < ph.p_filesz ==> #[trigger] segment_image(plan, file)[ph.p_vaddr + i
                - plan.virt_page] == file[ph.p_offset + i],
        forall|i: int|
            ph.p_filesz <= i < ph.p_memsz ==> #[trigger] segment_image(plan, file)[ph.p_vaddr + i
                - plan.virt_page] == 0,
{
    lemma_plan(ph, file.len() as int, va_bits, segments, plan);
}

/// A kernel that is being loaded.
struct LoadState<'a> {
    kernel: &'a KernelElf,
    file: &'a [u8],
    va_bits: u32,
    next: usize,
    segments: Vec<LoadedSegment>,
    virt_base: u64,
    virt_end: u64,
}

impl<'a> LoadState<'a> {
    spec fn model(self) -> LoadModel {
        LoadModel {
            kernel: self.kernel@,
            file: self.file@,
            va_bits: self.va_bits as int,
            next: self.next as int,
            segments: self.segments@,
        }
    }

    spec fn wf(self) -> bool {
        &&& self.model().inv()
        &&& self.file@.len() <= usize::MAX
        &&& self.kernel.program_headers@.len() <= usize::MAX
        &&& self.virt_base == lowest(self.segments@)
        &&& self.virt_end == highest(self.segments@)
    }

    /// Goes on to the next segment.
    fn advance(self) -> (r: Result<LoadStep<'a>, KernelLoadError<MapperError>>)
        requires
            self.wf(),
        ensures
            match r {
                Ok(step) => advanced(self.model()) == Ok::<
                    StepModel,
                    KernelLoadError<MapperError>,
                >(step@),
                Err(e) => advanced(self.model()) == Err::<StepModel, KernelLoadError<MapperError>>(
                    e,
                ),
            },
    {
        let mut state = self;
        let ghost headers = self.kernel.program_headers@;
        let ghost target = next_load(headers, self.next as int);
        proof {
            lemma_next_load(headers, self.next as int);
        }
        while state.next < state.kernel.program_headers.len() && state.kernel.program_headers[state.next].p_type
            != PT_LOAD
            invariant
                state == (LoadState { next: state.next, ..self }),
                headers == self.kernel.program_headers@,
                0 <= state.next <= headers.len(),
                next_load(headers, state.next as int) == target,
                target == next_load(headers, self.next as int),
            decreases headers.len() - state.next,
        {
            state.next += 1;
        }
        assert(state.next == target);
        assert(state.model() == LoadModel { next: target, ..self.model() });
        if state.next < state.kernel.program_headers.len() {
            let ph = state.kernel.program_headers[state.next];
            match plan_segment(
                &ph,
                state.file.len(),
                state.va_bits,
                state.segments.as_slice(),
            ) {
                Ok(plan) => Ok(LoadStep::Allocate(PagesWanted { state, plan })),
                Err(e) => Err(e),
            }
        } else if state.segments.len() == 0 {
            Err(KernelLoadError::MissingLoadSegment)
        } else if !valid_va(state.kernel.entry, state.va_bits) {
            Err(KernelLoadError::InvalidVirtualRange)
        } else {
            proof {
                lemma_ends(self.model());
                lemma_bounds(self.segments@);
            }
            Ok(
                LoadStep::Done(
                    LoadedKernel {
                        virt_entry: state.kernel.entry,
                        virt_base: state.virt_base,
                        virt_size: state.virt_end - state.virt_base,
                        segments: state.segments,
                    },
                ),
            )
        }
    }
}

/// Pages have to be allocated for the next segment.
pub struct PagesWanted<'a> {
    state: LoadState<'a>,
    plan: SegmentPlan,
}

/// The pages of a segment are there, and have to be filled.
pub struct SegmentPlaced<'a> {
    state: LoadState<'a>,
    plan: SegmentPlan,
    phys_page: u64,
}

/// The pages of a segment hold its contents, and have to be mapped.
pub struct SegmentFilled<'a> {
    state: LoadState<'a>,
    plan: SegmentPlan,
    phys_page: u64,
}

/// What comes next in loading a kernel.
pub enum LoadStep<'a> {
    Allocate(PagesWanted<'a>),
    Done(LoadedKernel),
}

impl<'a> View for LoadStep<'a> {
    type V = StepModel;

    open spec fn view(&self) -> StepModel {
        match *self {
            LoadStep::Allocate(wanted) => StepModel::Allocate {
                state: wanted.state(),
                plan: wanted.plan(),
            },
            LoadStep::Done(loaded) => StepModel::Done(loaded@),
        }
    }
}

impl<'a> PagesWanted<'a> {
    /// How far the kernel has been loaded.
    pub closed spec fn state(self) -> LoadModel {
        self.state.model()
    }

    /// What has to be done for the segment.
    pub closed spec fn plan(self) -> SegmentPlan {
        self.plan
    }

    #[verifier::type_invariant]
    spec fn wf(self) -> bool {
        &&& self.state.wf()
        &&& is_planned(self.state.model(), self.plan)
    }

    /// What has to be done for the segment.
    pub fn segment_plan(&self) -> (r: SegmentPlan)
        ensures
            r == self.plan(),
    {
        self.plan
    }

    /// The number of pages to allocate.
    pub fn page_count(&self) -> (r: usize)
        ensures
            r == self.plan().page_count,
            r * PAGE_SIZE == self.plan().mapped_size,
    {
        proof {
            use_type_invariant(self);
            let model = self.state.model();
            lemma_plan(
                model.kernel.program_headers[model.next],
                model.file.len() as int,
                model.va_bits,
                model.segments,
                self.plan,
            );
        }
        self.plan.page_count
    }

    /// The pages could not be allocated, which ends the loading.
    pub fn refused(self, status: Status) -> (r: KernelLoadError<MapperError>)
        ensures
            r == KernelLoadError::<MapperError>::PhysicalAllocationFailed(status),
    {
        KernelLoadError::PhysicalAllocationFailed(status)
    }

    /// The pages have been allocated at `phys_page`. The contents of the segment must lie within
    /// 64-bit addresses there, and the length of the pages must be one that memory can have.
    pub fn place(self, phys_page: u64) -> (r: Result<
        SegmentPlaced<'a>,
        KernelLoadError<MapperError>,
    >)
        ensures
            r is Ok <==> can_be_placed(self.plan(), phys_page),
            match r {
                Ok(placed) => {
                    &&& placed.state() == self.state()
                    &&& placed.plan() == self.plan()
                    &&& placed.phys_page() == phys_page
                    &&& phys_page + self.plan().page_offset <= u64::MAX
                    &&& self.plan().mapped_size <= usize::MAX
                },
                Err(e) => {
                    &&& e is InvalidSegmentRange
                    &&& (phys_page + self.plan().page_offset > u64::MAX || self.plan().mapped_size
                        > usize::MAX)
                },
            },
    {
        proof {
            use_type_invariant(&self);
        }
        if phys_page.checked_add(self.plan.page_offset).is_none() {
            return Err(KernelLoadError::InvalidSegmentRange);
        }
        if let Err(e) = usize_from_u64::<MapperError>(self.plan.mapped_size) {
            return Err(e);
        }
        Ok(SegmentPlaced { state: self.state, plan: self.plan, phys_page })
    }
}

impl<'a> SegmentPlaced<'a> {
    /// How far the kernel had been loaded before this segment.
    pub closed spec fn state(self) -> LoadModel {
        self.state.model()
    }

    /// What has to be done for the segment.
    pub closed spec fn plan(self) -> SegmentPlan {
        self.plan
    }

    /// Where its pages are.
    pub closed spec fn phys_page(self) -> u64 {
        self.phys_page
    }

    #[verifier::type_invariant]
    spec fn wf(self) -> bool {
        &&& self.state.wf()
        &&& is_planned(self.state.model(), self.plan)
        &&& self.phys_page + self.plan.page_offset <= u64::MAX
        &&& self.plan.mapped_size <= usize::MAX
    }

    /// The length of the pages in bytes.
    pub fn byte_len(&self) -> (r: usize)
        ensures
            r == self.plan().mapped_size,
    {
        proof {
            use_type_invariant(self);
        }
        self.plan.mapped_size as usize
    }

    /// Fills the pages: the contents from the file at their place, zeros elsewhere.
    pub fn fill(self, pages: &mut [u8]) -> (r: SegmentFilled<'a>)
        requires
            old(pages)@.len() == self.plan().mapped_size,
        ensures
            final(pages)@ == segment_image(self.plan(), self.state().file),
            r.state() == self.state(),
            r.plan() == self.plan(),
            r.phys_page() == self.phys_page(),
    {
        let plan = self.plan;
        let file = self.file_bytes();
        proof {
            use_type_invariant(&self);
            let model = self.state.model();
            let ph = model.kernel.program_headers[model.next];
            lemma_plan(ph, model.file.len() as int, model.va_bits, model.segments, plan);
        }
        let offset: usize = plan.page_offset as usize;
        let file_len: usize = plan.file_end - plan.file_start;
        let n: usize = pages.len();
        let ghost image = segment_image(plan, file@);
        let mut i: usize = 0;
        while i < n
            invariant
                n == pages@.len(),
                i <= n,
                n == plan.mapped_size,
                offset == plan.page_offset,
                plan.file_start <= plan.file_end <= file@.len(),
                file_len == plan.file_end - plan.file_start,
                offset + file_len <= n,
                image == segment_image(plan, file@),
                forall|j: int| 0 <= j < i ==> pages@[j] == image[j],
            decreases n - i,
        {
            if offset <= i && i - offset < file_len {
                pages[i] = file[plan.file_start + (i - offset)];
            } else {
                pages[i] = 0;
            }
            i += 1;
        }
        assert(pages@ =~= image);
        SegmentFilled { state: self.state, plan: self.plan, phys_page: self.phys_page }
    }

    fn file_bytes(&self) -> (r: &'a [u8])
        ensures
            r@ == self.state().file,
    {
        self.state.file
    }
}

impl<'a> SegmentFilled<'a> {
    /// How far the kernel had been loaded before this segment.
    pub closed spec fn state(self) -> LoadModel {
        self.state.model()
    }

    /// What has to be done for the segment.
    pub closed spec fn plan(self) -> SegmentPlan {
        self.plan
    }

    /// Where its pages are.
    pub closed spec fn phys_page(self) -> u64 {
        self.phys_page
    }

    #[verifier::type_invariant]
    spec fn wf(self) -> bool {
        &&& self.state.wf()
        &&& is_planned(self.state.model(), self.plan)
    }

    /// The range to map.
    pub fn segment(&self) -> (r: LoadedSegment)
        ensures
            r == (LoadedSegment {
                virt_start: self.plan().virt_page,
                phys_start: self.phys_page(),
                byte_len: self.plan().mapped_size,
                perms: self.plan().perms,
            }),
    {
        LoadedSegment {
            virt_start: self.plan.virt_page,
            phys_start: self.phys_page,
            byte_len: self.plan.mapped_size,
            perms: self.plan.perms,
        }
    }

    /// The segment could not be mapped, which ends the loading.
    pub fn not_mapped(self, error: MapperError) -> (r: KernelLoadError<MapperError>)
        ensures
            r == KernelLoadError::<MapperError>::MappingFailed(error),
    {
        KernelLoadError::MappingFailed(error)
    }

    /// The segment has been mapped. Goes on to the next one.
    pub fn mapped(self) -> (r: Result<LoadStep<'a>, KernelLoadError<MapperError>>)
        ensures
            ({
                let state = load_more(self.state(), self.plan(), self.phys_page());
                match r {
                    Ok(step) => advanced(state) == Ok::<StepModel, KernelLoadError<MapperError>>(
                        step@,
                    ),
                    Err(e) => advanced(state) == Err::<StepModel, KernelLoadError<MapperError>>(e),
                }
            }),
            r matches Ok(LoadStep::Done(loaded)) ==> faithful(
                self.state().kernel,
                self.state().file.len() as int,
                self.state().va_bits,
                loaded@,
            ),
    {
        proof {
            use_type_invariant(&self);
            let model = self.state.model();
            let ph = model.kernel.program_headers[model.next];
            lemma_plan(ph, model.file.len() as int, model.va_bits, model.segments, self.plan);
            law_loading_keeps_the_state_valid(model, self.plan, self.phys_page);
        }
        let ghost more = load_more(self.state.model(), self.plan, self.phys_page);
        let segment = self.segment();
        let start: u64 = self.plan.virt_page;
        let end: u64 = self.plan.virt_page + self.plan.mapped_size;
        let SegmentFilled { mut state, plan: _, phys_page: _ } = self;
        let ghost before = state.segments@;
        state.segments.push(segment);
        assert(state.segments@.drop_last() =~= before);
        if start < state.virt_base {
            state.virt_base = start;
        }
        if end > state.virt_end {
            state.virt_end = end;
        }
        state.next += 1;
        assert(state.model() == more);
        let r = state.advance();
        proof {
            if let Ok(LoadStep::Done(ref loaded)) = r {
                law_loaded_kernel_is_faithful(more, loaded@);
            }
        }
        r
    }
}

/// Starts loading a kernel at the virtual addresses that it asks for, with virtual addresses of
/// `va_bits` bits.
pub fn load_kernel_at_preferred_virtual_address_with_va_bits<'a>(
    kernel: &'a KernelElf,
    kernel_bytes: &'a [u8],
    va_bits: u32,
) -> (r: Result<LoadStep<'a>, KernelLoadError<MapperError>>)
    ensures
        ({
            let state = load_start(kernel@, kernel_bytes@, va_bits as int);
            match r {
                Ok(step) => advanced(state) == Ok::<StepModel, KernelLoadError<MapperError>>(step@),
                Err(e) => advanced(state) == Err::<StepModel, KernelLoadError<MapperError>>(e),
            }
        }),
        r matches Ok(step) ==> step is Allocate,
{
    let state = LoadState {
        kernel,
        file: kernel_bytes,
        va_bits,
        next: 0,
        segments: Vec::new(),
        virt_base: u64::MAX,
        virt_end: 0,
    };
    proof {
        reveal(Seq::filter);
        assert(kernel_bytes.len() == kernel_bytes@.len());
        assert(kernel.program_headers.len() == kernel.program_headers@.len());
        assert(kernel.program_headers@.take(0) =~= Seq::<ProgramHeader>::empty());
        assert(state.model().segments =~= Seq::<LoadedSegment>::empty());
    }
    state.advance()
}

/// Starts loading a kernel at the virtual addresses that it asks for, with virtual addresses of
/// the default width.
pub fn load_kernel_at_preferred_virtual_address<'a>(
    kernel: &'a KernelElf,
    kernel_bytes: &'a [u8],
) -> (r: Result<LoadStep<'a>, KernelLoadError<MapperError>>)
    ensures
        ({
            let state = load_start(kernel@, kernel_bytes@, DEFAULT_VA_BITS as int);
            match r {
                Ok(step) => advanced(state) == Ok::<StepModel, KernelLoadError<MapperError>>(step@),
                Err(e) => advanced(state) == Err::<StepModel, KernelLoadError<MapperError>>(e),
            }
        }),
        r matches Ok(step) ==> step is Allocate,
{
    load_kernel_at_preferred_virtual_address_with_va_bits(kernel, kernel_bytes, DEFAULT_VA_BITS)
}

// ---------------------------------------------------------------------------------------------
// What the operations are for
// ---------------------------------------------------------------------------------------------
/// An address is canonical if and only if its highest bits, from the highest bit of the width on,
/// are all zero or all one.
pub proof fn law_canonical_addresses_are_sign_extended(addr: u64, va_bits: int)
    ensures
        canonical(addr as int, va_bits) <==> 1 <= va_bits <= 64 && {
            let upper = addr as int / pow2((va_bits - 1) as nat) as int;
            upper == 0 || upper == pow2((65 - va_bits) as nat) - 1
        },
{
    lemma_pow2_64();
    if 1 <= va_bits <= 64 {
        let p = pow2((va_bits - 1) as nat) as int;
        let q = pow2((65 - va_bits) as nat) as int;
        let a = addr as int;
        vstd::arithmetic::power2::lemma_pow2_adds((va_bits - 1) as nat, (65 - va_bits) as nat);
        vstd::arithmetic::power2::lemma_pow2_pos((va_bits - 1) as nat);
        vstd::arithmetic::power2::lemma_pow2_pos((65 - va_bits) as nat);
        vstd::arithmetic::div_mod::lemma_fundamental_div_mod(a, p);
        vstd::arithmetic::div_mod::lemma_mod_bound(a, p);
        let u = a / p;
        assert(u == 0 <==> a < p) by (nonlinear_arith)
            requires
                a == p * u + a % p,
                0 <= a % p < p,
                0 <= a,
        ;
        assert(u == q - 1 <==> a >= p * q - p) by (nonlinear_arith)
            requires
                a == p * u + a % p,
                0 <= a % p < p,
                a < p * q,
                0 < q,
        ;
    }
}

/// A range is canonical if and only if it has a first and a last address and both are.
pub proof fn law_canonical_ranges_have_canonical_ends(start: int, byte_len: int, va_bits: int)
    requires
        0 <= start <= u64::MAX,
    ensures
        canonical_range(start, byte_len, va_bits) <==> exists|last: int|
            last == start + byte_len - 1 && start <= last <= u64::MAX && canonical(start, va_bits)
                && #[trigger] canonical(last, va_bits),
{
    lemma_pow2_64();
    assert(canonical(start + byte_len - 1, va_bits) == canonical(start + byte_len - 1, va_bits));
}

/// The lowest three bits of the flags say, from the lowest on, whether the segment can be executed,
/// written and read; the others say nothing.
pub proof fn law_permissions_are_the_lowest_flags(flags: u32)
    ensures
        perms_of(flags).execute <==> flags & 0x1 != 0,
        perms_of(flags).write <==> flags & 0x2 != 0,
        perms_of(flags).read <==> flags & 0x4 != 0,
{
    assert((flags & 0x1 != 0) == (flags % 2 == 1)) by (bit_vector);
    assert((flags & 0x2 != 0) == ((flags / 2) % 2 == 1)) by (bit_vector);
    assert((flags & 0x4 != 0) == ((flags / 4) % 2 == 1)) by (bit_vector);
}

/// Two ranges that are not empty overlap if and only if some address is in both. An empty range
/// overlaps one that it lies strictly within.
pub proof fn law_overlapping_ranges_share_an_address(a: int, a_len: int, b: int, b_len: int)
    requires
        a_len >= 0,
        b_len >= 0,
    ensures
        ranges_overlap(a, a_len, b, b_len) == ranges_overlap(b, b_len, a, a_len),
        a_len == 0 ==> (ranges_overlap(a, a_len, b, b_len) <==> b < a && a - b < b_len),
        a_len > 0 && b_len > 0 ==> (ranges_overlap(a, a_len, b, b_len) <==> exists|addr: int|
            a <= addr < a + a_len && b <= addr && #[trigger] (addr - b) < b_len),
{
    if a_len > 0 && b_len > 0 && ranges_overlap(a, a_len, b, b_len) {
        let addr = if a >= b {
            a
        } else {
            b
        };
        assert(a <= addr < a + a_len && b <= addr && (addr - b) < b_len);
    }
}

/// What becomes of a segment, said of its header alone. Its pages are the `len` bytes from `page`
/// on: the fewest whole pages that hold it. It is refused for its size, for its place in the file,
/// for pages that have no length, for addresses that are not canonical, or for sharing an address
/// with a segment before it, in this order; and for nothing else.
pub proof fn law_segments_are_refused_for_a_reason(
    ph: ProgramHeader,
    file_len: int,
    va_bits: int,
    segments: Seq<LoadedSegment>,
    page: int,
    len: int,
)
    requires
        0 <= file_len <= usize::MAX,
        page % 4096 == 0,
        page <= ph.p_vaddr < page + 4096,
        len % 4096 == 0,
        ph.p_vaddr + ph.p_memsz <= page + len < ph.p_vaddr + ph.p_memsz + 4096,
    ensures
        ({
            let outcome = plan_of(ph, file_len, va_bits, segments);
            let sized = 0 < ph.p_memsz && ph.p_filesz <= ph.p_memsz;
            let in_file = ph.p_offset + ph.p_filesz <= file_len;
            let in_width = {
                let half = pow2((va_bits - 1) as nat);
                let last = page + len - 1;
                &&& 1 <= va_bits <= 64
                &&& page < half || page >= 0x1_0000_0000_0000_0000 - half
                &&& last < half || last >= 0x1_0000_0000_0000_0000 - half
                &&& last <= u64::MAX
            };
            let clashes = page + len > u64::MAX || exists|k: int|
                0 <= k < segments.len() && ((#[trigger] segments[k]).virt_start
                    + segments[k].byte_len > u64::MAX || (segments[k].virt_start < page + len && page
                    < segments[k].virt_start + segments[k].byte_len));
            if !sized {
                outcome == Err::<SegmentPlan, KernelLoadError<MapperError>>(
                    KernelLoadError::InvalidSegmentSize,
                )
            } else if !in_file {
                outcome == Err::<SegmentPlan, KernelLoadError<MapperError>>(
                    KernelLoadError::InvalidSegmentOffset,
                )
            } else if len > u64::MAX {
                outcome == Err::<SegmentPlan, KernelLoadError<MapperError>>(
                    KernelLoadError::InvalidSegmentRange,
                )
            } else if !in_width {
                outcome == Err::<SegmentPlan, KernelLoadError<MapperError>>(
                    KernelLoadError::InvalidVirtualRange,
                )
            } else if clashes {
                outcome == Err::<SegmentPlan, KernelLoadError<MapperError>>(
                    KernelLoadError::MappedSegmentOverlap,
                )
            } else if len / 4096 > usize::MAX {
                outcome == Err::<SegmentPlan, KernelLoadError<MapperError>>(
                    KernelLoadError::InvalidSegmentRange,
                )
            } else {
                outcome is Ok
            }
        }),
{
    lemma_pow2_64();
    lemma_pages_of_segment(ph, page, len);
}

/// The fewest whole pages that hold a segment are those that are planned for it.
proof fn lemma_pages_of_segment(ph: ProgramHeader, page: int, len: int)
    requires
        page % 4096 == 0,
        page <= ph.p_vaddr < page + 4096,
        len % 4096 == 0,
        ph.p_vaddr + ph.p_memsz <= page + len < ph.p_vaddr + ph.p_memsz + 4096,
    ensures
        page == page_of(ph),
        len == mapped_len(ph),
{
}

/// A segment with contents in the file and canonical pages that share no address with any segment
/// before it is always planned, wherever the others are.
pub proof fn law_segment_that_shares_no_page_is_planned(
    ph: ProgramHeader,
    file_len: int,
    va_bits: int,
    segments: Seq<LoadedSegment>,
    page: int,
    len: int,
)
    requires
        0 <= file_len <= usize::MAX,
        0 < ph.p_memsz,
        ph.p_filesz <= ph.p_memsz,
        ph.p_offset + ph.p_filesz <= file_len,
        page % 4096 == 0,
        page <= ph.p_vaddr < page + 4096,
        len % 4096 == 0,
        ph.p_vaddr + ph.p_memsz <= page + len < ph.p_vaddr + ph.p_memsz + 4096,
        page + len <= u64::MAX,
        len / 4096 <= usize::MAX,
        1 <= va_bits <= 64,
        page + len <= pow2((va_bits - 1) as nat) || page >= 0x1_0000_0000_0000_0000 - pow2(
            (va_bits - 1) as nat,
        ),
        forall|k: int|
            0 <= k < segments.len() ==> (#[trigger] segments[k]).virt_start + segments[k].byte_len
                <= u64::MAX && (segments[k].virt_start + segments[k].byte_len <= page || page + len
                <= segments[k].virt_start),
    ensures
        plan_of(ph, file_len, va_bits, segments) is Ok,
{
    law_segments_are_refused_for_a_reason(ph, file_len, va_bits, segments, page, len);
}

/// A planned segment has the fewest whole pages that hold it, the bytes of the file that its header
/// names, and the permissions of its flags.
pub proof fn law_planned_segment_is_what_its_header_asks_for(
    ph: ProgramHeader,
    file_len: int,
    va_bits: int,
    segments: Seq<LoadedSegment>,
    plan: SegmentPlan,
)
    requires
        0 <= file_len <= usize::MAX,
        plan_of(ph, file_len, va_bits, segments) == Ok::<
            SegmentPlan,
            KernelLoadError<MapperError>,
        >(plan),
    ensures
        plan.virt_page % 4096 == 0,
        plan.virt_page + plan.page_offset == ph.p_vaddr,
        plan.page_offset < 4096,
        plan.mapped_size == plan.page_count * 4096,
        ph.p_vaddr + ph.p_memsz <= plan.virt_page + plan.mapped_size,
        plan.virt_page + plan.mapped_size < ph.p_vaddr + ph.p_memsz + 4096,
        plan.file_start == ph.p_offset,
        plan.file_end - plan.file_start == ph.p_filesz,
        plan.file_end <= file_len,
        plan.perms.execute <==> ph.p_flags & 0x1 != 0,
        plan.perms.write <==> ph.p_flags & 0x2 != 0,
        plan.perms.read <==> ph.p_flags & 0x4 != 0,
{
    lemma_plan(ph, file_len, va_bits, segments, plan);
    law_permissions_are_the_lowest_flags(ph.p_flags);
}

/// The pages of a planned segment hold the bytes of the file at the addresses that the header gives
/// them, and zeros everywhere else.
pub proof fn law_pages_hold_the_file_and_zeros(
    ph: ProgramHeader,
    file: Seq<u8>,
    va_bits: int,
    segments: Seq<LoadedSegment>,
    plan: SegmentPlan,
    addr: int,
)
    requires
        file.len() <= usize::MAX,
        plan_of(ph, file.len() as int, va_bits, segments) == Ok::<
            SegmentPlan,
            KernelLoadError<MapperError>,
        >(plan),
        plan.virt_page <= addr < plan.virt_page + plan.mapped_size,
    ensures
        segment_image(plan, file).len() == plan.mapped_size,
        segment_image(plan, file)[addr - plan.virt_page] == if ph.p_vaddr <= addr < ph.p_vaddr
            + ph.p_filesz {
            file[ph.p_offset + (addr - ph.p_vaddr)]
        } else {
            0u8
        },
{
    lemma_plan(ph, file.len() as int, va_bits, segments, plan);
}

/// Loading takes the headers in order and passes over those that are not loaded: where `i` is the
/// first one from `state.next` on that is, its segment is planned, or its error is the error.
pub proof fn law_loading_takes_the_next_load_header(state: LoadModel, i: int)
    requires
        0 <= state.next <= i < state.kernel.program_headers.len(),
        state.kernel.program_headers[i].p_type == 1,
        forall|j: int|
            state.next <= j < i ==> (#[trigger] state.kernel.program_headers[j]).p_type != 1,
    ensures
        match plan_of(
            state.kernel.program_headers[i],
            state.file.len() as int,
            state.va_bits,
            state.segments,
        ) {
            Ok(plan) => advanced(state) matches Ok(StepModel::Allocate { state: next, plan: p })
                && p == plan && next.next == i && next.kernel == state.kernel && next.file
                == state.file && next.va_bits == state.va_bits && next.segments == state.segments,
            Err(e) => advanced(state) == Err::<StepModel, KernelLoadError<MapperError>>(e),
        },
{
    lemma_first_load(state.kernel.program_headers, state.next, i);
}

/// `next_load` stops at the first header that is loaded.
proof fn lemma_first_load(headers: Seq<ProgramHeader>, from: int, i: int)
    requires
        0 <= from <= i <= headers.len(),
        i < headers.len() ==> headers[i].p_type == 1,
        forall|j: int| from <= j < i ==> (#[trigger] headers[j]).p_type != 1,
    ensures
        next_load(headers, from) == i,
    decreases i - from,
{
    if from < i {
        assert(headers[from].p_type != 1);
        lemma_first_load(headers, from + 1, i);
    }
}

/// Where no header is left, the kernel is loaded. It must have a segment and a canonical entry
/// point. Its bounds are the lowest start and the highest end of its segments.
pub proof fn law_loading_ends_after_the_last_header(state: LoadModel)
    requires
        0 <= state.next <= state.kernel.program_headers.len(),
        forall|j: int|
            state.next <= j < state.kernel.program_headers.len() ==> (
            #[trigger] state.kernel.program_headers[j]).p_type != 1,
        forall|k: int|
            0 <= k < state.segments.len() ==> (#[trigger] state.segments[k]).virt_start
                + state.segments[k].byte_len <= u64::MAX,
    ensures
        match advanced(state) {
            Err(e) => if state.segments.len() == 0 {
                e == KernelLoadError::<MapperError>::MissingLoadSegment
            } else {
                e == KernelLoadError::<MapperError>::InvalidVirtualRange && !canonical(
                    state.kernel.entry as int,
                    state.va_bits,
                )
            },
            Ok(StepModel::Done(loaded)) => {
                &&& state.segments.len() > 0
                &&& canonical(state.kernel.entry as int, state.va_bits)
                &&& loaded.virt_entry == state.kernel.entry
                &&& loaded.segments == state.segments
                &&& forall|k: int|
                    0 <= k < state.segments.len() ==> loaded.virt_base <= (
                    #[trigger] state.segments[k]).virt_start && state.segments[k].virt_start
                        + state.segments[k].byte_len <= loaded.virt_base + loaded.virt_size
                &&& exists|k: int|
                    0 <= k < state.segments.len() && (#[trigger] state.segments[k]).virt_start
                        == loaded.virt_base
                &&& exists|k: int|
                    0 <= k < state.segments.len() && (#[trigger] state.segments[k]).virt_start
                        + state.segments[k].byte_len == loaded.virt_base + loaded.virt_size
            },
            Ok(_) => false,
        },
{
    let headers = state.kernel.program_headers;
    lemma_first_load(headers, state.next, headers.len() as int);
    lemma_bounds(state.segments);
    let segments = state.segments;
    if let Ok(StepModel::Done(loaded)) = advanced(state) {
        assert(loaded.virt_base == lowest(segments));
        assert(loaded.virt_base + loaded.virt_size == highest(segments));
        let low = choose|k: int|
            0 <= k < segments.len() && (#[trigger] segments[k]).virt_start == lowest(segments);
        assert(segments[low].virt_start == loaded.virt_base);
        let high = choose|k: int|
            0 <= k < segments.len() && (#[trigger] segments[k]).virt_start + segments[k].byte_len
                == highest(segments);
        assert(segments[high].virt_start + segments[high].byte_len == loaded.virt_base
            + loaded.virt_size);
    }
}

/// Loading starts before the first header, without segments. A segment that has been mapped is added
/// behind the others, with the pages of its plan, and the next header comes next.
pub proof fn law_mapped_segments_are_added_in_order(
    kernel: ElfModel,
    file: Seq<u8>,
    va_bits: int,
    state: LoadModel,
    plan: SegmentPlan,
    phys_page: u64,
)
    ensures
        ({
            let start = load_start(kernel, file, va_bits);
            &&& start.kernel == kernel
            &&& start.file == file
            &&& start.va_bits == va_bits
            &&& start.next == 0
            &&& start.segments.len() == 0
        }),
        ({
            let more = load_more(state, plan, phys_page);
            let added = more.segments[more.segments.len() - 1];
            &&& more.kernel == state.kernel
            &&& more.file == state.file
            &&& more.va_bits == state.va_bits
            &&& more.next == state.next + 1
            &&& more.segments.len() == state.segments.len() + 1
            &&& more.segments.drop_last() == state.segments
            &&& added.virt_start == plan.virt_page
            &&& added.phys_start == phys_page
            &&& added.byte_len == plan.mapped_size
            &&& added.perms == plan.perms
        }),
{
    let more = load_more(state, plan, phys_page);
    assert(more.segments.drop_last() =~= state.segments);
}

/// The model of a parsed file and that of a loaded kernel have the fields of the file and of the
/// kernel.
pub proof fn law_models_keep_every_field(elf: KernelElf, loaded: LoadedKernel)
    ensures
        elf@.e_machine == elf.e_machine,
        elf@.e_type == elf.e_type,
        elf@.is_64 == elf.is_64,
        elf@.little_endian == elf.little_endian,
        elf@.entry == elf.entry,
        elf@.has_interpreter == elf.has_interpreter,
        elf@.has_dynamic == elf.has_dynamic,
        elf@.program_headers == elf.program_headers@,
        loaded@.virt_entry == loaded.virt_entry,
        loaded@.virt_base == loaded.virt_base,
        loaded@.virt_size == loaded.virt_size,
        loaded@.segments == loaded.segments@,
{
}

/// Whether this is a right header of a segment that is loaded, taken by itself.
spec fn right_header(ph: ProgramHeader) -> bool {
    &&& ph.p_filesz <= ph.p_memsz
    &&& ph.p_align == 0 || (is_pow2(ph.p_align as int) && ph.p_vaddr % ph.p_align == ph.p_offset
        % ph.p_align)
}

/// Validation accepts exactly the 64-bit little-endian Arm executables with an entry point and
/// without an interpreter or a dynamic section that have a segment to load, and whose segments to
/// load each hold their contents, are aligned as they say, end within 64-bit addresses and overlap
/// no other.
pub proof fn law_validation_accepts_exactly(kernel: ElfModel)
    ensures
        ({
            let headers = kernel.program_headers;
            validation(kernel) is Ok <==> {
                &&& kernel.e_machine == 183
                &&& kernel.is_64
                &&& kernel.little_endian
                &&& kernel.e_type == 2 || kernel.e_type == 3
                &&& kernel.entry != 0
                &&& !kernel.has_interpreter
                &&& !kernel.has_dynamic
                &&& exists|i: int| 0 <= i < headers.len() && (#[trigger] headers[i]).p_type == 1
                &&& forall|i: int|
                    0 <= i < headers.len() && (#[trigger] headers[i]).p_type == 1 ==> {
                        &&& headers[i].p_filesz <= headers[i].p_memsz
                        &&& headers[i].p_align == 0 || (is_pow2(headers[i].p_align as int)
                            && headers[i].p_vaddr % headers[i].p_align == headers[i].p_offset
                            % headers[i].p_align)
                        &&& headers[i].p_vaddr + headers[i].p_memsz <= u64::MAX
                    }
                &&& forall|i: int, j: int|
                    #![trigger headers[i], headers[j]]
                    0 <= i < j < headers.len() && headers[i].p_type == 1 && headers[j].p_type == 1
                        ==> headers[i].p_vaddr + headers[i].p_memsz <= headers[j].p_vaddr
                        || headers[j].p_vaddr + headers[j].p_memsz <= headers[i].p_vaddr
            }
        }),
{
    let headers = kernel.program_headers;
    if first_fault(headers) is None {
        assert forall|i: int| 0 <= i < headers.len() && is_load(
            #[trigger] headers[i],
        ) implies right_header(headers[i]) by {
            lemma_no_fault(headers, i);
        }
    } else if forall|i: int|
        0 <= i < headers.len() && is_load(#[trigger] headers[i]) ==> right_header(headers[i]) {
        lemma_all_right(headers);
    }
    if loads_disjoint(headers) {
        assert forall|i: int, j: int|
            #![trigger headers[i], headers[j]]
            0 <= i < j < headers.len() && headers[i].p_type == 1 && headers[j].p_type == 1 implies
            headers[i].p_vaddr + headers[i].p_memsz <= headers[j].p_vaddr || headers[j].p_vaddr
            + headers[j].p_memsz <= headers[i].p_vaddr by {
            assert(!segments_clash(headers[i], headers[j]));
        }
    }
}

/// Where every header is right, there is no fault.
proof fn lemma_all_right(headers: Seq<ProgramHeader>)
    requires
        forall|i: int|
            0 <= i < headers.len() && is_load(#[trigger] headers[i]) ==> right_header(headers[i]),
    ensures
        first_fault(headers) is None,
    decreases headers.len(),
{
    if headers.len() > 0 {
        assert(header_fault(headers[0]) is None);
        let rest = headers.drop_first();
        assert forall|i: int| 0 <= i < rest.len() && is_load(#[trigger] rest[i]) implies right_header(
            rest[i],
        ) by {
            assert(rest[i] == headers[i + 1]);
        }
        lemma_all_right(rest);
    }
}

/// What validation reports of the file header: the first thing that is wrong.
pub proof fn law_validation_reports_the_file_header(kernel: ElfModel)
    ensures
        kernel.e_machine != 183 ==> validation(kernel) == Err::<(), KernelValidationError>(
            KernelValidationError::NotAarch64,
        ),
        kernel.e_machine == 183 && !kernel.is_64 ==> validation(kernel) == Err::<
            (),
            KernelValidationError,
        >(KernelValidationError::NotElf64),
        kernel.e_machine == 183 && kernel.is_64 && !kernel.little_endian ==> validation(kernel)
            == Err::<(), KernelValidationError>(KernelValidationError::NotLittleEndian),
        kernel.e_machine == 183 && kernel.is_64 && kernel.little_endian ==> {
            &&& kernel.e_type != 2 && kernel.e_type != 3 ==> validation(kernel) == Err::<
                (),
                KernelValidationError,
            >(KernelValidationError::UnsupportedElfType)
            &&& kernel.e_type == 2 || kernel.e_type == 3 ==> {
                &&& kernel.entry == 0 ==> validation(kernel) == Err::<(), KernelValidationError>(
                    KernelValidationError::MissingEntry,
                )
                &&& kernel.entry != 0 && kernel.has_interpreter ==> validation(kernel) == Err::<
                    (),
                    KernelValidationError,
                >(KernelValidationError::InterpreterUnsupported)
                &&& kernel.entry != 0 && !kernel.has_interpreter && kernel.has_dynamic
                    ==> validation(kernel) == Err::<(), KernelValidationError>(
                    KernelValidationError::DynamicKernelUnsupported,
                )
            }
        },
{
}

/// What validation reports of a kernel whose file header is right: of the first header to load that
/// is wrong by itself, the first thing that is wrong; then that there is none to load; then that two
/// of them overlap or one does not end within 64-bit addresses.
pub proof fn law_validation_reports_the_first_wrong_header(kernel: ElfModel, i: int)
    requires
        kernel.e_machine == 183,
        kernel.is_64,
        kernel.little_endian,
        kernel.e_type == 2 || kernel.e_type == 3,
        kernel.entry != 0,
        !kernel.has_interpreter,
        !kernel.has_dynamic,
        0 <= i <= kernel.program_headers.len(),
        forall|j: int|
            0 <= j < i && (#[trigger] kernel.program_headers[j]).p_type == 1 ==> {
                let ph = kernel.program_headers[j];
                &&& ph.p_filesz <= ph.p_memsz
                &&& ph.p_align == 0 || (is_pow2(ph.p_align as int) && ph.p_vaddr % ph.p_align
                    == ph.p_offset % ph.p_align)
            },
    ensures
        i < kernel.program_headers.len() && kernel.program_headers[i].p_type == 1 ==> {
            let ph = kernel.program_headers[i];
            &&& ph.p_memsz < ph.p_filesz ==> validation(kernel) == Err::<
                (),
                KernelValidationError,
            >(KernelValidationError::InvalidLoadSegmentSize)
            &&& ph.p_memsz >= ph.p_filesz && ph.p_align != 0 && !is_pow2(ph.p_align as int)
                ==> validation(kernel) == Err::<(), KernelValidationError>(
                KernelValidationError::InvalidLoadSegmentAlign,
            )
            &&& ph.p_memsz >= ph.p_filesz && ph.p_align != 0 && is_pow2(ph.p_align as int)
                && ph.p_vaddr % ph.p_align != ph.p_offset % ph.p_align ==> validation(kernel)
                == Err::<(), KernelValidationError>(
                KernelValidationError::LoadSegmentAddressMismatch,
            )
        },
        i == kernel.program_headers.len() ==> {
            &&& (forall|j: int| 0 <= j < i ==> (#[trigger] kernel.program_headers[j]).p_type != 1)
                ==> validation(kernel) == Err::<(), KernelValidationError>(
                KernelValidationError::MissingLoadSegment,
            )
            &&& (exists|j: int| 0 <= j < i && (#[trigger] kernel.program_headers[j]).p_type == 1)
                ==> validation(kernel) is Ok || validation(kernel) == Err::<
                (),
                KernelValidationError,
            >(KernelValidationError::LoadSegmentOverlap)
        },
{
    let headers = kernel.program_headers;
    assert forall|j: int| 0 <= j < i implies header_fault(#[trigger] headers[j]) is None by {
        if headers[j].p_type == 1 {
            assert(right_header(headers[j]));
        }
    }
    lemma_first_fault_skip(headers, i);
    if i < headers.len() {
        assert(headers.skip(i)[0] == headers[i]);
    }
}

/// A segment can be put wherever the firmware has its pages: only a start beyond the last address, or
/// more bytes than memory can have, are in the way.
pub proof fn law_segments_can_be_placed_anywhere(plan: SegmentPlan, phys_page: u64)
    requires
        phys_page % 4096 == 0,
        plan.page_offset < 4096,
    ensures
        can_be_placed(plan, phys_page) <==> plan.mapped_size <= usize::MAX,
{
}

} // verus!
