//! Which memory stays mapped at its physical address while the kernel takes over.
//!
//! Memory that the boot loader or the firmware uses is mapped one to one. It can be read and
//! written; only the boot loader's own image can also be executed.
use crate::align::PAGE_SIZE;
use crate::boot::BootError;
use crate::kernel_loading::SegmentPerms;
use crate::memory_map::UefiMemoryDescriptor;
use vstd::math::{max, min};
use vstd::prelude::*;

verus! {

/// The code of a boot loader.
pub const LOADER_CODE: u32 = 1;

/// The data of a boot loader.
pub const LOADER_DATA: u32 = 2;

/// Firmware code that is gone after the boot services end.
pub const BOOT_SERVICES_CODE: u32 = 3;

/// Firmware data that is gone after the boot services end.
pub const BOOT_SERVICES_DATA: u32 = 4;

/// Firmware code that stays.
pub const RUNTIME_SERVICES_CODE: u32 = 5;

/// Firmware data that stays.
pub const RUNTIME_SERVICES_DATA: u32 = 6;

/// Tables that can be given up once they have been read.
pub const ACPI_RECLAIM: u32 = 9;

/// Tables that stay.
pub const ACPI_NON_VOLATILE: u32 = 10;

/// Whether memory of this type is still needed.
pub open spec fn stays_mapped(memory_type: u32) -> bool {
    LOADER_CODE <= memory_type <= RUNTIME_SERVICES_DATA || memory_type == ACPI_RECLAIM
        || memory_type == ACPI_NON_VOLATILE
}

/// Whether memory of this type is still needed.
pub fn transition_memory_type(memory_type: u32) -> (r: bool)
    ensures
        r == stays_mapped(memory_type),
{
    memory_type == LOADER_CODE || memory_type == LOADER_DATA || memory_type == BOOT_SERVICES_CODE
        || memory_type == BOOT_SERVICES_DATA || memory_type == RUNTIME_SERVICES_CODE || memory_type
        == RUNTIME_SERVICES_DATA || memory_type == ACPI_RECLAIM || memory_type == ACPI_NON_VOLATILE
}

/// Memory outside the image is for data.
pub fn data_permissions() -> (r: SegmentPerms)
    ensures
        r == (SegmentPerms { read: true, write: true, execute: false }),
{
    SegmentPerms { read: true, write: true, execute: false }
}

/// The image is for data and code.
pub fn image_permissions() -> (r: SegmentPerms)
    ensures
        r == (SegmentPerms { read: true, write: true, execute: true }),
{
    SegmentPerms { read: true, write: true, execute: true }
}

/// A range of memory that is mapped at its physical address.
#[derive(Clone, Copy, Debug, Eq, PartialEq)]
pub struct TransitionPart {
    pub start: u64,
    pub byte_len: u64,
    pub permissions: SegmentPerms,
}

impl TransitionPart {
    /// Whether the range holds an address.
    pub open spec fn holds(self, addr: int) -> bool {
        self.start <= addr < self.start + self.byte_len
    }
}

/// The range from `start` up to `end`; none where that is empty.
pub fn map_transition_part(start: u64, end: u64, permissions: SegmentPerms) -> (r: Option<
    TransitionPart,
>)
    ensures
        r == part_of(start as int, end as int, permissions),
{
    if start >= end {
        return None;
    }
    Some(TransitionPart { start, byte_len: end - start, permissions })
}

/// The range from `start` up to `end`; none where that is empty.
pub open spec fn part_of(start: int, end: int, permissions: SegmentPerms) -> Option<
    TransitionPart,
> {
    if start >= end {
        None
    } else {
        Some(
            TransitionPart { start: start as u64, byte_len: (end - start) as u64, permissions },
        )
    }
}

/// How a range of memory is mapped: what lies before the image, in the image and behind it.
#[derive(Clone, Copy, Debug, Eq, PartialEq)]
pub struct TransitionParts {
    pub before: Option<TransitionPart>,
    pub image: Option<TransitionPart>,
    pub behind: Option<TransitionPart>,
}

impl TransitionParts {
    /// The permissions with which an address is mapped; none where it is not mapped.
    pub open spec fn permissions_at(self, addr: int) -> Option<SegmentPerms> {
        if self.before is Some && self.before->0.holds(addr) {
            Some(self.before->0.permissions)
        } else if self.image is Some && self.image->0.holds(addr) {
            Some(self.image->0.permissions)
        } else if self.behind is Some && self.behind->0.holds(addr) {
            Some(self.behind->0.permissions)
        } else {
            None
        }
    }
}

/// One past the last address of a descriptor's memory.
pub open spec fn descriptor_end(descriptor: UefiMemoryDescriptor) -> int {
    descriptor.phys_start + descriptor.page_count * PAGE_SIZE
}

/// How the memory of a descriptor is mapped, with the boot loader's image at `image_start` up to
/// `image_end`. Memory whose end is not an address is an error.
pub open spec fn transition_of(
    descriptor: UefiMemoryDescriptor,
    image_start: int,
    image_end: int,
) -> Result<TransitionParts, BootError> {
    let start = descriptor.phys_start as int;
    let end = descriptor_end(descriptor);
    let data = SegmentPerms { read: true, write: true, execute: false };
    let image = SegmentPerms { read: true, write: true, execute: true };
    if !stays_mapped(descriptor.memory_type) || descriptor.page_count == 0 {
        Ok(TransitionParts { before: None, image: None, behind: None })
    } else if end > u64::MAX {
        Err(BootError::TransitionMapping)
    } else {
        Ok(
            TransitionParts {
                before: part_of(start, min(end, image_start), data),
                image: part_of(max(start, image_start), min(end, image_end), image),
                behind: part_of(max(start, image_end), end, data),
            },
        )
    }
}

/// How the memory of a descriptor is mapped.
pub fn transition_parts(
    descriptor: &UefiMemoryDescriptor,
    image_start: u64,
    image_end: u64,
) -> (r: Result<TransitionParts, BootError>)
    ensures
        r == transition_of(*descriptor, image_start as int, image_end as int),
{
    if !transition_memory_type(descriptor.memory_type) || descriptor.page_count == 0 {
        return Ok(TransitionParts { before: None, image: None, behind: None });
    }
    let start: u64 = descriptor.phys_start;
    let len: u64 = match descriptor.page_count.checked_mul(PAGE_SIZE) {
        Some(len) => len,
        None => return Err(BootError::TransitionMapping),
    };
    let end: u64 = match start.checked_add(len) {
        Some(end) => end,
        None => return Err(BootError::TransitionMapping),
    };
    let before_end: u64 = if end <= image_start {
        end
    } else {
        image_start
    };
    let inside_start: u64 = if start >= image_start {
        start
    } else {
        image_start
    };
    let inside_end: u64 = if end <= image_end {
        end
    } else {
        image_end
    };
    let behind_start: u64 = if start >= image_end {
        start
    } else {
        image_end
    };
    Ok(
        TransitionParts {
            before: map_transition_part(start, before_end, data_permissions()),
            image: map_transition_part(inside_start, inside_end, image_permissions()),
            behind: map_transition_part(behind_start, end, data_permissions()),
        },
    )
}

/// Of a descriptor's memory, every address is mapped and nothing else is, where memory of its type
/// is still needed. All of it can be read and written, and exactly the image can be executed.
pub proof fn law_transition_maps_the_descriptor(
    descriptor: UefiMemoryDescriptor,
    image_start: u64,
    image_end: u64,
    addr: int,
)
    requires
        image_start <= image_end,
        transition_of(descriptor, image_start as int, image_end as int) is Ok,
    ensures
        transition_of(descriptor, image_start as int, image_end as int)->Ok_0.permissions_at(addr)
            == if stays_mapped(descriptor.memory_type) && descriptor.phys_start <= addr
            < descriptor_end(descriptor) {
            Some(SegmentPerms { read: true, write: true, execute: image_start <= addr < image_end })
        } else {
            None
        },
{
}

/// No address is mapped twice for one descriptor.
pub proof fn law_transition_parts_are_disjoint(
    descriptor: UefiMemoryDescriptor,
    image_start: u64,
    image_end: u64,
    addr: int,
)
    requires
        image_start <= image_end,
        transition_of(descriptor, image_start as int, image_end as int) is Ok,
    ensures
        ({
            let parts = transition_of(descriptor, image_start as int, image_end as int)->Ok_0;
            let in_before = parts.before is Some && parts.before->0.holds(addr);
            let in_image = parts.image is Some && parts.image->0.holds(addr);
            let in_behind = parts.behind is Some && parts.behind->0.holds(addr);
            &&& !(in_before && in_image)
            &&& !(in_before && in_behind)
            &&& !(in_image && in_behind)
        }),
{
}

/// Whether a range consists of whole pages.
pub open spec fn whole_pages(part: Option<TransitionPart>) -> bool {
    part matches Some(part) ==> part.start % PAGE_SIZE == 0 && part.byte_len % PAGE_SIZE == 0
}

/// Where the memory and the image begin and end with a page, so does every range that is mapped.
pub proof fn law_transition_parts_are_whole_pages(
    descriptor: UefiMemoryDescriptor,
    image_start: u64,
    image_end: u64,
)
    requires
        transition_of(descriptor, image_start as int, image_end as int) is Ok,
        descriptor.phys_start % PAGE_SIZE == 0,
        image_start % PAGE_SIZE == 0,
        image_end % PAGE_SIZE == 0,
    ensures
        ({
            let parts = transition_of(descriptor, image_start as int, image_end as int)->Ok_0;
            whole_pages(parts.before) && whole_pages(parts.image) && whole_pages(parts.behind)
        }),
{
}

/// The ranges in `parts` that are there, in order.
pub open spec fn listed(parts: TransitionParts) -> Seq<TransitionPart> {
    one(parts.before) + one(parts.image) + one(parts.behind)
}

/// A range that may be there, as a sequence.
pub open spec fn one(part: Option<TransitionPart>) -> Seq<TransitionPart> {
    match part {
        Some(part) => seq![part],
        None => Seq::empty(),
    }
}

/// The error of the first descriptor that has one.
pub open spec fn plan_error(
    descriptors: Seq<UefiMemoryDescriptor>,
    image_start: int,
    image_end: int,
) -> Option<BootError>
    decreases descriptors.len(),
{
    if descriptors.len() == 0 {
        None
    } else {
        match plan_error(descriptors.drop_last(), image_start, image_end) {
            Some(error) => Some(error),
            None => match transition_of(descriptors.last(), image_start, image_end) {
                Ok(_) => None,
                Err(error) => Some(error),
            },
        }
    }
}

/// What is mapped for these descriptors, in order, up to the first one that has an error.
pub open spec fn plan_parts(
    descriptors: Seq<UefiMemoryDescriptor>,
    image_start: int,
    image_end: int,
) -> Seq<TransitionPart>
    decreases descriptors.len(),
{
    if descriptors.len() == 0 {
        Seq::empty()
    } else {
        let before = plan_parts(descriptors.drop_last(), image_start, image_end);
        if plan_error(descriptors, image_start, image_end) is Some {
            before
        } else {
            before + listed(transition_of(descriptors.last(), image_start, image_end)->Ok_0)
        }
    }
}

/// What is to be mapped at its physical address, and the error that comes after that, if any.
#[derive(Clone, Debug, Eq, PartialEq)]
pub struct TransitionPlan {
    pub parts: Vec<TransitionPart>,
    pub error: Option<BootError>,
}

/// What is to be mapped for a whole memory map.
pub fn transition_plan(
    descriptors: &[UefiMemoryDescriptor],
    image_start: u64,
    image_end: u64,
) -> (r: TransitionPlan)
    ensures
        r.parts@ == plan_parts(descriptors@, image_start as int, image_end as int),
        r.error == plan_error(descriptors@, image_start as int, image_end as int),
{
    let mut parts: Vec<TransitionPart> = Vec::new();
    let mut i: usize = 0;
    while i < descriptors.len()
        invariant
            i <= descriptors@.len(),
            parts@ == plan_parts(descriptors@.take(i as int), image_start as int, image_end as int),
            plan_error(descriptors@.take(i as int), image_start as int, image_end as int) is None,
        decreases descriptors@.len() - i,
    {
        let ghost seen = descriptors@.take(i + 1);
        proof {
            assert(seen.drop_last() =~= descriptors@.take(i as int));
            assert(seen.last() == descriptors@[i as int]);
        }
        match transition_parts(&descriptors[i], image_start, image_end) {
            Ok(more) => {
                let ghost before = parts@;
                if let Some(part) = more.before {
                    parts.push(part);
                }
                if let Some(part) = more.image {
                    parts.push(part);
                }
                if let Some(part) = more.behind {
                    parts.push(part);
                }
                assert(parts@ =~= before + listed(more));
            },
            Err(error) => {
                proof {
                    lemma_error_ends_the_plan(
                        descriptors@,
                        image_start as int,
                        image_end as int,
                        i + 1,
                    );
                }
                return TransitionPlan { parts, error: Some(error) };
            },
        }
        i = i + 1;
    }
    assert(descriptors@.take(i as int) =~= descriptors@);
    TransitionPlan { parts, error: None }
}

/// What comes after an error does not matter.
proof fn lemma_error_ends_the_plan(
    descriptors: Seq<UefiMemoryDescriptor>,
    image_start: int,
    image_end: int,
    n: int,
)
    requires
        0 <= n <= descriptors.len(),
        plan_error(descriptors.take(n), image_start, image_end) is Some,
    ensures
        plan_error(descriptors, image_start, image_end) == plan_error(
            descriptors.take(n),
            image_start,
            image_end,
        ),
        plan_parts(descriptors, image_start, image_end) == plan_parts(
            descriptors.take(n),
            image_start,
            image_end,
        ),
    decreases descriptors.len(),
{
    if n == descriptors.len() {
        assert(descriptors.take(n) =~= descriptors);
    } else {
        assert(descriptors.drop_last().take(n) =~= descriptors.take(n));
        lemma_error_ends_the_plan(descriptors.drop_last(), image_start, image_end, n);
    }
}

/// Whether an address is in memory that is still needed.
pub open spec fn is_kept(descriptors: Seq<UefiMemoryDescriptor>, addr: int) -> bool {
    exists|i: int|
        0 <= i < descriptors.len() && stays_mapped((#[trigger] descriptors[i]).memory_type)
            && descriptors[i].phys_start <= addr < descriptor_end(descriptors[i])
}

/// A plan without an error maps exactly the memory that is still needed. All of it can be read and
/// written, and exactly the image can be executed.
pub proof fn law_plan_maps_the_memory_in_use(
    descriptors: Seq<UefiMemoryDescriptor>,
    image_start: u64,
    image_end: u64,
    addr: int,
)
    requires
        image_start <= image_end,
        plan_error(descriptors, image_start as int, image_end as int) is None,
    ensures
        ({
            let parts = plan_parts(descriptors, image_start as int, image_end as int);
            &&& is_kept(descriptors, addr) <==> exists|k: int|
                0 <= k < parts.len() && (#[trigger] parts[k]).holds(addr)
            &&& forall|k: int|
                0 <= k < parts.len() && (#[trigger] parts[k]).holds(addr) ==> parts[k].permissions
                    == (SegmentPerms {
                    read: true,
                    write: true,
                    execute: image_start <= addr < image_end,
                })
        }),
    decreases descriptors.len(),
{
    let parts = plan_parts(descriptors, image_start as int, image_end as int);
    if descriptors.len() > 0 {
        let fewer = descriptors.drop_last();
        let last = descriptors.last();
        let before = plan_parts(fewer, image_start as int, image_end as int);
        let more = transition_of(last, image_start as int, image_end as int)->Ok_0;
        law_plan_maps_the_memory_in_use(fewer, image_start, image_end, addr);
        law_transition_maps_the_descriptor(last, image_start, image_end, addr);
        assert(parts == before + listed(more));
        assert forall|k: int| 0 <= k < parts.len() && (#[trigger] parts[k]).holds(
            addr,
        ) implies parts[k].permissions == (SegmentPerms {
            read: true,
            write: true,
            execute: image_start <= addr < image_end,
        }) && is_kept(descriptors, addr) by {
            if k < before.len() {
                assert(parts[k] == before[k]);
                let i = choose|i: int|
                    0 <= i < fewer.len() && stays_mapped((#[trigger] fewer[i]).memory_type)
                        && fewer[i].phys_start <= addr < descriptor_end(fewer[i]);
                assert(descriptors[i] == fewer[i]);
            } else {
                assert(parts[k] == listed(more)[k - before.len()]);
                assert(descriptors[descriptors.len() - 1] == last);
            }
        }
        if is_kept(descriptors, addr) {
            let i = choose|i: int|
                0 <= i < descriptors.len() && stays_mapped((#[trigger] descriptors[i]).memory_type)
                    && descriptors[i].phys_start <= addr < descriptor_end(descriptors[i]);
            if i < fewer.len() {
                assert(fewer[i] == descriptors[i]);
                let k = choose|k: int| 0 <= k < before.len() && (#[trigger] before[k]).holds(addr);
                assert(parts[k] == before[k]);
            } else {
                let n = before.len() as int;
                let a = one(more.before).len() as int;
                let b = one(more.image).len() as int;
                if more.before is Some && more.before->0.holds(addr) {
                    assert(parts[n] == more.before->0);
                } else if more.image is Some && more.image->0.holds(addr) {
                    assert(parts[n + a] == more.image->0);
                } else {
                    assert(parts[n + a + b] == more.behind->0);
                }
            }
        }
    }
}

/// Whether no two descriptors of memory that is still needed share an address.
pub open spec fn descriptors_apart(descriptors: Seq<UefiMemoryDescriptor>) -> bool {
    forall|i: int, j: int|
        #![trigger descriptors[i], descriptors[j]]
        0 <= i < j < descriptors.len() && stays_mapped(descriptors[i].memory_type) && stays_mapped(
            descriptors[j].memory_type,
        ) ==> descriptor_end(descriptors[i]) <= descriptors[j].phys_start || descriptor_end(
            descriptors[j],
        ) <= descriptors[i].phys_start
}

/// What is mapped is memory that is still needed.
proof fn lemma_parts_are_kept(
    descriptors: Seq<UefiMemoryDescriptor>,
    image_start: u64,
    image_end: u64,
    addr: int,
    k: int,
)
    requires
        image_start <= image_end,
        0 <= k < plan_parts(descriptors, image_start as int, image_end as int).len(),
        plan_parts(descriptors, image_start as int, image_end as int)[k].holds(addr),
    ensures
        is_kept(descriptors, addr),
    decreases descriptors.len(),
{
    if descriptors.len() > 0 {
        let fewer = descriptors.drop_last();
        let last = descriptors.last();
        let before = plan_parts(fewer, image_start as int, image_end as int);
        assert(descriptors[descriptors.len() - 1] == last);
        if k < before.len() {
            lemma_parts_are_kept(fewer, image_start, image_end, addr, k);
            let i = choose|i: int|
                0 <= i < fewer.len() && stays_mapped((#[trigger] fewer[i]).memory_type)
                    && fewer[i].phys_start <= addr < descriptor_end(fewer[i]);
            assert(descriptors[i] == fewer[i]);
        } else {
            law_transition_maps_the_descriptor(last, image_start, image_end, addr);
        }
    }
}

/// Where the descriptors share no address, the whole plan maps no address twice.
pub proof fn law_plan_maps_nothing_twice(
    descriptors: Seq<UefiMemoryDescriptor>,
    image_start: u64,
    image_end: u64,
    addr: int,
    k: int,
    l: int,
)
    requires
        image_start <= image_end,
        descriptors_apart(descriptors),
        0 <= k < l < plan_parts(descriptors, image_start as int, image_end as int).len(),
    ensures
        ({
            let parts = plan_parts(descriptors, image_start as int, image_end as int);
            !(parts[k].holds(addr) && parts[l].holds(addr))
        }),
    decreases descriptors.len(),
{
    let parts = plan_parts(descriptors, image_start as int, image_end as int);
    if descriptors.len() > 0 && parts[k].holds(addr) && parts[l].holds(addr) {
        let fewer = descriptors.drop_last();
        let n = descriptors.len() - 1;
        let last = descriptors[n];
        let before = plan_parts(fewer, image_start as int, image_end as int);
        assert forall|i: int, j: int|
            #![trigger fewer[i], fewer[j]]
            0 <= i < j < fewer.len() && stays_mapped(fewer[i].memory_type) && stays_mapped(
                fewer[j].memory_type,
            ) implies descriptor_end(fewer[i]) <= fewer[j].phys_start || descriptor_end(fewer[j])
            <= fewer[i].phys_start by {
            assert(fewer[i] == descriptors[i] && fewer[j] == descriptors[j]);
        }
        if l < before.len() {
            law_plan_maps_nothing_twice(fewer, image_start, image_end, addr, k, l);
        } else if k < before.len() {
            lemma_parts_are_kept(fewer, image_start, image_end, addr, k);
            law_transition_maps_the_descriptor(last, image_start, image_end, addr);
            let i = choose|i: int|
                0 <= i < fewer.len() && stays_mapped((#[trigger] fewer[i]).memory_type)
                    && fewer[i].phys_start <= addr < descriptor_end(fewer[i]);
            assert(fewer[i] == descriptors[i]);
        } else {
            law_transition_parts_are_disjoint(last, image_start, image_end, addr);
        }
    }
}

// ---------------------------------------------------------------------------------------------
// What the operations are for
// ---------------------------------------------------------------------------------------------
/// Memory is still needed if and only if its type is one of the loader's, the boot services', the
/// runtime services' or the ACPI tables'.
pub proof fn law_memory_in_use_is_kept(memory_type: u32)
    ensures
        stays_mapped(memory_type) <==> seq![1u32, 2, 3, 4, 5, 6, 9, 10].contains(memory_type),
{
    let kept = seq![1u32, 2, 3, 4, 5, 6, 9, 10];
    if stays_mapped(memory_type) {
        if memory_type <= 6 {
            assert(kept[memory_type - 1] == memory_type);
        } else {
            assert(kept[memory_type - 3] == memory_type);
        }
    }
}

/// A range is there if and only if it is not empty; it then has its start, its length and its
/// permissions.
pub proof fn law_parts_are_their_ranges(start: u64, end: u64, permissions: SegmentPerms)
    ensures
        part_of(start as int, end as int, permissions) is Some <==> start < end,
        part_of(start as int, end as int, permissions) matches Some(part) ==> part.start == start
            && part.start + part.byte_len == end && part.permissions == permissions,
{
}

/// The memory of a descriptor cannot be mapped if and only if it is still needed, there is some, and
/// its end is not an address.
pub proof fn law_only_memory_without_an_end_is_refused(
    descriptor: UefiMemoryDescriptor,
    image_start: u64,
    image_end: u64,
)
    ensures
        transition_of(descriptor, image_start as int, image_end as int) is Err <==> stays_mapped(
            descriptor.memory_type,
        ) && descriptor.page_count > 0 && descriptor.phys_start + descriptor.page_count * 4096
            > u64::MAX,
        transition_of(descriptor, image_start as int, image_end as int) is Err ==> transition_of(
            descriptor,
            image_start as int,
            image_end as int,
        )->Err_0 == BootError::TransitionMapping,
{
}

/// What is mapped before, in and behind the image is the memory of the descriptor there: of each
/// address it is said where it lies and what it can be used for.
pub proof fn law_parts_are_before_in_and_behind_the_image(
    descriptor: UefiMemoryDescriptor,
    image_start: u64,
    image_end: u64,
    addr: int,
)
    requires
        image_start <= image_end,
        stays_mapped(descriptor.memory_type),
        descriptor.phys_start + descriptor.page_count * 4096 <= u64::MAX,
    ensures
        ({
            let outcome = transition_of(descriptor, image_start as int, image_end as int);
            let parts = outcome->Ok_0;
            let inside = descriptor.phys_start <= addr < descriptor.phys_start
                + descriptor.page_count * 4096;
            let at = |part: Option<TransitionPart>|
                part is Some && part->0.start <= addr < part->0.start + part->0.byte_len;
            &&& outcome is Ok
            &&& at(parts.before) <==> inside && addr < image_start
            &&& at(parts.image) <==> inside && image_start <= addr < image_end
            &&& at(parts.behind) <==> inside && image_end <= addr
            &&& parts.before matches Some(p) ==> p.byte_len > 0 && p.permissions.read
                && p.permissions.write && !p.permissions.execute
            &&& parts.image matches Some(p) ==> p.byte_len > 0 && p.permissions.read
                && p.permissions.write && p.permissions.execute
            &&& parts.behind matches Some(p) ==> p.byte_len > 0 && p.permissions.read
                && p.permissions.write && !p.permissions.execute
        }),
{
}

/// Memory that is not needed any more is not mapped.
pub proof fn law_other_memory_is_not_mapped(
    descriptor: UefiMemoryDescriptor,
    image_start: u64,
    image_end: u64,
)
    requires
        !stays_mapped(descriptor.memory_type),
    ensures
        ({
            let outcome = transition_of(descriptor, image_start as int, image_end as int);
            &&& outcome is Ok
            &&& outcome->Ok_0.before is None
            &&& outcome->Ok_0.image is None
            &&& outcome->Ok_0.behind is None
        }),
{
}

/// A plan has an error if and only if some descriptor of memory that is still needed has an end that
/// is not an address.
pub proof fn law_a_plan_fails_only_where_it_must(
    descriptors: Seq<UefiMemoryDescriptor>,
    image_start: u64,
    image_end: u64,
)
    ensures
        plan_error(descriptors, image_start as int, image_end as int) is None <==> forall|i: int|
            0 <= i < descriptors.len() && stays_mapped((#[trigger] descriptors[i]).memory_type)
                && descriptors[i].page_count > 0 ==> descriptors[i].phys_start
                + descriptors[i].page_count * 4096 <= u64::MAX,
        plan_error(descriptors, image_start as int, image_end as int) is Some ==> plan_error(
            descriptors,
            image_start as int,
            image_end as int,
        )->0 == BootError::TransitionMapping,
    decreases descriptors.len(),
{
    if descriptors.len() > 0 {
        let fewer = descriptors.drop_last();
        let n = descriptors.len() - 1;
        law_a_plan_fails_only_where_it_must(fewer, image_start, image_end);
        law_only_memory_without_an_end_is_refused(descriptors[n], image_start, image_end);
        assert forall|i: int| 0 <= i < n implies fewer[i] == descriptors[i] by {}
        if plan_error(fewer, image_start as int, image_end as int) is Some {
            let i = choose|i: int|
                0 <= i < fewer.len() && stays_mapped((#[trigger] fewer[i]).memory_type)
                    && fewer[i].page_count > 0 && !(fewer[i].phys_start + fewer[i].page_count * 4096
                    <= u64::MAX);
            assert(fewer[i] == descriptors[i]);
        } else {
            assert forall|i: int|
                0 <= i < n && stays_mapped((#[trigger] descriptors[i]).memory_type)
                    && descriptors[i].page_count > 0 implies descriptors[i].phys_start
                + descriptors[i].page_count * 4096 <= u64::MAX by {
                assert(fewer[i] == descriptors[i]);
            }
        }
    }
}

/// A plan lists the ranges of one descriptor after the other, those before, in and behind the image in
/// this order; a descriptor with an error adds none, and none is added after it.
pub proof fn law_plans_list_one_descriptor_after_the_other(
    descriptors: Seq<UefiMemoryDescriptor>,
    descriptor: UefiMemoryDescriptor,
    image_start: u64,
    image_end: u64,
)
    ensures
        ({
            let before = plan_parts(descriptors, image_start as int, image_end as int);
            let after = plan_parts(
                descriptors.push(descriptor),
                image_start as int,
                image_end as int,
            );
            let outcome = transition_of(descriptor, image_start as int, image_end as int);
            let failed = plan_error(descriptors, image_start as int, image_end as int) is Some
                || outcome is Err;
            let a = if outcome->Ok_0.before is Some {
                1int
            } else {
                0int
            };
            let b = if outcome->Ok_0.image is Some {
                1int
            } else {
                0int
            };
            let c = if outcome->Ok_0.behind is Some {
                1int
            } else {
                0int
            };
            let n = before.len() as int;
            &&& plan_parts(Seq::empty(), image_start as int, image_end as int).len() == 0
            &&& failed ==> after == before
            &&& !failed ==> {
                &&& after.len() == n + a + b + c
                &&& after.take(n) == before
                &&& a == 1 ==> after[n] == outcome->Ok_0.before->0
                &&& b == 1 ==> after[n + a] == outcome->Ok_0.image->0
                &&& c == 1 ==> after[n + a + b] == outcome->Ok_0.behind->0
            }
        }),
{
    assert(descriptors.push(descriptor).drop_last() =~= descriptors);
    let before = plan_parts(descriptors, image_start as int, image_end as int);
    let after = plan_parts(descriptors.push(descriptor), image_start as int, image_end as int);
    if plan_error(descriptors.push(descriptor), image_start as int, image_end as int) is None {
        assert(after.take(before.len() as int) =~= before);
    }
}

} // verus!
