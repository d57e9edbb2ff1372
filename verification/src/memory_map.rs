//! The memory map of the firmware: a buffer of descriptors, each `descriptor_size` bytes apart.
use vstd::prelude::*;

verus! {

/// The size of the part of a descriptor that is read here.
pub const DESCRIPTOR_BYTES: usize = 40;

/// One range of memory, as the firmware describes it.
#[derive(Clone, Copy, Debug, Eq, PartialEq)]
pub struct UefiMemoryDescriptor {
    pub memory_type: u32,
    pub padding: u32,
    pub phys_start: u64,
    pub virt_start: u64,
    pub page_count: u64,
    pub attributes: u64,
}

/// The number that four bytes from `i` on write, lowest byte first.
pub open spec fn u32_at(bytes: Seq<u8>, i: int) -> u32 {
    (bytes[i] + bytes[i + 1] * 0x100 + bytes[i + 2] * 0x1_0000 + bytes[i + 3] * 0x100_0000) as u32
}

/// The number that eight bytes from `i` on write, lowest byte first.
pub open spec fn u64_at(bytes: Seq<u8>, i: int) -> u64 {
    (u32_at(bytes, i) + u32_at(bytes, i + 4) * 0x1_0000_0000) as u64
}

/// The descriptor that is written from `i` on.
pub open spec fn descriptor_at(bytes: Seq<u8>, i: int) -> UefiMemoryDescriptor {
    UefiMemoryDescriptor {
        memory_type: u32_at(bytes, i),
        padding: u32_at(bytes, i + 4),
        phys_start: u64_at(bytes, i + 8),
        virt_start: u64_at(bytes, i + 16),
        page_count: u64_at(bytes, i + 24),
        attributes: u64_at(bytes, i + 32),
    }
}

fn read_u32(bytes: &[u8], i: usize) -> (r: u32)
    requires
        i + 4 <= bytes@.len(),
    ensures
        r == u32_at(bytes@, i as int),
{
    bytes[i] as u32 + bytes[i + 1] as u32 * 0x100 + bytes[i + 2] as u32 * 0x1_0000 + bytes[i
        + 3] as u32 * 0x100_0000
}

fn read_u64(bytes: &[u8], i: usize) -> (r: u64)
    requires
        i + 8 <= bytes@.len(),
    ensures
        r == u64_at(bytes@, i as int),
{
    assert(bytes.len() == bytes@.len());
    read_u32(bytes, i) as u64 + read_u32(bytes, i + 4) as u64 * 0x1_0000_0000
}

/// A memory map.
#[derive(Clone, Copy, Debug)]
pub struct MemoryMap<'a> {
    buffer: &'a [u8],
    buffer_len: usize,
    descriptor_size: usize,
    descriptor_version: u32,
}

/// The number of descriptors in a buffer.
pub open spec fn descriptor_count(buffer_len: int, descriptor_size: int) -> int {
    if descriptor_size == 0 {
        0
    } else {
        buffer_len / descriptor_size
    }
}

/// The descriptors in a buffer; none where they are too small to be read.
pub open spec fn descriptors(bytes: Seq<u8>, buffer_len: int, descriptor_size: int) -> Seq<
    UefiMemoryDescriptor,
> {
    if descriptor_size < DESCRIPTOR_BYTES {
        Seq::empty()
    } else {
        Seq::new(
            descriptor_count(buffer_len, descriptor_size) as nat,
            |i: int| descriptor_at(bytes, i * descriptor_size),
        )
    }
}

impl<'a> MemoryMap<'a> {
    #[verifier::type_invariant]
    spec fn wf(self) -> bool {
        self.buffer_len <= self.buffer@.len()
    }

    /// The bytes of the buffer.
    pub closed spec fn bytes(self) -> Seq<u8> {
        self.buffer@
    }

    /// How many of them are in use.
    pub closed spec fn used(self) -> int {
        self.buffer_len as int
    }

    /// How far apart descriptors are.
    pub closed spec fn step(self) -> int {
        self.descriptor_size as int
    }

    /// The version of the descriptors.
    pub closed spec fn version(self) -> u32 {
        self.descriptor_version
    }

    /// The descriptors.
    pub open spec fn descriptors(self) -> Seq<UefiMemoryDescriptor> {
        descriptors(self.bytes(), self.used(), self.step())
    }

    /// A memory map in a buffer, of which the first `buffer_len` bytes are in use.
    pub fn from_raw_parts(
        buffer: &'a [u8],
        buffer_len: usize,
        descriptor_size: usize,
        descriptor_version: u32,
    ) -> (r: Self)
        requires
            buffer_len <= buffer@.len(),
        ensures
            r.bytes() == buffer@,
            r.used() == buffer_len,
            r.step() == descriptor_size,
            r.version() == descriptor_version,
    {
        MemoryMap { buffer, buffer_len, descriptor_size, descriptor_version }
    }

    /// The buffer.
    pub fn buffer(&self) -> (r: &'a [u8])
        ensures
            r@ == self.bytes(),
    {
        self.buffer
    }

    /// How many bytes of the buffer are in use.
    pub fn buffer_len(&self) -> (r: usize)
        ensures
            r == self.used(),
            r <= self.bytes().len(),
    {
        proof {
            use_type_invariant(self);
        }
        self.buffer_len
    }

    /// How far apart descriptors are.
    pub fn descriptor_size(&self) -> (r: usize)
        ensures
            r == self.step(),
    {
        self.descriptor_size
    }

    /// The version of the descriptors.
    pub fn descriptor_version(&self) -> (r: u32)
        ensures
            r == self.version(),
    {
        self.descriptor_version
    }

    /// The number of descriptors.
    pub fn len(&self) -> (r: usize)
        ensures
            r == descriptor_count(self.used(), self.step()),
    {
        if self.descriptor_size == 0 {
            0
        } else {
            self.buffer_len / self.descriptor_size
        }
    }

    /// Whether there is no descriptor.
    pub fn is_empty(&self) -> (r: bool)
        ensures
            r == (descriptor_count(self.used(), self.step()) == 0),
    {
        self.len() == 0
    }

    /// Goes through the descriptors from the first one on.
    pub fn iter(&self) -> (r: MemoryMapIter<'a>)
        ensures
            r.remaining() == self.descriptors(),
            0 <= self.used() <= self.bytes().len(),
    {
        proof {
            use_type_invariant(self);
        }
        let r = MemoryMapIter { map: *self, index: 0 };
        assert(r.remaining() =~= self.descriptors());
        r
    }
}

/// A position in a memory map.
#[derive(Clone, Copy, Debug)]
pub struct MemoryMapIter<'a> {
    map: MemoryMap<'a>,
    index: usize,
}

impl<'a> MemoryMapIter<'a> {
    /// The descriptors from the position on.
    pub closed spec fn remaining(self) -> Seq<UefiMemoryDescriptor> {
        let all = self.map.descriptors();
        if self.index <= all.len() {
            all.skip(self.index as int)
        } else {
            Seq::empty()
        }
    }

    /// The next descriptor.
    pub fn next(&mut self) -> (r: Option<UefiMemoryDescriptor>)
        ensures
            match r {
                Some(descriptor) => {
                    &&& old(self).remaining().len() > 0
                    &&& descriptor == old(self).remaining()[0]
                    &&& final(self).remaining() == old(self).remaining().drop_first()
                },
                None => {
                    &&& old(self).remaining().len() == 0
                    &&& final(self).remaining() == old(self).remaining()
                },
            },
    {
        let map = self.map;
        proof {
            use_type_invariant(&map);
        }
        let n: usize = map.len();
        if self.index >= n || map.descriptor_size < DESCRIPTOR_BYTES {
            return None;
        }
        let size: usize = map.descriptor_size;
        proof {
            lemma_in_buffer(self.index as int, map.buffer_len as int, size as int);
        }
        let offset: usize = self.index * size;
        let ghost before = self.remaining();
        self.index = self.index + 1;
        assert(self.remaining() =~= before.drop_first());
        let bytes = map.buffer;
        Some(
            UefiMemoryDescriptor {
                memory_type: read_u32(bytes, offset),
                padding: read_u32(bytes, offset + 4),
                phys_start: read_u64(bytes, offset + 8),
                virt_start: read_u64(bytes, offset + 16),
                page_count: read_u64(bytes, offset + 24),
                attributes: read_u64(bytes, offset + 32),
            },
        )
    }
}

/// A descriptor that the buffer has room for lies within it.
proof fn lemma_in_buffer(index: int, buffer_len: int, size: int)
    requires
        0 < size,
        0 <= index < buffer_len / size,
    ensures
        0 <= index * size,
        index * size + size <= buffer_len,
{
    vstd::arithmetic::div_mod::lemma_fundamental_div_mod(buffer_len, size);
    vstd::arithmetic::div_mod::lemma_mod_bound(buffer_len, size);
    assert(index * size + size <= size * (buffer_len / size)) by (nonlinear_arith)
        requires
            index + 1 <= buffer_len / size,
            0 < size,
    ;
    assert(0 <= index * size) by (nonlinear_arith)
        requires
            0 <= index,
            0 < size,
    ;
}

/// Every descriptor lies within the part of the buffer that is in use, and no two of them share a
/// byte.
pub proof fn law_descriptors_lie_in_the_buffer(
    bytes: Seq<u8>,
    buffer_len: int,
    descriptor_size: int,
    i: int,
    j: int,
)
    requires
        0 <= buffer_len <= bytes.len(),
        0 <= i < descriptors(bytes, buffer_len, descriptor_size).len(),
        0 <= j < descriptors(bytes, buffer_len, descriptor_size).len(),
    ensures
        descriptors(bytes, buffer_len, descriptor_size)[i] == descriptor_at(
            bytes,
            i * descriptor_size,
        ),
        0 <= i * descriptor_size,
        i * descriptor_size + DESCRIPTOR_BYTES <= buffer_len,
        i < j ==> i * descriptor_size + DESCRIPTOR_BYTES <= j * descriptor_size,
{
    lemma_in_buffer(i, buffer_len, descriptor_size);
    if i < j {
        assert(i * descriptor_size + descriptor_size <= j * descriptor_size) by (nonlinear_arith)
            requires
                i + 1 <= j,
                0 < descriptor_size,
        ;
    }
}

/// A number is its bytes, the lowest first: a descriptor's fields stand one behind the other, two of
/// four bytes and then four of eight.
pub proof fn law_descriptors_are_their_bytes(bytes: Seq<u8>, i: int)
    requires
        0 <= i,
        i + 40 <= bytes.len(),
    ensures
        ({
            let d = descriptor_at(bytes, i);
            &&& d.memory_type == bytes[i] + bytes[i + 1] * 0x100 + bytes[i + 2] * 0x1_0000 + bytes[i
                + 3] * 0x100_0000
            &&& d.padding == bytes[i + 4] + bytes[i + 5] * 0x100 + bytes[i + 6] * 0x1_0000 + bytes[i
                + 7] * 0x100_0000
            &&& d.phys_start == from_lowest(bytes.subrange(i + 8, i + 16))
            &&& d.virt_start == from_lowest(bytes.subrange(i + 16, i + 24))
            &&& d.page_count == from_lowest(bytes.subrange(i + 24, i + 32))
            &&& d.attributes == from_lowest(bytes.subrange(i + 32, i + 40))
        }),
{
    assert forall|a: int, k: int| 8 <= a <= 32 && 0 <= k < 8 implies #[trigger] bytes.subrange(
        i + a,
        i + a + 8,
    )[k] == bytes[i + a + k] by {}
    lemma_eight_bytes(bytes, i + 8);
    lemma_eight_bytes(bytes, i + 16);
    lemma_eight_bytes(bytes, i + 24);
    lemma_eight_bytes(bytes, i + 32);
}

/// The number that bytes write, the lowest first: each byte is worth as much as all bytes before it
/// and one.
pub open spec fn from_lowest(bytes: Seq<u8>) -> int
    decreases bytes.len(),
{
    if bytes.len() == 0 {
        0
    } else {
        bytes[0] + 256 * from_lowest(bytes.drop_first())
    }
}

/// What eight bytes write.
proof fn lemma_eight_bytes(bytes: Seq<u8>, i: int)
    requires
        0 <= i,
        i + 8 <= bytes.len(),
    ensures
        u64_at(bytes, i) == from_lowest(bytes.subrange(i, i + 8)),
{
    let b = bytes.subrange(i, i + 8);
    reveal_with_fuel(from_lowest, 9);
    let b1 = b.drop_first();
    let b2 = b1.drop_first();
    let b3 = b2.drop_first();
    let b4 = b3.drop_first();
    let b5 = b4.drop_first();
    let b6 = b5.drop_first();
    let b7 = b6.drop_first();
    assert(b[0] == bytes[i] && b1[0] == bytes[i + 1] && b2[0] == bytes[i + 2] && b3[0] == bytes[i
        + 3] && b4[0] == bytes[i + 4] && b5[0] == bytes[i + 5] && b6[0] == bytes[i + 6] && b7[0]
        == bytes[i + 7]);
    assert(b7.drop_first().len() == 0);
}

/// There are as many descriptors as fit, one behind the other; those too small to be read are not
/// handed out, and all others are, in order.
pub proof fn law_all_descriptors_are_handed_out(
    bytes: Seq<u8>,
    buffer_len: int,
    descriptor_size: int,
    i: int,
)
    requires
        0 <= buffer_len,
        0 <= descriptor_size,
    ensures
        ({
            let n = descriptor_count(buffer_len, descriptor_size);
            &&& descriptor_size == 0 ==> n == 0
            &&& descriptor_size > 0 ==> n * descriptor_size <= buffer_len < (n + 1) * descriptor_size
            &&& descriptor_size < 40 ==> descriptors(bytes, buffer_len, descriptor_size).len() == 0
            &&& descriptor_size >= 40 ==> descriptors(bytes, buffer_len, descriptor_size).len() == n
            &&& descriptor_size >= 40 && 0 <= i < n ==> descriptors(
                bytes,
                buffer_len,
                descriptor_size,
            )[i] == descriptor_at(bytes, i * descriptor_size)
        }),
{
    if descriptor_size > 0 {
        let n = buffer_len / descriptor_size;
        vstd::arithmetic::div_mod::lemma_fundamental_div_mod(buffer_len, descriptor_size);
        vstd::arithmetic::div_mod::lemma_mod_bound(buffer_len, descriptor_size);
        assert(n * descriptor_size <= buffer_len < (n + 1) * descriptor_size && 0 <= n)
            by (nonlinear_arith)
            requires
                buffer_len == descriptor_size * n + buffer_len % descriptor_size,
                0 <= buffer_len % descriptor_size < descriptor_size,
                0 <= buffer_len,
        ;
    }
}

/// The descriptors of a map are those in the part of its buffer that is in use.
pub proof fn law_maps_have_the_descriptors_of_their_buffer(map: MemoryMap)
    ensures
        map.descriptors() == descriptors(map.bytes(), map.used(), map.step()),
{
}

} // verus!
