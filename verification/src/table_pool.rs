//! Memory for translation tables.
//!
//! Tables are cut, one after the other, out of chunks of zeroed memory that the firmware hands out.
//! Nothing is given back, so no two tables share a byte and every table starts out as zeros.
use crate::align::{
    aligned_down, aligned_up, law_alignment_is_the_nearest_multiple, lemma_aligned, lemma_divides_usize_range, lemma_mask_u64,
    lemma_mask_usize, lemma_pow2_values, PAGE_SIZE,
};
use crate::mapper::{GranuleKind, MapperError};
use vstd::arithmetic::power2::is_pow2;
use vstd::prelude::*;

verus! {

/// The size and the alignment of a table.
#[derive(Clone, Copy, Debug, Eq, PartialEq)]
pub struct TableAllocLayout {
    bytes: usize,
    align: usize,
}

impl TableAllocLayout {
    /// The size in bytes.
    pub closed spec fn bytes(self) -> int {
        self.bytes as int
    }

    /// The alignment in bytes.
    pub closed spec fn align(self) -> int {
        self.align as int
    }

    /// Sizes are not negative, and alignments are powers of two.
    pub open spec fn valid(self) -> bool {
        0 <= self.bytes() <= usize::MAX && is_pow2(self.align())
    }

    #[verifier::type_invariant]
    spec fn wf(self) -> bool {
        is_pow2(self.align as int)
    }

    /// A layout; the alignment has to be a power of two.
    pub fn new(bytes: usize, align: usize) -> (r: Option<Self>)
        ensures
            match r {
                Some(layout) => is_pow2(align as int) && layout.bytes() == bytes && layout.align()
                    == align,
                None => !is_pow2(align as int),
            },
    {
        if crate::align::is_power_of_two(align as u64) {
            Some(TableAllocLayout { bytes, align })
        } else {
            None
        }
    }
}

/// A chunk of memory and how much of it is in use.
#[derive(Debug)]
pub struct PoolChunk {
    base: u64,
    bytes: usize,
    used: usize,
}

/// A `PoolChunk` as a mathematical value.
pub struct ChunkModel {
    pub base: int,
    pub bytes: int,
    pub used: int,
}

impl View for PoolChunk {
    type V = ChunkModel;

    closed spec fn view(&self) -> ChunkModel {
        ChunkModel { base: self.base as int, bytes: self.bytes as int, used: self.used as int }
    }
}

impl ChunkModel {
    /// The chunk lies within 64-bit addresses, and no more of it is in use than there is.
    pub open spec fn inv(self) -> bool {
        0 <= self.base <= u64::MAX && 0 <= self.used <= self.bytes && self.base + self.bytes
            <= u64::MAX + 1 && self.bytes <= usize::MAX
    }

    /// Whether a table of this layout, if it fits, has an address. Only an empty table at the very
    /// end of the address space has none.
    pub open spec fn addressable(self, bytes: int, align: int) -> bool {
        self.fits(bytes, align) ==> self.address(align) <= u64::MAX
    }

    /// Where in the chunk the next table of this alignment starts.
    pub open spec fn next(self, align: int) -> int {
        aligned_up(self.used, align)
    }

    /// Whether a table of this layout fits into what is left.
    pub open spec fn fits(self, bytes: int, align: int) -> bool {
        self.next(align) + bytes <= self.bytes
    }

    /// The chunk after a table of this layout has been cut out of it.
    pub open spec fn after(self, bytes: int, align: int) -> ChunkModel {
        ChunkModel { used: self.next(align) + bytes, ..self }
    }

    /// The address of the next table of this alignment.
    pub open spec fn address(self, align: int) -> int {
        self.base + self.next(align)
    }
}

/// The largest multiple of `align` up to `value` is not below any other.
proof fn lemma_aligned_down_is_largest(value: int, align: int, multiple: int)
    requires
        0 < align,
        0 <= multiple <= value,
        multiple % align == 0,
    ensures
        multiple <= aligned_down(value, align),
{
    vstd::arithmetic::div_mod::lemma_fundamental_div_mod(value, align);
    vstd::arithmetic::div_mod::lemma_fundamental_div_mod(multiple, align);
    vstd::arithmetic::div_mod::lemma_div_is_ordered(multiple, value, align);
    assert(align * (multiple / align) <= align * (value / align)) by (nonlinear_arith)
        requires
            multiple / align <= value / align,
            0 < align,
    ;
}

/// Fills memory with zeros.
fn fill_with_zeros(memory: &mut [u8])
    ensures
        final(memory)@ == Seq::new(old(memory)@.len(), |i: int| 0u8),
{
    let n: usize = memory.len();
    let mut i: usize = 0;
    while i < n
        invariant
            i <= n,
            n == memory@.len(),
            forall|j: int| 0 <= j < i ==> memory@[j] == 0,
        decreases n - i,
    {
        memory[i] = 0;
        i = i + 1;
    }
    assert(memory@ =~= Seq::new(n as nat, |i: int| 0u8));
}

impl PoolChunk {
    #[verifier::type_invariant]
    spec fn wf(self) -> bool {
        self@.inv()
    }

    /// The address of the first byte.
    pub fn base(&self) -> (r: u64)
        ensures
            r == self@.base,
    {
        self.base
    }

    /// The length in bytes.
    pub fn bytes(&self) -> (r: usize)
        ensures
            r == self@.bytes,
    {
        self.bytes
    }

    /// Cuts a table out of the chunk, if one fits, and hands out its address.
    pub fn allocate_from_chunk(&mut self, layout: TableAllocLayout) -> (r: Option<u64>)
        requires
            old(self)@.addressable(layout.bytes(), layout.align()),
        ensures
            layout.valid(),
            old(self)@.inv(),
            final(self)@.inv(),
            match r {
                Some(addr) => {
                    &&& old(self)@.fits(layout.bytes(), layout.align())
                    &&& addr == old(self)@.address(layout.align())
                    &&& final(self)@ == old(self)@.after(layout.bytes(), layout.align())
                },
                None => !old(self)@.fits(layout.bytes(), layout.align()) && final(self)@ == old(
                    self,
                )@,
            },
    {
        proof {
            use_type_invariant(&*self);
            use_type_invariant(&layout);
            lemma_divides_usize_range(layout.align);
            lemma_aligned(self.used as int, layout.align as int);
        }
        let align: usize = layout.align;
        let raised: usize = match self.used.checked_add(align - 1) {
            Some(raised) => raised,
            None => {
                proof {
                    lemma_aligned_down_is_largest(
                        self.used + align - 1,
                        align as int,
                        usize::MAX + 1,
                    );
                }
                return None;
            },
        };
        proof {
            lemma_mask_usize(raised, align);
        }
        let start: usize = raised & !(align - 1);
        let end: usize = match start.checked_add(layout.bytes) {
            Some(end) => end,
            None => {
                return None;
            },
        };
        if end > self.bytes {
            return None;
        }
        self.used = end;
        Some(self.base + start as u64)
    }
}

/// A chunk whose memory has to be cleared before tables are cut out of it.
#[derive(Debug)]
pub struct NewChunk {
    chunk: PoolChunk,
}

impl View for NewChunk {
    type V = ChunkModel;

    closed spec fn view(&self) -> ChunkModel {
        self.chunk@
    }
}

impl NewChunk {
    /// The address of the first byte.
    pub fn base(&self) -> (r: u64)
        ensures
            r == self@.base,
    {
        self.chunk.base()
    }

    /// The length in bytes.
    pub fn bytes(&self) -> (r: usize)
        ensures
            r == self@.bytes,
    {
        self.chunk.bytes()
    }

    /// Fills the memory of the chunk with zeros.
    pub fn clear(self, memory: &mut [u8]) -> (r: PoolChunk)
        requires
            old(memory)@.len() == self@.bytes,
        ensures
            final(memory)@ == Seq::new(self@.bytes as nat, |i: int| 0u8),
            r@ == self@,
    {
        fill_with_zeros(memory);
        self.chunk
    }
}

/// The number of pages that hold this many bytes.
pub open spec fn pages_of(bytes: int) -> int {
    aligned_up(bytes, PAGE_SIZE as int) / PAGE_SIZE as int
}

/// The number of pages that hold this many bytes.
fn page_count(bytes: usize) -> (r: usize)
    ensures
        r == pages_of(bytes as int),
        r * PAGE_SIZE >= bytes,
        r * PAGE_SIZE < bytes + PAGE_SIZE,
{
    let page: usize = PAGE_SIZE as usize;
    let whole: usize = bytes / page;
    if bytes % page == 0 {
        whole
    } else {
        whole + 1
    }
}

/// Rounds an address up to the granule.
fn granule_up(addr: u64, granule: GranuleKind) -> (r: Option<u64>)
    ensures
        match r {
            Some(up) => {
                &&& addr + granule.bytes() - 1 <= u64::MAX
                &&& up == aligned_up(addr as int, granule.bytes() as int)
                &&& addr <= up < addr + granule.bytes()
            },
            None => addr + granule.bytes() - 1 > u64::MAX,
        },
{
    let size: u64 = granule.size();
    proof {
        lemma_pow2_values();
        lemma_aligned(addr as int, size as int);
    }
    match addr.checked_add(size - 1) {
        Some(raised) => {
            proof {
                lemma_mask_u64(raised, size);
            }
            Some(raised & !(size - 1))
        },
        None => None,
    }
}

/// The chunk of a firmware allocation: it starts at the first multiple of the granule.
pub open spec fn chunk_of(
    granule: GranuleKind,
    allocation_base: int,
    allocation_bytes: int,
) -> ChunkModel {
    let base = aligned_up(allocation_base, granule.bytes() as int);
    ChunkModel { base, bytes: allocation_bytes - (base - allocation_base), used: 0 }
}

/// A pool that grows: where the last chunk is too small for a table, the next one is allocated.
#[derive(Debug)]
pub struct UefiTablePool {
    granule: GranuleKind,
    chunks: Vec<PoolChunk>,
}

/// The memory that a new chunk of a growing pool should have for a table of this size: at least
/// sixteen granules.
pub open spec fn chunk_wanted(granule: GranuleKind, bytes: int) -> int {
    if bytes > granule.bytes() * 16 {
        bytes
    } else {
        granule.bytes() * 16
    }
}

/// A `UefiTablePool` as a mathematical value.
pub struct PoolModel {
    pub granule: GranuleKind,
    /// Oldest first.
    pub chunks: Seq<ChunkModel>,
}

impl PoolModel {
    /// Every chunk is valid and starts at a multiple of the granule.
    pub open spec fn inv(self) -> bool {
        forall|k: int|
            #![trigger self.chunks[k]]
            0 <= k < self.chunks.len() ==> self.chunks[k].inv() && self.chunks[k].base
                % self.granule.bytes() as int == 0
    }

    /// Whether a table of this layout fits into the last chunk.
    pub open spec fn fits_last(self, bytes: int, align: int) -> bool {
        self.chunks.len() > 0 && self.chunks.last().fits(bytes, align)
    }

    /// Whether a table of this layout, if it fits into the last chunk, has an address.
    pub open spec fn addressable_last(self, bytes: int, align: int) -> bool {
        self.chunks.len() > 0 ==> self.chunks.last().addressable(bytes, align)
    }

    /// The pool after a table of this layout has been cut out of its last chunk.
    pub open spec fn from_last(self, bytes: int, align: int) -> PoolModel {
        PoolModel {
            chunks: self.chunks.update(
                self.chunks.len() - 1,
                self.chunks.last().after(bytes, align),
            ),
            ..self
        }
    }

    /// The pool after a table of this layout has been cut out of a new chunk.
    pub open spec fn from_new(self, chunk: ChunkModel, bytes: int, align: int) -> PoolModel {
        PoolModel { chunks: self.chunks.push(chunk.after(bytes, align)), ..self }
    }
}

/// What came of the last step of a request for a table.
#[derive(Debug)]
pub enum PoolReply {
    /// The request has just been made.
    Asked,
    /// The firmware has no memory.
    Refused,
    /// The firmware handed out memory.
    Allocated { base: u64, pages: usize },
    /// The new chunk has been cleared.
    Cleared(PoolChunk),
}

/// What a request for a table needs next.
#[derive(Debug)]
pub enum PoolStep {
    /// Memory of the firmware: this many pages.
    Allocate(usize),
    /// The new chunk has to be cleared.
    Clear(NewChunk),
    /// Nothing: the table is at this address.
    Done(u64),
}

impl PoolModel {
    /// The memory to ask the firmware for where no chunk has room for a table: enough for the table
    /// wherever the first multiple of the granule is.
    pub open spec fn bytes_wanted(self, bytes: int) -> int {
        chunk_wanted(self.granule, bytes) + self.granule.bytes() - 1
    }

    /// Whether a reply can come to a request for a table of this layout. Memory of the firmware
    /// lies within 64-bit addresses and is at least a granule; a chunk is one of this pool; and the
    /// table has an address.
    pub open spec fn takes(self, bytes: int, align: int, reply: PoolReply) -> bool {
        match reply {
            PoolReply::Asked => self.addressable_last(bytes, align),
            PoolReply::Refused => true,
            PoolReply::Allocated { base, pages } => {
                &&& self.granule.bytes() <= pages * PAGE_SIZE <= usize::MAX
                &&& base + self.granule.bytes() - 1 <= u64::MAX ==> base + pages * PAGE_SIZE
                    <= u64::MAX + 1
            },
            PoolReply::Cleared(chunk) => {
                &&& chunk@.base % self.granule.bytes() as int == 0
                &&& chunk@.addressable(bytes, align)
            },
        }
    }

    /// Whether `next` is what follows such a reply, and `after` is the pool then.
    pub open spec fn follows(
        self,
        bytes: int,
        align: int,
        reply: PoolReply,
        next: Result<PoolStep, MapperError>,
        after: PoolModel,
    ) -> bool {
        match reply {
            PoolReply::Asked => if self.fits_last(bytes, align) {
                &&& next == Ok::<PoolStep, MapperError>(
                    PoolStep::Done(self.chunks.last().address(align) as u64),
                )
                &&& after == self.from_last(bytes, align)
            } else {
                &&& next == if self.bytes_wanted(bytes) > usize::MAX {
                    Err::<PoolStep, MapperError>(MapperError::NoMemory)
                } else {
                    Ok(PoolStep::Allocate(pages_of(self.bytes_wanted(bytes)) as usize))
                }
                &&& after == self
            },
            PoolReply::Refused => {
                &&& next == Err::<PoolStep, MapperError>(MapperError::NoMemory)
                &&& after == self
            },
            PoolReply::Allocated { base, pages } => {
                &&& if base + self.granule.bytes() - 1 > u64::MAX {
                    next == Err::<PoolStep, MapperError>(MapperError::NoMemory)
                } else {
                    &&& next matches Ok(PoolStep::Clear(chunk))
                    &&& chunk@ == chunk_of(self.granule, base as int, pages * PAGE_SIZE)
                    &&& chunk@.inv()
                    &&& chunk@.base % self.granule.bytes() as int == 0
                }
                &&& after == self
            },
            PoolReply::Cleared(chunk) => if chunk@.fits(bytes, align) {
                &&& next == Ok::<PoolStep, MapperError>(
                    PoolStep::Done(chunk@.address(align) as u64),
                )
                &&& after == self.from_new(chunk@, bytes, align)
            } else {
                &&& next == Err::<PoolStep, MapperError>(MapperError::InvalidGeometry)
                &&& after == self
            },
        }
    }
}

impl View for UefiTablePool {
    type V = PoolModel;

    closed spec fn view(&self) -> PoolModel {
        PoolModel {
            granule: self.granule,
            chunks: self.chunks@.map_values(|chunk: PoolChunk| chunk@),
        }
    }
}

impl UefiTablePool {
    #[verifier::type_invariant]
    spec fn wf(self) -> bool {
        self@.inv()
    }

    /// A pool without memory.
    pub fn new(granule: GranuleKind) -> (r: Self)
        ensures
            r@ == (PoolModel { granule, chunks: Seq::empty() }),
            r@.inv(),
    {
        let r = UefiTablePool { granule, chunks: Vec::new() };
        assert(r@.chunks =~= Seq::<ChunkModel>::empty());
        r
    }

    /// Goes on with a request for a table, which starts with `Asked`. The table is cut out of the
    /// last chunk. Only where it does not fit there, memory of the firmware is asked for, and the
    /// table is cut out of a new chunk.
    pub fn allocate_zeroed_table(&mut self, layout: TableAllocLayout, reply: PoolReply) -> (r:
        Result<PoolStep, MapperError>)
        requires
            old(self)@.takes(layout.bytes(), layout.align(), reply),
        ensures
            layout.valid(),
            old(self)@.inv(),
            final(self)@.inv(),
            old(self)@.follows(layout.bytes(), layout.align(), reply, r, final(self)@),
    {
        proof {
            use_type_invariant(&*self);
            use_type_invariant(&layout);
        }
        match reply {
            PoolReply::Asked => match self.allocate_from_last(layout) {
                Some(addr) => Ok(PoolStep::Done(addr)),
                None => match self.pages_wanted(layout) {
                    Ok(pages) => Ok(PoolStep::Allocate(pages)),
                    Err(e) => Err(e),
                },
            },
            PoolReply::Refused => Err(MapperError::NoMemory),
            PoolReply::Allocated { base, pages } => match self.new_chunk(base, pages) {
                Ok(chunk) => Ok(PoolStep::Clear(chunk)),
                Err(e) => Err(e),
            },
            PoolReply::Cleared(chunk) => match self.allocate_from_new(chunk, layout) {
                Ok(addr) => Ok(PoolStep::Done(addr)),
                Err(e) => Err(e),
            },
        }
    }

    /// Cuts a table out of the last chunk, if one fits.
    fn allocate_from_last(&mut self, layout: TableAllocLayout) -> (r: Option<u64>)
        requires
            old(self)@.addressable_last(layout.bytes(), layout.align()),
        ensures
            layout.valid(),
            old(self)@.inv(),
            final(self)@.inv(),
            match r {
                Some(addr) => {
                    &&& old(self)@.fits_last(layout.bytes(), layout.align())
                    &&& addr == old(self)@.chunks.last().address(layout.align())
                    &&& final(self)@ == old(self)@.from_last(layout.bytes(), layout.align())
                },
                None => {
                    &&& !old(self)@.fits_last(layout.bytes(), layout.align())
                    &&& final(self)@ == old(self)@
                },
            },
    {
        proof {
            use_type_invariant(&*self);
            use_type_invariant(&layout);
        }
        let ghost before = self@;
        let mut chunks: Vec<PoolChunk> = Vec::new();
        core::mem::swap(&mut chunks, &mut self.chunks);
        let ghost all = chunks@;
        assert(before.chunks =~= all.map_values(|chunk: PoolChunk| chunk@));
        let r = match chunks.pop() {
            Some(mut chunk) => {
                assert(all.last() == chunk);
                assert(before.chunks.last() == chunk@);
                let ghost whole = chunk@;
                let r = chunk.allocate_from_chunk(layout);
                let ghost cut = chunk@;
                chunks.push(chunk);
                let ghost after = chunks@.map_values(|chunk: PoolChunk| chunk@);
                proof {
                    assert(after =~= before.chunks.update(before.chunks.len() - 1, cut));
                    assert(r is None ==> after =~= before.chunks);
                    assert forall|k: int| #![trigger after[k]] 0 <= k < after.len() implies after[k].inv()
                        && after[k].base % before.granule.bytes() as int == 0 by {
                        assert(before.chunks[k].inv());
                        assert(cut.base == whole.base);
                    }
                }
                r
            },
            None => None,
        };
        self.chunks = chunks;
        r
    }

    /// The number of pages to allocate for the next chunk.
    fn pages_wanted(&self, layout: TableAllocLayout) -> (r: Result<usize, MapperError>)
        ensures
            ({
                let bytes = chunk_wanted(self@.granule, layout.bytes()) + self@.granule.bytes() - 1;
                match r {
                    Ok(pages) => bytes <= usize::MAX && pages == pages_of(bytes),
                    Err(e) => bytes > usize::MAX && e is NoMemory,
                }
            }),
    {
        let size: usize = self.granule.size() as usize;
        let wanted: usize = if layout.bytes > size * 16 {
            layout.bytes
        } else {
            size * 16
        };
        match wanted.checked_add(size - 1) {
            Some(bytes) => Ok(page_count(bytes)),
            None => Err(MapperError::NoMemory),
        }
    }

    /// The chunk of a firmware allocation of `pages` pages.
    fn new_chunk(&self, allocation_base: u64, pages: usize) -> (r: Result<NewChunk, MapperError>)
        requires
            self@.granule.bytes() <= pages * PAGE_SIZE <= usize::MAX,
            allocation_base + self@.granule.bytes() - 1 <= u64::MAX ==> allocation_base + pages
                * PAGE_SIZE <= u64::MAX + 1,
        ensures
            match r {
                Ok(chunk) => {
                    &&& allocation_base + self@.granule.bytes() - 1 <= u64::MAX
                    &&& chunk@ == chunk_of(
                        self@.granule,
                        allocation_base as int,
                        pages * PAGE_SIZE,
                    )
                    &&& chunk@.inv()
                    &&& chunk@.base % self@.granule.bytes() as int == 0
                },
                Err(e) => e is NoMemory && allocation_base + self@.granule.bytes() - 1 > u64::MAX,
            },
    {
        let base: u64 = match granule_up(allocation_base, self.granule) {
            Some(base) => base,
            None => {
                return Err(MapperError::NoMemory);
            },
        };
        proof {
            lemma_aligned(allocation_base as int, self.granule.bytes() as int);
        }
        let skipped: usize = (base - allocation_base) as usize;
        let bytes: usize = pages * PAGE_SIZE as usize - skipped;
        Ok(NewChunk { chunk: PoolChunk { base, bytes, used: 0 } })
    }

    /// Cuts a table out of a new chunk of this pool and keeps the chunk.
    fn allocate_from_new(&mut self, chunk: PoolChunk, layout: TableAllocLayout) -> (r: Result<
        u64,
        MapperError,
    >)
        requires
            chunk@.addressable(layout.bytes(), layout.align()),
            chunk@.base % old(self)@.granule.bytes() as int == 0,
        ensures
            layout.valid(),
            chunk@.inv(),
            old(self)@.inv(),
            final(self)@.inv(),
            match r {
                Ok(addr) => {
                    &&& chunk@.fits(layout.bytes(), layout.align())
                    &&& addr == chunk@.address(layout.align())
                    &&& final(self)@ == old(self)@.from_new(
                        chunk@,
                        layout.bytes(),
                        layout.align(),
                    )
                },
                Err(e) => {
                    &&& e is InvalidGeometry
                    &&& !chunk@.fits(layout.bytes(), layout.align())
                    &&& final(self)@ == old(self)@
                },
            },
    {
        proof {
            use_type_invariant(&*self);
        }
        let ghost before = self@;
        let mut chunk = chunk;
        match chunk.allocate_from_chunk(layout) {
            Some(addr) => {
                let ghost cut = chunk@;
                let mut chunks: Vec<PoolChunk> = Vec::new();
                core::mem::swap(&mut chunks, &mut self.chunks);
                chunks.push(chunk);
                let ghost after = chunks@.map_values(|chunk: PoolChunk| chunk@);
                proof {
                    assert(after =~= before.chunks.push(cut));
                    assert forall|k: int| #![trigger after[k]] 0 <= k < after.len() implies after[k].inv()
                        && after[k].base % before.granule.bytes() as int == 0 by {
                        if k < before.chunks.len() {
                            assert(before.chunks[k].inv());
                        }
                    }
                }
                self.chunks = chunks;
                Ok(addr)
            },
            None => Err(MapperError::InvalidGeometry),
        }
    }

    /// Takes a table back, which changes nothing: its memory is not used again.
    pub fn reclaim_table(&mut self) -> (r: Result<(), MapperError>)
        ensures
            r is Ok,
            final(self)@ == old(self)@,
    {
        Ok(())
    }
}

/// A pool with room for a fixed number of tables, whose memory has to be cleared first.
#[derive(Debug)]
pub struct NewFixedPool {
    chunk: PoolChunk,
}

impl NewFixedPool {
    /// The memory of the pool.
    pub closed spec fn chunk(self) -> ChunkModel {
        self.chunk@
    }

    /// The address of the first byte.
    pub fn base(&self) -> (r: u64)
        ensures
            r == self.chunk().base,
    {
        self.chunk.base()
    }

    /// The length in bytes.
    pub fn bytes(&self) -> (r: usize)
        ensures
            r == self.chunk().bytes,
    {
        self.chunk.bytes()
    }

    /// Fills the memory of the pool with zeros.
    pub fn clear(self, memory: &mut [u8]) -> (r: FixedTablePool)
        requires
            old(memory)@.len() == self.chunk().bytes,
        ensures
            final(memory)@ == Seq::new(self.chunk().bytes as nat, |i: int| 0u8),
            r.chunk() == self.chunk(),
    {
        fill_with_zeros(memory);
        FixedTablePool { chunk: self.chunk }
    }
}

/// A pool with room for a fixed number of tables.
#[derive(Debug)]
pub struct FixedTablePool {
    chunk: PoolChunk,
}

impl FixedTablePool {
    /// The memory of the pool.
    pub closed spec fn chunk(self) -> ChunkModel {
        self.chunk@
    }

    /// The pages for this many tables, wherever the first multiple of the granule is.
    pub open spec fn pages_for(granule: GranuleKind, table_count: int) -> int {
        pages_of(granule.bytes() * table_count + granule.bytes() - 1)
    }

    /// The memory for this many tables in an allocation.
    pub open spec fn chunk_in(granule: GranuleKind, table_count: int, base: int) -> ChunkModel {
        ChunkModel {
            base: aligned_up(base, granule.bytes() as int),
            bytes: granule.bytes() * table_count,
            used: 0,
        }
    }

    /// The number of pages to allocate for this many tables of one granule each.
    pub fn pages_wanted(granule: GranuleKind, table_count: usize) -> (r: Result<
        usize,
        MapperError,
    >)
        ensures
            ({
                let bytes = granule.bytes() * table_count + granule.bytes() - 1;
                match r {
                    Ok(pages) => bytes <= usize::MAX && pages == pages_of(bytes) && pages
                        == FixedTablePool::pages_for(granule, table_count as int),
                    Err(e) => bytes > usize::MAX && e is NoMemory,
                }
            }),
    {
        let size: usize = granule.size() as usize;
        let usable: usize = match size.checked_mul(table_count) {
            Some(usable) => usable,
            None => {
                return Err(MapperError::NoMemory);
            },
        };
        match usable.checked_add(size - 1) {
            Some(bytes) => Ok(page_count(bytes)),
            None => Err(MapperError::NoMemory),
        }
    }

    /// A pool for this many tables of one granule each, in a firmware allocation that is one
    /// granule less a byte longer; there is none where the firmware has no memory.
    pub fn new(granule: GranuleKind, table_count: usize, allocation_base: Option<u64>) -> (r: Result<
        NewFixedPool,
        MapperError,
    >)
        requires
            granule.bytes() * table_count <= usize::MAX,
            allocation_base matches Some(base) ==> (base + granule.bytes() - 1 <= u64::MAX ==> base
                + granule.bytes() * table_count + granule.bytes() - 1 <= u64::MAX + 1),
        ensures
            match r {
                Ok(pool) => {
                    &&& allocation_base matches Some(base)
                    &&& base + granule.bytes() - 1 <= u64::MAX
                    &&& pool.chunk() == (ChunkModel {
                        base: aligned_up(base as int, granule.bytes() as int),
                        bytes: granule.bytes() * table_count,
                        used: 0,
                    })
                    &&& pool.chunk() == FixedTablePool::chunk_in(
                        granule,
                        table_count as int,
                        base as int,
                    )
                    &&& pool.chunk().inv()
                },
                Err(e) => {
                    &&& e is NoMemory
                    &&& allocation_base matches Some(base) ==> base + granule.bytes() - 1 > u64::MAX
                },
            },
    {
        let allocated: u64 = match allocation_base {
            Some(base) => base,
            None => {
                return Err(MapperError::NoMemory);
            },
        };
        let base: u64 = match granule_up(allocated, granule) {
            Some(base) => base,
            None => {
                return Err(MapperError::NoMemory);
            },
        };
        let usable: usize = granule.size() as usize * table_count;
        let chunk = PoolChunk { base, bytes: usable, used: 0 };
        proof {
            use_type_invariant(&chunk);
        }
        Ok(NewFixedPool { chunk })
    }

    /// Cuts a table out of the pool.
    pub fn allocate_zeroed_table(&mut self, layout: TableAllocLayout) -> (r: Result<
        u64,
        MapperError,
    >)
        requires
            old(self).chunk().addressable(layout.bytes(), layout.align()),
        ensures
            layout.valid(),
            old(self).chunk().inv(),
            final(self).chunk().inv(),
            match r {
                Ok(addr) => {
                    &&& old(self).chunk().fits(layout.bytes(), layout.align())
                    &&& addr == old(self).chunk().address(layout.align())
                    &&& final(self).chunk() == old(self).chunk().after(
                        layout.bytes(),
                        layout.align(),
                    )
                },
                Err(e) => {
                    &&& e is NoMemory
                    &&& !old(self).chunk().fits(layout.bytes(), layout.align())
                    &&& final(self).chunk() == old(self).chunk()
                },
            },
    {
        match self.chunk.allocate_from_chunk(layout) {
            Some(addr) => Ok(addr),
            None => Err(MapperError::NoMemory),
        }
    }

    /// Takes a table back, which changes nothing: its memory is not used again.
    pub fn reclaim_table(&mut self) -> (r: Result<(), MapperError>)
        ensures
            r is Ok,
            final(self).chunk() == old(self).chunk(),
    {
        Ok(())
    }
}

/// A table of at least one byte always has an address.
pub proof fn law_tables_have_addresses(pool: PoolModel, chunk: ChunkModel, bytes: int, align: int)
    requires
        pool.inv(),
        chunk.inv(),
        bytes > 0,
    ensures
        chunk.addressable(bytes, align),
        pool.addressable_last(bytes, align),
{
    if pool.chunks.len() > 0 {
        assert(pool.chunks[pool.chunks.len() - 1].inv());
    }
}

/// A table lies within its chunk, and where the chunk is aligned, so is the table.
pub proof fn law_table_lies_in_its_chunk(chunk: ChunkModel, layout: TableAllocLayout)
    requires
        chunk.inv(),
        is_pow2(layout.align()),
        chunk.fits(layout.bytes(), layout.align()),
    ensures
        chunk.base + chunk.used <= chunk.address(layout.align()),
        chunk.address(layout.align()) + layout.bytes() == chunk.base + chunk.after(
            layout.bytes(),
            layout.align(),
        ).used,
        chunk.after(layout.bytes(), layout.align()).inv(),
        chunk.base % layout.align() == 0 ==> chunk.address(layout.align()) % layout.align() == 0,
{
    let align = layout.align();
    lemma_positive(align);
    lemma_aligned(chunk.used, align);
    if chunk.base % align == 0 {
        vstd::arithmetic::div_mod::lemma_add_mod_noop(chunk.base, chunk.next(align), align);
        vstd::arithmetic::div_mod::lemma_small_mod(0, align as nat);
    }
}

/// Powers of two are positive.
proof fn lemma_positive(n: int)
    requires
        is_pow2(n),
    ensures
        n > 0,
{
    reveal(is_pow2);
}

/// Two tables from one chunk share no byte: the later one starts where the earlier one ended, or
/// after it.
pub proof fn law_tables_are_disjoint(
    chunk: ChunkModel,
    first: TableAllocLayout,
    later: ChunkModel,
    second: TableAllocLayout,
)
    requires
        chunk.inv(),
        is_pow2(first.align()),
        is_pow2(second.align()),
        chunk.fits(first.bytes(), first.align()),
        later.inv(),
        later.base == chunk.base,
        chunk.after(first.bytes(), first.align()).used <= later.used,
    ensures
        chunk.address(first.align()) + first.bytes() <= later.address(second.align()),
{
    law_table_lies_in_its_chunk(chunk, first);
    lemma_positive(second.align());
    lemma_aligned(later.used, second.align());
}

/// A chunk allocated with the number of pages that a growing pool asks for has room for the table
/// that it was allocated for, and starts at a multiple of the granule.
pub proof fn law_new_chunk_fits_its_table(
    granule: GranuleKind,
    allocation_base: int,
    layout: TableAllocLayout,
)
    requires
        0 <= allocation_base,
        is_pow2(layout.align()),
    ensures
        ({
            let bytes = chunk_wanted(granule, layout.bytes()) + granule.bytes() - 1;
            let chunk = chunk_of(granule, allocation_base, pages_of(bytes) * PAGE_SIZE);
            &&& chunk.fits(layout.bytes(), layout.align())
            &&& chunk.base % granule.bytes() as int == 0
            &&& allocation_base <= chunk.base
            &&& chunk.base + chunk.bytes == allocation_base + pages_of(bytes) * PAGE_SIZE
        }),
{
    let bytes = chunk_wanted(granule, layout.bytes()) + granule.bytes() - 1;
    lemma_aligned(bytes, PAGE_SIZE as int);
    lemma_aligned(allocation_base, granule.bytes() as int);
    lemma_positive(layout.align());
    lemma_aligned(0, layout.align());
    vstd::arithmetic::div_mod::lemma_small_mod((layout.align() - 1) as nat, layout.align() as nat);
}

/// A fixed pool for `n` tables of one granule each hands out exactly that many: after `k` of them,
/// the next one fits if and only if `k` is less than `n`.
pub proof fn law_fixed_pool_holds_its_tables(granule: GranuleKind, base: int, n: int, k: int)
    requires
        0 <= k <= n,
    ensures
        ({
            let size = granule.bytes() as int;
            let chunk = ChunkModel { base, bytes: size * n, used: size * k };
            &&& chunk.fits(size, size) <==> k < n
            &&& chunk.after(size, size) == ChunkModel { base, bytes: size * n, used: size * (k + 1) }
            &&& chunk.address(size) == base + size * k
        }),
{
    match granule {
        GranuleKind::Size4KiB => assert(aligned_up(0x1000 * k, 0x1000) == 0x1000 * k),
        GranuleKind::Size16KiB => assert(aligned_up(0x4000 * k, 0x4000) == 0x4000 * k),
        GranuleKind::Size64KiB => assert(aligned_up(0x10000 * k, 0x10000) == 0x10000 * k),
    }
}

// ---------------------------------------------------------------------------------------------
// What the operations are for
// ---------------------------------------------------------------------------------------------
/// The next table of a chunk starts at the first multiple of its alignment behind what is in use, and
/// fits if and only if it ends in the chunk. Then all up to its end is in use, and nothing else
/// changes.
pub proof fn law_the_next_table_is_cut_off(chunk: ChunkModel, bytes: int, align: int, start: int)
    requires
        0 <= chunk.used,
        0 < align,
        start % align == 0,
        chunk.used <= start < chunk.used + align,
    ensures
        chunk.address(align) == chunk.base + start,
        chunk.fits(bytes, align) <==> start + bytes <= chunk.bytes,
        chunk.after(bytes, align).used == start + bytes,
        chunk.after(bytes, align).base == chunk.base,
        chunk.after(bytes, align).bytes == chunk.bytes,
        chunk.addressable(bytes, align) <==> (start + bytes <= chunk.bytes ==> chunk.base + start
            <= u64::MAX),
{
    law_alignment_is_the_nearest_multiple(chunk.used, align, start);
}

/// A chunk is valid if and only if it lies within 64-bit addresses, memory can hold it, and no more of
/// it is in use than there is.
pub proof fn law_chunks_lie_in_memory(chunk: ChunkModel)
    ensures
        chunk.inv() <==> {
            &&& 0 <= chunk.base < 0x1_0000_0000_0000_0000
            &&& chunk.base + chunk.bytes <= 0x1_0000_0000_0000_0000
            &&& chunk.bytes <= usize::MAX
            &&& 0 <= chunk.used <= chunk.bytes
        },
{
}

/// The pages for a number of bytes are the fewest that hold them.
pub proof fn law_pages_are_the_fewest(bytes: int, pages: int)
    requires
        0 <= bytes,
    ensures
        pages_of(bytes) == pages <==> bytes <= pages * 4096 < bytes + 4096,
{
}

/// The chunk of an allocation starts at the first multiple of the granule in it, ends where the
/// allocation ends, and is not in use.
pub proof fn law_chunks_reach_to_the_end_of_their_allocation(
    granule: GranuleKind,
    allocation_base: int,
    allocation_bytes: int,
)
    requires
        0 <= allocation_base,
    ensures
        ({
            let chunk = chunk_of(granule, allocation_base, allocation_bytes);
            &&& chunk.base % granule.bytes() as int == 0
            &&& allocation_base <= chunk.base < allocation_base + granule.bytes()
            &&& chunk.base + chunk.bytes == allocation_base + allocation_bytes
            &&& chunk.used == 0
        }),
{
    lemma_aligned(allocation_base, granule.bytes() as int);
}

/// A growing pool asks for the table or for sixteen granules, whichever is more, and for what may be
/// lost before the first multiple of the granule.
pub proof fn law_a_pool_asks_for_enough(pool: PoolModel, bytes: int)
    ensures
        ({
            let granule = pool.granule.bytes() as int;
            let kept = pool.bytes_wanted(bytes) - (granule - 1);
            &&& kept >= bytes
            &&& kept >= 16 * granule
            &&& kept == bytes || kept == 16 * granule
        }),
{
}

/// What a request for a table leads to, reply by reply. The last chunk is taken where the table fits
/// into it, and nothing is asked of the firmware then. Otherwise the fewest pages are asked for that
/// are enough; a refusal, or a number of bytes or an address that is too large, is no memory; and the
/// table is cut out of the cleared chunk, which the pool keeps.
pub proof fn law_requests_for_tables_go_in_order(
    pool: PoolModel,
    bytes: int,
    align: int,
    reply: PoolReply,
    next: Result<PoolStep, MapperError>,
    after: PoolModel,
)
    requires
        pool.inv(),
        0 <= bytes <= usize::MAX,
        0 < align,
        pool.takes(bytes, align, reply),
        pool.follows(bytes, align, reply, next, after),
    ensures
        after.granule == pool.granule,
        next is Err ==> after.chunks == pool.chunks,
        next matches Ok(PoolStep::Allocate(_)) ==> after.chunks == pool.chunks,
        next matches Ok(PoolStep::Clear(_)) ==> after.chunks == pool.chunks,
        reply is Asked && pool.chunks.len() > 0 && pool.chunks.last().fits(bytes, align) ==> {
            let last = pool.chunks.last();
            &&& next matches Ok(PoolStep::Done(addr)) && addr == last.address(align)
            &&& after.chunks.len() == pool.chunks.len()
            &&& after.chunks.drop_last() == pool.chunks.drop_last()
            &&& after.chunks.last() == last.after(bytes, align)
        },
        reply is Asked && (pool.chunks.len() == 0 || !pool.chunks.last().fits(bytes, align)) ==> {
            let wanted = pool.bytes_wanted(bytes);
            &&& wanted > usize::MAX ==> next == Err::<PoolStep, MapperError>(MapperError::NoMemory)
            &&& wanted <= usize::MAX ==> (next matches Ok(PoolStep::Allocate(pages)) && wanted
                <= pages * 4096 < wanted + 4096)
        },
        reply is Refused ==> next == Err::<PoolStep, MapperError>(MapperError::NoMemory),
        reply matches PoolReply::Allocated { base, pages } ==> {
            &&& base + pool.granule.bytes() > 0x1_0000_0000_0000_0000 ==> next == Err::<
                PoolStep,
                MapperError,
            >(MapperError::NoMemory)
            &&& base + pool.granule.bytes() <= 0x1_0000_0000_0000_0000 ==> (next matches Ok(
                PoolStep::Clear(chunk),
            ) && chunk@.base % pool.granule.bytes() as int == 0 && base <= chunk@.base < base
                + pool.granule.bytes() && chunk@.base + chunk@.bytes == base + pages * 4096
                && chunk@.used == 0)
        },
        reply matches PoolReply::Cleared(chunk) ==> {
            &&& !chunk@.fits(bytes, align) ==> next == Err::<PoolStep, MapperError>(
                MapperError::InvalidGeometry,
            )
            &&& chunk@.fits(bytes, align) ==> {
                &&& next matches Ok(PoolStep::Done(addr)) && addr == chunk@.address(align)
                &&& after.chunks.len() == pool.chunks.len() + 1
                &&& after.chunks.drop_last() == pool.chunks
                &&& after.chunks.last() == chunk@.after(bytes, align)
            }
        },
{
    match reply {
        PoolReply::Asked => {
            if pool.chunks.len() > 0 {
                let n = pool.chunks.len() - 1;
                let last = pool.chunks[n];
                assert(last.inv());
                lemma_aligned(last.used, align);
                assert(after.chunks.drop_last() =~= pool.chunks.drop_last());
            }
            let wanted = pool.bytes_wanted(bytes);
            if wanted <= usize::MAX {
                law_pages_are_the_fewest(wanted, pages_of(wanted));
                assert(pages_of(wanted) <= usize::MAX);
            }
        },
        PoolReply::Refused => {},
        PoolReply::Allocated { base, pages } => {
            lemma_aligned(base as int, pool.granule.bytes() as int);
        },
        PoolReply::Cleared(chunk) => {
            assert(chunk@.fits(bytes, align) ==> after.chunks.drop_last() =~= pool.chunks);
        },
    }
}

/// Every reply can be taken: a request for a table of at least a byte, a refusal, and memory of the
/// firmware that is at least a granule and lies within 64-bit addresses.
pub proof fn law_every_reply_can_be_taken(
    pool: PoolModel,
    bytes: int,
    align: int,
    base: u64,
    pages: usize,
)
    requires
        pool.inv(),
        bytes > 0,
    ensures
        pool.takes(bytes, align, PoolReply::Asked),
        pool.takes(bytes, align, PoolReply::Refused),
        pool.granule.bytes() <= pages * 4096 <= usize::MAX && base + pages * 4096
            <= 0x1_0000_0000_0000_0000 ==> pool.takes(
            bytes,
            align,
            (PoolReply::Allocated { base, pages }),
        ),
{
    if pool.chunks.len() > 0 {
        assert(pool.chunks[pool.chunks.len() - 1].inv());
    }
}

/// A cleared chunk that is valid and starts at a multiple of the granule can be taken.
pub proof fn law_cleared_chunks_can_be_taken(
    pool: PoolModel,
    bytes: int,
    align: int,
    chunk: PoolChunk,
)
    requires
        bytes > 0,
        chunk@.inv(),
        chunk@.base % pool.granule.bytes() as int == 0,
    ensures
        pool.takes(bytes, align, PoolReply::Cleared(chunk)),
{
}

/// The pages that a fixed pool asks for are the fewest that hold its tables wherever the allocation
/// starts, and its memory is at a multiple of the granule in it, with room for exactly its tables.
pub proof fn law_fixed_pools_ask_for_enough(granule: GranuleKind, table_count: int, base: int)
    requires
        0 <= table_count,
        0 <= base,
    ensures
        ({
            let size = granule.bytes() as int;
            let pages = FixedTablePool::pages_for(granule, table_count);
            let chunk = FixedTablePool::chunk_in(granule, table_count, base);
            &&& chunk.base % size == 0
            &&& base <= chunk.base < base + size
            &&& chunk.bytes == size * table_count
            &&& chunk.used == 0
            &&& chunk.base + chunk.bytes <= base + pages * 4096
            &&& (pages - 1) * 4096 < size * table_count + size - 1
        }),
{
    let size = granule.bytes() as int;
    lemma_aligned(base, size);
    assert(0 <= size * table_count) by (nonlinear_arith)
        requires
            0 <= size,
            0 <= table_count,
    ;
    let bytes = size * table_count + size - 1;
    law_pages_are_the_fewest(bytes, pages_of(bytes));
}

} // verus!
