//! What holds of a growing pool of tables over any sequence of requests.
//!
//! The firmware hands out memory and never the same twice; whoever has a table writes only into
//! that. Under these rules every table is aligned, starts out as zeros and shares no byte with any
//! table before it.
use crate::align::lemma_aligned;
use crate::mapper::GranuleKind;
use crate::table_pool::{chunk_of, ChunkModel, PoolModel};
use vstd::prelude::*;

verus! {

/// A range of memory that the firmware handed out.
pub struct Allocation {
    pub base: int,
    pub bytes: int,
}

/// A table that the pool handed out.
pub struct Table {
    /// The position of the chunk that it was cut out of.
    pub chunk: int,
    pub addr: int,
    pub bytes: int,
    pub align: int,
}

/// Whether two ranges share no byte: one ends before the other starts.
pub open spec fn apart(a: int, a_bytes: int, b: int, b_bytes: int) -> bool {
    a + a_bytes <= b || b + b_bytes <= a
}

/// A pool, the memory behind its chunks, the tables that it handed out, and what memory holds.
pub struct PoolState {
    pub pool: PoolModel,
    /// The allocation of each chunk.
    pub allocations: Seq<Allocation>,
    /// Every table so far, oldest first; those that were given back stay in the list.
    pub tables: Seq<Table>,
    pub memory: spec_fn(int) -> u8,
}

/// What happens to a pool.
pub enum PoolEvent {
    /// A table is cut out of the last chunk.
    FromLast { bytes: int, align: int },
    /// A chunk is made of an allocation and cleared, and a table is cut out of it.
    FromNew { allocation: Allocation, bytes: int, align: int },
    /// A request fails.
    Refused,
    /// A table is given back.
    Reclaimed,
    /// Memory is written to.
    Written { memory: spec_fn(int) -> u8 },
}

impl PoolState {
    /// A pool without memory.
    pub open spec fn start(granule: GranuleKind, memory: spec_fn(int) -> u8) -> PoolState {
        PoolState {
            pool: PoolModel { granule, chunks: Seq::empty() },
            allocations: Seq::empty(),
            tables: Seq::empty(),
            memory,
        }
    }

    /// Whether an alignment is one that tables of this pool can have: it divides the granule.
    pub open spec fn alignable(self, bytes: int, align: int) -> bool {
        &&& 0 <= bytes
        &&& 0 < align
        &&& self.pool.granule.bytes() as int % align == 0
    }

    /// Whether an address is in one of the tables.
    pub open spec fn in_table(self, addr: int) -> bool {
        exists|i: int|
            #![trigger self.tables[i]]
            0 <= i < self.tables.len() && self.tables[i].addr <= addr < self.tables[i].addr
                + self.tables[i].bytes
    }

    /// Whether an address is in the memory of the pool.
    pub open spec fn in_pool(self, addr: int) -> bool {
        exists|k: int|
            #![trigger self.allocations[k]]
            0 <= k < self.allocations.len() && self.allocations[k].base <= addr
                < self.allocations[k].base + self.allocations[k].bytes
    }

    /// Whether an event can happen. A table fits where it is cut out; an allocation shares no byte
    /// with the ones before it; and in the memory of the pool, only tables are written to.
    pub open spec fn allows(self, event: PoolEvent) -> bool {
        match event {
            PoolEvent::FromLast { bytes, align } => {
                &&& self.alignable(bytes, align)
                &&& self.pool.fits_last(bytes, align)
            },
            PoolEvent::FromNew { allocation, bytes, align } => {
                let chunk = chunk_of(self.pool.granule, allocation.base, allocation.bytes);
                &&& self.alignable(bytes, align)
                &&& 0 <= allocation.base
                &&& chunk.inv()
                &&& chunk.fits(bytes, align)
                &&& forall|k: int|
                    #![trigger self.allocations[k]]
                    0 <= k < self.allocations.len() ==> apart(
                        self.allocations[k].base,
                        self.allocations[k].bytes,
                        allocation.base,
                        allocation.bytes,
                    )
            },
            PoolEvent::Refused | PoolEvent::Reclaimed => true,
            PoolEvent::Written { memory } => forall|addr: int|
                #![trigger memory(addr)]
                self.in_pool(addr) && !self.in_table(addr) ==> memory(addr) == (self.memory)(addr),
        }
    }

    /// The state after an event.
    pub open spec fn after(self, event: PoolEvent) -> PoolState {
        match event {
            PoolEvent::FromLast { bytes, align } => PoolState {
                pool: self.pool.from_last(bytes, align),
                tables: self.tables.push(
                    Table {
                        chunk: self.pool.chunks.len() - 1,
                        addr: self.pool.chunks.last().address(align),
                        bytes,
                        align,
                    },
                ),
                ..self
            },
            PoolEvent::FromNew { allocation, bytes, align } => {
                let chunk = chunk_of(self.pool.granule, allocation.base, allocation.bytes);
                PoolState {
                    pool: self.pool.from_new(chunk, bytes, align),
                    allocations: self.allocations.push(allocation),
                    tables: self.tables.push(
                        Table {
                            chunk: self.pool.chunks.len() as int,
                            addr: chunk.address(align),
                            bytes,
                            align,
                        },
                    ),
                    memory: |addr: int|
                        if chunk.base <= addr < chunk.base + chunk.bytes {
                            0u8
                        } else {
                            (self.memory)(addr)
                        },
                }
            },
            PoolEvent::Refused | PoolEvent::Reclaimed => self,
            PoolEvent::Written { memory } => PoolState { memory, ..self },
        }
    }

    /// Whether each chunk lies in its allocation, and no two allocations share a byte.
    pub open spec fn memory_inv(self) -> bool {
        &&& self.pool.inv()
        &&& self.allocations.len() == self.pool.chunks.len()
        &&& forall|k: int|
            #![trigger self.pool.chunks[k]]
            0 <= k < self.pool.chunks.len() ==> self.allocations[k].base
                <= self.pool.chunks[k].base && self.pool.chunks[k].base + self.pool.chunks[k].bytes
                <= self.allocations[k].base + self.allocations[k].bytes
        &&& forall|i: int, j: int|
            #![trigger self.allocations[i], self.allocations[j]]
            0 <= i < j < self.allocations.len() ==> apart(
                self.allocations[i].base,
                self.allocations[i].bytes,
                self.allocations[j].base,
                self.allocations[j].bytes,
            )
    }

    /// Whether a table is aligned and lies in the part of its chunk that is in use.
    pub open spec fn table_inv(self, table: Table) -> bool {
        let chunk = self.pool.chunks[table.chunk];
        &&& 0 <= table.chunk < self.pool.chunks.len()
        &&& 0 <= table.bytes
        &&& table.addr % table.align == 0
        &&& chunk.base <= table.addr
        &&& table.addr + table.bytes <= chunk.base + chunk.used
    }

    /// Whether every table is aligned and in its chunk, no two tables share a byte, and what no
    /// table takes up is zero.
    pub open spec fn inv(self) -> bool {
        &&& self.memory_inv()
        &&& forall|i: int| 0 <= i < self.tables.len() ==> self.table_inv(#[trigger] self.tables[i])
        &&& forall|i: int, j: int|
            #![trigger self.tables[i], self.tables[j]]
            0 <= i < j < self.tables.len() ==> apart(
                self.tables[i].addr,
                self.tables[i].bytes,
                self.tables[j].addr,
                self.tables[j].bytes,
            )
        &&& forall|k: int, addr: int|
            #![trigger self.pool.chunks[k], (self.memory)(addr)]
            0 <= k < self.pool.chunks.len() && self.pool.chunks[k].base + self.pool.chunks[k].used
                <= addr < self.pool.chunks[k].base + self.pool.chunks[k].bytes ==> (self.memory)(
                addr,
            ) == 0
    }
}

/// A multiple of a multiple is a multiple.
proof fn lemma_multiple(value: int, granule: int, align: int)
    requires
        0 < granule,
        0 < align,
        value % granule == 0,
        granule % align == 0,
    ensures
        value % align == 0,
{
    let q = value / granule;
    let m = granule / align;
    vstd::arithmetic::div_mod::lemma_fundamental_div_mod(value, granule);
    vstd::arithmetic::div_mod::lemma_fundamental_div_mod(granule, align);
    assert(value == (q * m) * align) by (nonlinear_arith)
        requires
            value == granule * q,
            granule == align * m,
    ;
    vstd::arithmetic::div_mod::lemma_mod_multiples_basic(q * m, align);
}

/// The next table of a chunk starts where no other does, is aligned and lies in the chunk.
proof fn lemma_next_table(chunk: ChunkModel, granule: GranuleKind, bytes: int, align: int)
    requires
        chunk.inv(),
        chunk.base % granule.bytes() as int == 0,
        0 <= bytes,
        0 < align,
        granule.bytes() as int % align == 0,
        chunk.fits(bytes, align),
    ensures
        chunk.base + chunk.used <= chunk.address(align),
        chunk.address(align) % align == 0,
        chunk.address(align) + bytes == chunk.base + chunk.after(bytes, align).used,
        chunk.after(bytes, align).inv(),
{
    lemma_aligned(chunk.used, align);
    lemma_multiple(chunk.base, granule.bytes() as int, align);
    vstd::arithmetic::div_mod::lemma_add_mod_noop(chunk.base, chunk.next(align), align);
    vstd::arithmetic::div_mod::lemma_small_mod(0, align as nat);
}

/// A table out of the last chunk keeps the state valid.
proof fn lemma_from_last(state: PoolState, bytes: int, align: int)
    requires
        state.inv(),
        state.allows((PoolEvent::FromLast { bytes, align })),
    ensures
        state.after((PoolEvent::FromLast { bytes, align })).inv(),
{
    let next = state.after(PoolEvent::FromLast { bytes, align });
    let chunks = state.pool.chunks;
    let n = chunks.len() - 1;
    let last = chunks[n];
    assert(last == chunks.last());
    lemma_next_table(last, state.pool.granule, bytes, align);
    assert forall|k: int|
        #![trigger next.pool.chunks[k]]
        0 <= k < next.pool.chunks.len() implies next.pool.chunks[k].inv() && next.pool.chunks[k].base
        % next.pool.granule.bytes() as int == 0 && next.pool.chunks[k].base == chunks[k].base
        && next.pool.chunks[k].bytes == chunks[k].bytes && chunks[k].used
        <= next.pool.chunks[k].used by {
        assert(chunks[k].inv());
    }
    assert(next.memory_inv());
    let table = next.tables.last();
    assert forall|i: int| 0 <= i < next.tables.len() implies next.table_inv(
        #[trigger] next.tables[i],
    ) by {
        if i < state.tables.len() {
            assert(next.tables[i] == state.tables[i]);
            assert(state.table_inv(state.tables[i]));
        }
    }
    assert forall|i: int| 0 <= i < state.tables.len() implies apart(
        (#[trigger] state.tables[i]).addr,
        state.tables[i].bytes,
        table.addr,
        table.bytes,
    ) by {
        assert(state.table_inv(state.tables[i]));
        let k = state.tables[i].chunk;
        if k < n {
            assert(apart(
                state.allocations[k].base,
                state.allocations[k].bytes,
                state.allocations[n].base,
                state.allocations[n].bytes,
            ));
            assert(chunks[k].inv());
        }
    }
    assert forall|i: int, j: int|
        #![trigger next.tables[i], next.tables[j]]
        0 <= i < j < next.tables.len() implies apart(
        next.tables[i].addr,
        next.tables[i].bytes,
        next.tables[j].addr,
        next.tables[j].bytes,
    ) by {
        assert(next.tables[i] == state.tables[i]);
        if j < state.tables.len() {
            assert(next.tables[j] == state.tables[j]);
        }
    }
    assert forall|k: int, addr: int|
        #![trigger next.pool.chunks[k], (next.memory)(addr)]
        0 <= k < next.pool.chunks.len() && next.pool.chunks[k].base + next.pool.chunks[k].used
            <= addr < next.pool.chunks[k].base + next.pool.chunks[k].bytes implies (next.memory)(addr)
        == 0 by {
        assert(chunks[k].base + chunks[k].used <= addr);
        assert((state.memory)(addr) == 0);
    }
}

/// A table out of a new chunk keeps the state valid.
proof fn lemma_from_new(state: PoolState, allocation: Allocation, bytes: int, align: int)
    requires
        state.inv(),
        state.allows((PoolEvent::FromNew { allocation, bytes, align })),
    ensures
        state.after((PoolEvent::FromNew { allocation, bytes, align })).inv(),
{
    let next = state.after(PoolEvent::FromNew { allocation, bytes, align });
    let chunks = state.pool.chunks;
    let n = chunks.len() as int;
    let chunk = chunk_of(state.pool.granule, allocation.base, allocation.bytes);
    lemma_aligned(allocation.base, state.pool.granule.bytes() as int);
    lemma_next_table(chunk, state.pool.granule, bytes, align);
    assert(next.pool.chunks[n] == chunk.after(bytes, align));
    assert(next.allocations[n] == allocation);
    assert forall|k: int| 0 <= k < n implies next.pool.chunks[k] == chunks[k] && next.allocations[k]
        == state.allocations[k] && (#[trigger] chunks[k]).inv() by {}
    assert forall|k: int|
        #![trigger next.pool.chunks[k]]
        0 <= k < next.pool.chunks.len() implies next.pool.chunks[k].inv() && next.pool.chunks[k].base
        % next.pool.granule.bytes() as int == 0 && next.allocations[k].base
        <= next.pool.chunks[k].base && next.pool.chunks[k].base + next.pool.chunks[k].bytes
        <= next.allocations[k].base + next.allocations[k].bytes by {
        if k < n {
            assert(chunks[k].inv());
        }
    }
    assert(next.memory_inv());
    let table = next.tables.last();
    assert forall|i: int| 0 <= i < next.tables.len() implies next.table_inv(
        #[trigger] next.tables[i],
    ) by {
        if i < state.tables.len() {
            assert(next.tables[i] == state.tables[i]);
            assert(state.table_inv(state.tables[i]));
        }
    }
    assert forall|i: int| 0 <= i < state.tables.len() implies apart(
        (#[trigger] state.tables[i]).addr,
        state.tables[i].bytes,
        table.addr,
        table.bytes,
    ) by {
        assert(state.table_inv(state.tables[i]));
        let k = state.tables[i].chunk;
        assert(apart(
            state.allocations[k].base,
            state.allocations[k].bytes,
            allocation.base,
            allocation.bytes,
        ));
        assert(chunks[k].inv());
    }
    assert forall|i: int, j: int|
        #![trigger next.tables[i], next.tables[j]]
        0 <= i < j < next.tables.len() implies apart(
        next.tables[i].addr,
        next.tables[i].bytes,
        next.tables[j].addr,
        next.tables[j].bytes,
    ) by {
        assert(next.tables[i] == state.tables[i]);
        if j < state.tables.len() {
            assert(next.tables[j] == state.tables[j]);
        }
    }
    assert forall|k: int, addr: int|
        #![trigger next.pool.chunks[k], (next.memory)(addr)]
        0 <= k < next.pool.chunks.len() && next.pool.chunks[k].base + next.pool.chunks[k].used
            <= addr < next.pool.chunks[k].base + next.pool.chunks[k].bytes implies (next.memory)(addr)
        == 0 by {
        if k < n {
            assert(chunks[k].base + chunks[k].used <= addr);
            assert((state.memory)(addr) == 0);
        }
    }
}

/// Writing into tables keeps the state valid.
proof fn lemma_written(state: PoolState, memory: spec_fn(int) -> u8)
    requires
        state.inv(),
        state.allows((PoolEvent::Written { memory })),
    ensures
        state.after((PoolEvent::Written { memory })).inv(),
{
    let next = state.after(PoolEvent::Written { memory });
    let chunks = state.pool.chunks;
    assert(next.memory_inv());
    assert forall|i: int| 0 <= i < next.tables.len() implies next.table_inv(
        #[trigger] next.tables[i],
    ) by {
        assert(state.table_inv(state.tables[i]));
    }
    assert forall|k: int, addr: int|
        #![trigger next.pool.chunks[k], (next.memory)(addr)]
        0 <= k < next.pool.chunks.len() && next.pool.chunks[k].base + next.pool.chunks[k].used
            <= addr < next.pool.chunks[k].base + next.pool.chunks[k].bytes implies (next.memory)(addr)
        == 0 by {
        assert(chunks[k].inv());
        assert(state.allocations[k].base <= addr < state.allocations[k].base
            + state.allocations[k].bytes);
        assert(state.in_pool(addr));
        if state.in_table(addr) {
            let i = choose|i: int|
                #![trigger state.tables[i]]
                0 <= i < state.tables.len() && state.tables[i].addr <= addr < state.tables[i].addr
                    + state.tables[i].bytes;
            assert(state.table_inv(state.tables[i]));
            let t = state.tables[i].chunk;
            assert(chunks[t].inv());
            if t < k {
                assert(apart(
                    state.allocations[t].base,
                    state.allocations[t].bytes,
                    state.allocations[k].base,
                    state.allocations[k].bytes,
                ));
            } else if k < t {
                assert(apart(
                    state.allocations[k].base,
                    state.allocations[k].bytes,
                    state.allocations[t].base,
                    state.allocations[t].bytes,
                ));
            }
        }
        assert(memory(addr) == (state.memory)(addr));
        assert((state.memory)(addr) == 0);
    }
}

/// Every event keeps the state valid.
pub proof fn law_events_keep_the_pool_valid(state: PoolState, event: PoolEvent)
    requires
        state.inv(),
        state.allows(event),
    ensures
        state.after(event).inv(),
{
    match event {
        PoolEvent::FromLast { bytes, align } => lemma_from_last(state, bytes, align),
        PoolEvent::FromNew { allocation, bytes, align } => lemma_from_new(
            state,
            allocation,
            bytes,
            align,
        ),
        PoolEvent::Refused | PoolEvent::Reclaimed => {},
        PoolEvent::Written { memory } => lemma_written(state, memory),
    }
}

/// The state after a sequence of events.
pub open spec fn state_after(
    granule: GranuleKind,
    memory: spec_fn(int) -> u8,
    events: Seq<PoolEvent>,
) -> PoolState
    decreases events.len(),
{
    if events.len() == 0 {
        PoolState::start(granule, memory)
    } else {
        state_after(granule, memory, events.drop_last()).after(events.last())
    }
}

/// Whether a sequence of events can happen.
pub open spec fn can_happen(
    granule: GranuleKind,
    memory: spec_fn(int) -> u8,
    events: Seq<PoolEvent>,
) -> bool
    decreases events.len(),
{
    events.len() > 0 ==> can_happen(granule, memory, events.drop_last()) && state_after(
        granule,
        memory,
        events.drop_last(),
    ).allows(events.last())
}

/// After any sequence of events, every table of a pool is aligned, and no two tables share a byte,
/// those that were given back included.
pub proof fn law_tables_of_a_pool_are_aligned_and_apart(
    granule: GranuleKind,
    memory: spec_fn(int) -> u8,
    events: Seq<PoolEvent>,
)
    requires
        can_happen(granule, memory, events),
    ensures
        ({
            let state = state_after(granule, memory, events);
            &&& state.inv()
            &&& state.pool.granule == granule
            &&& forall|i: int|
                #![trigger state.tables[i]]
                0 <= i < state.tables.len() ==> state.tables[i].addr % state.tables[i].align == 0
            &&& forall|i: int, j: int|
                #![trigger state.tables[i], state.tables[j]]
                0 <= i < j < state.tables.len() ==> apart(
                    state.tables[i].addr,
                    state.tables[i].bytes,
                    state.tables[j].addr,
                    state.tables[j].bytes,
                )
        }),
    decreases events.len(),
{
    let state = state_after(granule, memory, events);
    if events.len() > 0 {
        law_tables_of_a_pool_are_aligned_and_apart(granule, memory, events.drop_last());
        law_events_keep_the_pool_valid(
            state_after(granule, memory, events.drop_last()),
            events.last(),
        );
    }
    assert forall|i: int|
        #![trigger state.tables[i]]
        0 <= i < state.tables.len() implies state.tables[i].addr % state.tables[i].align == 0 by {
        assert(state.table_inv(state.tables[i]));
    }
}

/// Whether a table is handed out.
pub open spec fn hands_out(event: PoolEvent) -> bool {
    event is FromLast || event is FromNew
}

/// After any sequence of events, a table that is handed out holds zeros only, and handing it out
/// changes no byte of the tables before it.
pub proof fn law_a_new_table_is_zero(
    granule: GranuleKind,
    memory: spec_fn(int) -> u8,
    events: Seq<PoolEvent>,
    event: PoolEvent,
)
    requires
        can_happen(granule, memory, events.push(event)),
        hands_out(event),
    ensures
        ({
            let before = state_after(granule, memory, events);
            let after = state_after(granule, memory, events.push(event));
            let table = after.tables.last();
            &&& after.tables == before.tables.push(table)
            &&& forall|addr: int|
                table.addr <= addr < table.addr + table.bytes ==> #[trigger] (after.memory)(addr)
                    == 0
            &&& forall|addr: int|
                before.in_table(addr) ==> #[trigger] (after.memory)(addr) == (before.memory)(addr)
        }),
{
    let before = state_after(granule, memory, events);
    let after = state_after(granule, memory, events.push(event));
    assert(events.push(event).drop_last() =~= events);
    law_tables_of_a_pool_are_aligned_and_apart(granule, memory, events);
    let table = after.tables.last();
    let chunks = before.pool.chunks;
    match event {
        PoolEvent::FromLast { bytes, align } => {
            let n = chunks.len() - 1;
            assert(chunks[n] == chunks.last());
            lemma_next_table(chunks[n], granule, bytes, align);
            assert forall|addr: int| table.addr <= addr < table.addr + table.bytes implies #[trigger] (
            after.memory)(addr) == 0 by {
                assert(chunks[n].base + chunks[n].used <= addr < chunks[n].base + chunks[n].bytes);
                assert((before.memory)(addr) == 0);
            }
        },
        PoolEvent::FromNew { allocation, bytes, align } => {
            let chunk = chunk_of(granule, allocation.base, allocation.bytes);
            lemma_aligned(allocation.base, granule.bytes() as int);
            lemma_next_table(chunk, granule, bytes, align);
            assert forall|addr: int| before.in_table(addr) implies #[trigger] (after.memory)(addr)
                == (before.memory)(addr) by {
                let i = choose|i: int|
                    #![trigger before.tables[i]]
                    0 <= i < before.tables.len() && before.tables[i].addr <= addr
                        < before.tables[i].addr + before.tables[i].bytes;
                assert(before.table_inv(before.tables[i]));
                let k = before.tables[i].chunk;
                assert(chunks[k].inv());
                assert(apart(
                    before.allocations[k].base,
                    before.allocations[k].bytes,
                    allocation.base,
                    allocation.bytes,
                ));
            }
        },
        _ => {},
    }
}

} // verus!
