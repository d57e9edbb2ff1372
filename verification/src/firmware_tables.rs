//! The configuration tables of the firmware: where the ACPI root pointer and the device tree are.
use vstd::prelude::*;

verus! {

/// The kind of the table of ACPI 2.0 and later. A kind is a GUID: the number that its 32 hexadecimal
/// digits write, in the order of its usual text form.
pub const ACPI2_GUID: u128 = 0x8868e871_e4f1_11d3_bc22_0080c73c8881;

/// The kind of the table of ACPI 1.0.
pub const ACPI_GUID: u128 = 0xeb9d2d30_2d88_11d3_9a16_0090273fc14d;

/// The kind of the flattened device tree.
pub const EFI_DTB_TABLE_GUID: u128 = 0xb1b621d5_f19c_41a5_830b_d9152c69aae0;

/// The number that eight bytes write, highest byte first.
pub open spec fn big_endian(b: Seq<u8>) -> int {
    b[0] * 0x100_0000_0000_0000 + b[1] * 0x1_0000_0000_0000 + b[2] * 0x100_0000_0000 + b[3]
        * 0x1_0000_0000 + b[4] * 0x100_0000 + b[5] * 0x1_0000 + b[6] * 0x100 + b[7]
}

/// The GUID in 16 bytes. In its text form, the first four bytes stand in reverse, and so do the next
/// two and the two after those; the other eight stand as they are.
pub open spec fn guid_of(b: Seq<u8>) -> int {
    big_endian(seq![b[3], b[2], b[1], b[0], b[5], b[4], b[7], b[6]]) * 0x1_0000_0000_0000_0000
        + big_endian(b.skip(8))
}

/// The GUID in 16 bytes.
pub fn guid_from_bytes(b: &[u8]) -> (r: u128)
    requires
        b@.len() == 16,
    ensures
        r == guid_of(b@),
{
    let upper: u64 = join(b[3], b[2], b[1], b[0], b[5], b[4], b[7], b[6]);
    let lower: u64 = join(b[8], b[9], b[10], b[11], b[12], b[13], b[14], b[15]);
    assert(b@.skip(8) =~= seq![b[8], b[9], b[10], b[11], b[12], b[13], b[14], b[15]]);
    upper as u128 * 0x1_0000_0000_0000_0000 + lower as u128
}

/// Joins eight bytes into a number, highest byte first.
fn join(b0: u8, b1: u8, b2: u8, b3: u8, b4: u8, b5: u8, b6: u8, b7: u8) -> (r: u64)
    ensures
        r == big_endian(seq![b0, b1, b2, b3, b4, b5, b6, b7]),
{
    b0 as u64 * 0x100_0000_0000_0000 + b1 as u64 * 0x1_0000_0000_0000 + b2 as u64 * 0x100_0000_0000
        + b3 as u64 * 0x1_0000_0000 + b4 as u64 * 0x100_0000 + b5 as u64 * 0x1_0000 + b6 as u64
        * 0x100 + b7 as u64
}

/// One configuration table.
#[derive(Clone, Copy, Debug, Eq, PartialEq)]
pub struct ConfigTable {
    pub guid: u128,
    pub address: u64,
}

/// What the kernel is told of the tables.
#[derive(Clone, Copy, Debug, Eq, PartialEq)]
pub struct FirmwareTables {
    pub rsdp: Option<u64>,
    pub fdt: Option<u64>,
}

/// The address of the last table of this kind.
pub open spec fn last_table(tables: Seq<ConfigTable>, guid: u128) -> Option<u64>
    decreases tables.len(),
{
    if tables.len() == 0 {
        None
    } else if tables.last().guid == guid {
        Some(tables.last().address)
    } else {
        last_table(tables.drop_last(), guid)
    }
}

/// The address of the first table of this kind.
pub open spec fn first_table(tables: Seq<ConfigTable>, guid: u128) -> Option<u64>
    decreases tables.len(),
{
    if tables.len() == 0 {
        None
    } else {
        match first_table(tables.drop_last(), guid) {
            Some(address) => Some(address),
            None => if tables.last().guid == guid {
                Some(tables.last().address)
            } else {
                None
            },
        }
    }
}

/// The root pointer is that of the last table of ACPI 2.0. Where there is none, it is that of the
/// first table of ACPI 1.0. The device tree is that of its last table.
pub open spec fn firmware_tables(tables: Seq<ConfigTable>) -> FirmwareTables {
    FirmwareTables {
        rsdp: match last_table(tables, ACPI2_GUID) {
            Some(address) => Some(address),
            None => first_table(tables, ACPI_GUID),
        },
        fdt: last_table(tables, EFI_DTB_TABLE_GUID),
    }
}

/// Looks through the configuration tables.
pub fn find_firmware_tables(tables: &[ConfigTable]) -> (r: FirmwareTables)
    ensures
        r == firmware_tables(tables@),
{
    let mut rsdp: Option<u64> = None;
    let mut fdt: Option<u64> = None;
    let mut i: usize = 0;
    while i < tables.len()
        invariant
            i <= tables@.len(),
            (FirmwareTables { rsdp, fdt }) == firmware_tables(tables@.take(i as int)),
        decreases tables@.len() - i,
    {
        let table = tables[i];
        proof {
            let seen = tables@.take(i + 1);
            assert(seen.drop_last() =~= tables@.take(i as int));
            assert(seen.last() == table);
        }
        if table.guid == ACPI2_GUID {
            rsdp = Some(table.address);
        } else if table.guid == ACPI_GUID {
            if rsdp.is_none() {
                rsdp = Some(table.address);
            }
        } else if table.guid == EFI_DTB_TABLE_GUID {
            fdt = Some(table.address);
        }
        i = i + 1;
    }
    assert(tables@.take(i as int) =~= tables@);
    FirmwareTables { rsdp, fdt }
}

/// Where there is a table of ACPI 2.0, the root pointer is that of such a table, whatever tables of
/// ACPI 1.0 stand before or behind it.
pub proof fn law_acpi2_takes_precedence(tables: Seq<ConfigTable>, i: int)
    requires
        0 <= i < tables.len(),
        tables[i].guid == ACPI2_GUID,
    ensures
        firmware_tables(tables).rsdp is Some,
        exists|j: int|
            #![trigger tables[j]]
            i <= j < tables.len() && tables[j].guid == ACPI2_GUID && firmware_tables(tables).rsdp
                == Some(tables[j].address),
    decreases tables.len(),
{
    let last = tables.len() - 1;
    if tables.last().guid == ACPI2_GUID {
        assert(tables[last].guid == ACPI2_GUID);
    } else {
        assert(tables.drop_last()[i] == tables[i]);
        law_acpi2_takes_precedence(tables.drop_last(), i);
        let j = choose|j: int|
            #![trigger tables.drop_last()[j]]
            i <= j < last && tables.drop_last()[j].guid == ACPI2_GUID && firmware_tables(
                tables.drop_last(),
            ).rsdp == Some(tables.drop_last()[j].address);
        lemma_last_table_found(tables.drop_last(), i, ACPI2_GUID);
        assert(tables[j] == tables.drop_last()[j]);
    }
}

/// Where there is a table of a kind, there is a last one.
proof fn lemma_last_table_found(tables: Seq<ConfigTable>, i: int, guid: u128)
    requires
        0 <= i < tables.len(),
        tables[i].guid == guid,
    ensures
        last_table(tables, guid) is Some,
    decreases tables.len(),
{
    if tables.last().guid != guid {
        assert(tables.drop_last()[i] == tables[i]);
        lemma_last_table_found(tables.drop_last(), i, guid);
    }
}

/// The text form of a GUID, byte by byte from the highest on: the first four bytes stand in reverse,
/// and so do the next two and the two after those; the other eight stand as they are.
pub proof fn law_guids_are_their_bytes(b: Seq<u8>)
    requires
        b.len() == 16,
    ensures
        guid_of(b) == from_highest(
            seq![
                b[3],
                b[2],
                b[1],
                b[0],
                b[5],
                b[4],
                b[7],
                b[6],
                b[8],
                b[9],
                b[10],
                b[11],
                b[12],
                b[13],
                b[14],
                b[15],
            ],
        ),
{
    let upper = seq![b[3], b[2], b[1], b[0], b[5], b[4], b[7], b[6]];
    let lower = seq![b[8], b[9], b[10], b[11], b[12], b[13], b[14], b[15]];
    assert(b.skip(8) =~= lower);
    lemma_big_endian(upper);
    lemma_big_endian(lower);
    lemma_from_highest(upper, lower);
    let whole = seq![
        b[3],
        b[2],
        b[1],
        b[0],
        b[5],
        b[4],
        b[7],
        b[6],
        b[8],
        b[9],
        b[10],
        b[11],
        b[12],
        b[13],
        b[14],
        b[15],
    ];
    assert(upper + lower =~= whole);
}

/// The number that bytes write, the highest first: one more byte makes the number 256 times as large.
pub open spec fn from_highest(b: Seq<u8>) -> int
    decreases b.len(),
{
    if b.len() == 0 {
        0
    } else {
        from_highest(b.drop_last()) * 256 + b.last()
    }
}

/// What eight bytes write.
proof fn lemma_big_endian(b: Seq<u8>)
    requires
        b.len() == 8,
    ensures
        big_endian(b) == from_highest(b),
{
    reveal_with_fuel(from_highest, 9);
    let b7 = b.drop_last();
    let b6 = b7.drop_last();
    let b5 = b6.drop_last();
    let b4 = b5.drop_last();
    let b3 = b4.drop_last();
    let b2 = b3.drop_last();
    let b1 = b2.drop_last();
    assert(b.last() == b[7] && b7.last() == b[6] && b6.last() == b[5] && b5.last() == b[4]
        && b4.last() == b[3] && b3.last() == b[2] && b2.last() == b[1] && b1.last() == b[0]);
    assert(b1.drop_last().len() == 0);
}

/// What sixteen bytes write.
proof fn lemma_from_highest(a: Seq<u8>, b: Seq<u8>)
    requires
        b.len() == 8,
    ensures
        from_highest(a + b) == from_highest(a) * 0x1_0000_0000_0000_0000 + from_highest(b),
{
    reveal_with_fuel(from_highest, 9);
    let ab = a + b;
    let s7 = ab.drop_last();
    let s6 = s7.drop_last();
    let s5 = s6.drop_last();
    let s4 = s5.drop_last();
    let s3 = s4.drop_last();
    let s2 = s3.drop_last();
    let s1 = s2.drop_last();
    assert(s1.drop_last() =~= a);
    lemma_big_endian(b);
    assert(ab.last() == b[7] && s7.last() == b[6] && s6.last() == b[5] && s5.last() == b[4]
        && s4.last() == b[3] && s3.last() == b[2] && s2.last() == b[1] && s1.last() == b[0]);
}

/// The root pointer is that of the last table of ACPI 2.0; without any, that of the first table of
/// ACPI 1.0; without any, there is none.
pub proof fn law_the_root_pointer_is_found(tables: Seq<ConfigTable>, i: int)
    requires
        0 <= i < tables.len(),
    ensures
        tables[i].guid == 0x8868e871_e4f1_11d3_bc22_0080c73c8881u128 && (forall|j: int|
            i < j < tables.len() ==> (#[trigger] tables[j]).guid
                != 0x8868e871_e4f1_11d3_bc22_0080c73c8881u128) ==> firmware_tables(tables).rsdp
            == Some(tables[i].address),
        tables[i].guid == 0xeb9d2d30_2d88_11d3_9a16_0090273fc14du128 && (forall|j: int|
            0 <= j < i ==> (#[trigger] tables[j]).guid
                != 0xeb9d2d30_2d88_11d3_9a16_0090273fc14du128) && (forall|j: int|
            0 <= j < tables.len() ==> (#[trigger] tables[j]).guid
                != 0x8868e871_e4f1_11d3_bc22_0080c73c8881u128) ==> firmware_tables(tables).rsdp
            == Some(tables[i].address),
        tables[i].guid == 0xb1b621d5_f19c_41a5_830b_d9152c69aae0u128 && (forall|j: int|
            i < j < tables.len() ==> (#[trigger] tables[j]).guid
                != 0xb1b621d5_f19c_41a5_830b_d9152c69aae0u128) ==> firmware_tables(tables).fdt
            == Some(tables[i].address),
{
    if forall|j: int| i < j < tables.len() ==> (#[trigger] tables[j]).guid != tables[i].guid {
        lemma_last_table(tables, i);
    }
    if forall|j: int| 0 <= j < i ==> (#[trigger] tables[j]).guid != tables[i].guid {
        lemma_first_table(tables, i);
    }
    if forall|j: int| 0 <= j < tables.len() ==> (#[trigger] tables[j]).guid != ACPI2_GUID {
        lemma_no_table(tables, ACPI2_GUID);
    }
}

/// Where there is no table of a kind, nothing is found.
pub proof fn law_what_is_not_there_is_not_found(tables: Seq<ConfigTable>)
    ensures
        (forall|j: int|
            0 <= j < tables.len() ==> (#[trigger] tables[j]).guid
                != 0x8868e871_e4f1_11d3_bc22_0080c73c8881u128 && tables[j].guid
                != 0xeb9d2d30_2d88_11d3_9a16_0090273fc14du128) ==> firmware_tables(tables).rsdp
            is None,
        (forall|j: int|
            0 <= j < tables.len() ==> (#[trigger] tables[j]).guid
                != 0xb1b621d5_f19c_41a5_830b_d9152c69aae0u128) ==> firmware_tables(tables).fdt
            is None,
{
    if forall|j: int|
        0 <= j < tables.len() ==> (#[trigger] tables[j]).guid != ACPI2_GUID && tables[j].guid
            != ACPI_GUID {
        lemma_no_table(tables, ACPI2_GUID);
        lemma_no_table(tables, ACPI_GUID);
    }
    if forall|j: int| 0 <= j < tables.len() ==> (#[trigger] tables[j]).guid != EFI_DTB_TABLE_GUID {
        lemma_no_table(tables, EFI_DTB_TABLE_GUID);
    }
}

/// The last table of a kind is found.
proof fn lemma_last_table(tables: Seq<ConfigTable>, i: int)
    requires
        0 <= i < tables.len(),
        forall|j: int| i < j < tables.len() ==> (#[trigger] tables[j]).guid != tables[i].guid,
    ensures
        last_table(tables, tables[i].guid) == Some(tables[i].address),
    decreases tables.len(),
{
    let n = tables.len() - 1;
    if i < n {
        let fewer = tables.drop_last();
        assert(tables[n].guid != tables[i].guid);
        assert forall|j: int| i < j < fewer.len() implies (#[trigger] fewer[j]).guid
            != fewer[i].guid by {
            assert(fewer[j] == tables[j]);
        }
        lemma_last_table(fewer, i);
    }
}

/// The first table of a kind is found.
proof fn lemma_first_table(tables: Seq<ConfigTable>, i: int)
    requires
        0 <= i < tables.len(),
        forall|j: int| 0 <= j < i ==> (#[trigger] tables[j]).guid != tables[i].guid,
    ensures
        first_table(tables, tables[i].guid) == Some(tables[i].address),
    decreases tables.len(),
{
    let n = tables.len() - 1;
    let fewer = tables.drop_last();
    assert forall|j: int| 0 <= j < fewer.len() implies fewer[j] == tables[j] by {}
    if i < n {
        lemma_first_table(fewer, i);
    } else {
        lemma_no_table(fewer, tables[i].guid);
    }
}

/// Where there is no table of a kind, none is found.
proof fn lemma_no_table(tables: Seq<ConfigTable>, guid: u128)
    requires
        forall|j: int| 0 <= j < tables.len() ==> (#[trigger] tables[j]).guid != guid,
    ensures
        last_table(tables, guid) is None,
        first_table(tables, guid) is None,
    decreases tables.len(),
{
    if tables.len() > 0 {
        assert(tables[tables.len() - 1].guid != guid);
        let fewer = tables.drop_last();
        assert forall|j: int| 0 <= j < fewer.len() implies (#[trigger] fewer[j]).guid != guid by {
            assert(fewer[j] == tables[j]);
        }
        lemma_no_table(fewer, guid);
    }
}

} // verus!
