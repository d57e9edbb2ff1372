//! Installing the translation tables of the kernel.
//!
//! The tables themselves are built by a mapper of the platform. This module works out what goes
//! into the registers that switch them on, and into the table entry that maps the tables
//! themselves.
mod install_format_private;

use vstd::prelude::*;

verus! {

/// Why the translation tables cannot be built or installed.
#[derive(Clone, Copy, Debug, Eq, PartialEq)]
pub enum MapperError {
    NullTable,
    NoMemory,
    InvalidGeometry,
    UnsupportedPhysicalAddressWidth(u8),
    UnsupportedDescriptorFormat,
}

/// The size of a page of the translation tables.
#[derive(Clone, Copy, Debug, Eq, PartialEq)]
pub enum GranuleKind {
    Size4KiB,
    Size16KiB,
    Size64KiB,
}

impl GranuleKind {
    /// The size in bytes.
    pub open spec fn bytes(self) -> u64 {
        match self {
            GranuleKind::Size4KiB => 0x1000,
            GranuleKind::Size16KiB => 0x4000,
            GranuleKind::Size64KiB => 0x10000,
        }
    }

    /// The size in bytes.
    pub fn size(self) -> (r: u64)
        ensures
            r == self.bytes(),
    {
        match self {
            GranuleKind::Size4KiB => 0x1000,
            GranuleKind::Size16KiB => 0x4000,
            GranuleKind::Size64KiB => 0x10000,
        }
    }
}

// ---------------------------------------------------------------------------------------------
// Descriptor formats and configuration
// ---------------------------------------------------------------------------------------------
/// A descriptor format whose tables can be installed.
pub trait InstallableDescriptorFormat: install_format_private::Sealed {
    /// Whether descriptors have 128 bits.
    const USES_D128: bool;

    /// The translation control register with this format selected.
    spec fn configured_tcr(tcr: u64) -> u64;

    /// Selects this format in the translation control register.
    fn configure_tcr(tcr: &mut u64)
        ensures
            *final(tcr) == Self::configured_tcr(*old(tcr)),
    ;
}

/// 64-bit descriptors.
#[derive(Clone, Copy, Debug)]
pub struct Vmsa64;

/// 64-bit descriptors with 52-bit addresses in all granules.
#[derive(Clone, Copy, Debug)]
pub struct Vmsa64Lpa2;

/// 128-bit descriptors.
#[derive(Clone, Copy, Debug)]
pub struct Vmsa128;

/// The bit of the translation control register that selects 52-bit addresses.
pub const TCR_DS: u64 = 0x0800_0000_0000_0000;

/// The bit of the second translation control register that selects 128-bit descriptors.
pub const TCR2_D128: u64 = 0x20;

impl install_format_private::Sealed for Vmsa64 {

}

impl InstallableDescriptorFormat for Vmsa64 {
    const USES_D128: bool = false;

    open spec fn configured_tcr(tcr: u64) -> u64 {
        tcr & !TCR_DS
    }

    fn configure_tcr(tcr: &mut u64) {
        *tcr = *tcr & !TCR_DS;
    }
}

impl install_format_private::Sealed for Vmsa64Lpa2 {

}

impl InstallableDescriptorFormat for Vmsa64Lpa2 {
    const USES_D128: bool = false;

    open spec fn configured_tcr(tcr: u64) -> u64 {
        tcr | TCR_DS
    }

    fn configure_tcr(tcr: &mut u64) {
        *tcr = *tcr | TCR_DS;
    }
}

impl install_format_private::Sealed for Vmsa128 {

}

impl InstallableDescriptorFormat for Vmsa128 {
    const USES_D128: bool = true;

    open spec fn configured_tcr(tcr: u64) -> u64 {
        tcr & !TCR_DS
    }

    fn configure_tcr(tcr: &mut u64) {
        *tcr = *tcr & !TCR_DS;
    }
}

/// What the registers need to know about memory: the attributes that descriptors select from, and
/// how the tables themselves are accessed.
pub trait BootTranslationConfig {
    spec fn mair_value(&self) -> u64;

    spec fn shareability(&self) -> u8;

    spec fn outer_cacheability(&self) -> u8;

    spec fn inner_cacheability(&self) -> u8;

    /// The memory attributes that descriptors select from.
    fn mair(&self) -> (r: u64)
        ensures
            r == self.mair_value(),
    ;

    /// The shareability of table walks.
    fn table_walk_shareability(&self) -> (r: u8)
        ensures
            r == self.shareability(),
    ;

    /// The outer cacheability of table walks.
    fn table_walk_outer_cacheability(&self) -> (r: u8)
        ensures
            r == self.outer_cacheability(),
    ;

    /// The inner cacheability of table walks.
    fn table_walk_inner_cacheability(&self) -> (r: u8)
        ensures
            r == self.inner_cacheability(),
    ;
}

/// A configuration with fixed values, of which the two lowest bits count.
#[derive(Clone, Copy, Debug, Eq, PartialEq)]
pub struct BootConfig {
    pub mair: u64,
    pub table_walk_shareability: u8,
    pub table_walk_outer_cacheability: u8,
    pub table_walk_inner_cacheability: u8,
}

impl Default for BootConfig {
    /// Normal write-back memory; walks are inner shareable and cached.
    fn default() -> (r: Self)
        ensures
            r == (BootConfig {
                mair: 0xff,
                table_walk_shareability: 3,
                table_walk_outer_cacheability: 1,
                table_walk_inner_cacheability: 1,
            }),
    {
        BootConfig {
            mair: 0xff,
            table_walk_shareability: 0b11,
            table_walk_outer_cacheability: 0b01,
            table_walk_inner_cacheability: 0b01,
        }
    }
}

impl BootTranslationConfig for BootConfig {
    open spec fn mair_value(&self) -> u64 {
        self.mair
    }

    open spec fn shareability(&self) -> u8 {
        self.table_walk_shareability % 4
    }

    open spec fn outer_cacheability(&self) -> u8 {
        self.table_walk_outer_cacheability % 4
    }

    open spec fn inner_cacheability(&self) -> u8 {
        self.table_walk_inner_cacheability % 4
    }

    fn mair(&self) -> (r: u64) {
        self.mair
    }

    fn table_walk_shareability(&self) -> (r: u8) {
        let x: u8 = self.table_walk_shareability;
        assert(x & 0b11 == x % 4) by (bit_vector);
        x & 0b11
    }

    fn table_walk_outer_cacheability(&self) -> (r: u8) {
        let x: u8 = self.table_walk_outer_cacheability;
        assert(x & 0b11 == x % 4) by (bit_vector);
        x & 0b11
    }

    fn table_walk_inner_cacheability(&self) -> (r: u8) {
        let x: u8 = self.table_walk_inner_cacheability;
        assert(x & 0b11 == x % 4) by (bit_vector);
        x & 0b11
    }
}

// ---------------------------------------------------------------------------------------------
// Registers
// ---------------------------------------------------------------------------------------------
/// The encoding of a physical address width; `None` where there is none.
pub open spec fn ips_of(output_addr_bits: u8) -> Option<u64> {
    if output_addr_bits == 32 {
        Some(0)
    } else if output_addr_bits == 36 {
        Some(1)
    } else if output_addr_bits == 40 {
        Some(2)
    } else if output_addr_bits == 42 {
        Some(3)
    } else if output_addr_bits == 44 {
        Some(4)
    } else if output_addr_bits == 48 {
        Some(5)
    } else if output_addr_bits == 52 {
        Some(6)
    } else {
        None
    }
}

/// The encoding of the granule.
pub open spec fn tg1_of(granule: GranuleKind) -> u64 {
    match granule {
        GranuleKind::Size4KiB => 2,
        GranuleKind::Size16KiB => 1,
        GranuleKind::Size64KiB => 3,
    }
}

/// The field of three bits from bit 32 on.
pub open spec fn ips_field(tcr: u64) -> u64 {
    (tcr / 0x1_0000_0000) % 8
}

/// The fields of the translation control register that are about the upper half of the address
/// space: the physical address width, the granule, the shareability and cacheability of walks,
/// whether walks are off, and the size of the address space.
pub const TTBR1_MASK: u64 = 0x7_ffbf_0000;

/// The encoding of a physical address width.
fn ips_encoding(output_addr_bits: u8) -> (r: Result<u64, MapperError>)
    ensures
        match r {
            Ok(ips) => ips_of(output_addr_bits) == Some(ips),
            Err(e) => ips_of(output_addr_bits) is None && e
                == MapperError::UnsupportedPhysicalAddressWidth(output_addr_bits),
        },
{
    match output_addr_bits {
        32 => Ok(0),
        36 => Ok(1),
        40 => Ok(2),
        42 => Ok(3),
        44 => Ok(4),
        48 => Ok(5),
        52 => Ok(6),
        bits => Err(MapperError::UnsupportedPhysicalAddressWidth(bits)),
    }
}

/// The physical address width that the translation control register gives, in bits.
pub fn output_addr_bits(tcr: u64) -> (r: Option<u8>)
    ensures
        match r {
            Some(bits) => ips_of(bits) == Some(ips_field(tcr)),
            None => ips_field(tcr) == 7,
        },
{
    assert((tcr >> 32) & 0x7 == (tcr / 0x1_0000_0000) % 8) by (bit_vector);
    match (tcr >> 32) & 0x7 {
        0 => Some(32),
        1 => Some(36),
        2 => Some(40),
        3 => Some(42),
        4 => Some(44),
        5 => Some(48),
        6 => Some(52),
        _ => None,
    }
}

/// The translation control register with the fields of the upper half set.
pub open spec fn upper_half_tcr(
    tcr: u64,
    ips: u64,
    tg1: u64,
    shareability: u64,
    outer: u64,
    inner: u64,
    t1sz: u64,
) -> u64 {
    (tcr & !TTBR1_MASK) | (ips << 32) | (tg1 << 30) | (shareability << 28) | (outer << 26) | (inner
        << 24) | (t1sz << 16)
}

/// What the registers need to know about the tables.
#[derive(Clone, Copy, Debug, Eq, PartialEq)]
pub struct RootInfo {
    /// The address of the root table.
    pub addr: u64,
    /// The width of virtual addresses in bits.
    pub addr_bits: u8,
    /// The width of physical addresses in bits.
    pub output_addr_bits: u8,
    pub granule: GranuleKind,
}

/// What goes into the registers when the tables are installed.
#[derive(Clone, Copy, Debug, Eq, PartialEq)]
pub struct InstallPlan {
    pub mair: u64,
    /// Only where the processor has this register.
    pub tcr2: Option<u64>,
    pub tcr: u64,
    pub root_table: u64,
}

/// The second translation control register with the descriptor size selected.
pub open spec fn descriptor_size_tcr2(d128: bool, tcr2: u64) -> u64 {
    if d128 {
        tcr2 | TCR2_D128
    } else {
        tcr2 & !TCR2_D128
    }
}

/// The outcome of planning an installation.
pub open spec fn install_plan<F: InstallableDescriptorFormat, C: BootTranslationConfig>(
    config: C,
    root: RootInfo,
    format_supported: bool,
    tcr: u64,
    tcr2: Option<u64>,
) -> Result<InstallPlan, MapperError> {
    if !format_supported {
        Err(MapperError::UnsupportedDescriptorFormat)
    } else {
        match ips_of(root.output_addr_bits) {
            None => Err(MapperError::UnsupportedPhysicalAddressWidth(root.output_addr_bits)),
            Some(ips) => Ok(
                InstallPlan {
                    mair: config.mair_value(),
                    tcr2: match tcr2 {
                        Some(value) => Some(descriptor_size_tcr2(F::USES_D128, value)),
                        None => None,
                    },
                    tcr: F::configured_tcr(
                        upper_half_tcr(
                            tcr,
                            ips,
                            tg1_of(root.granule),
                            config.shareability() as u64,
                            config.outer_cacheability() as u64,
                            config.inner_cacheability() as u64,
                            (64 - root.addr_bits) as u64,
                        ),
                    ),
                    root_table: root.addr,
                },
            ),
        }
    }
}

/// Works out what goes into the registers when the tables are installed, from what the translation
/// control registers hold now. `tcr2` is there only where the processor has that register.
pub fn plan_install<F: InstallableDescriptorFormat, C: BootTranslationConfig>(
    config: &C,
    root: RootInfo,
    format_supported: bool,
    tcr: u64,
    tcr2: Option<u64>,
) -> (r: Result<InstallPlan, MapperError>)
    requires
        root.addr_bits <= 64,
    ensures
        r == install_plan::<F, C>(*config, root, format_supported, tcr, tcr2),
{
    if !format_supported {
        return Err(MapperError::UnsupportedDescriptorFormat);
    }
    let ips: u64 = match ips_encoding(root.output_addr_bits) {
        Ok(ips) => ips,
        Err(e) => {
            return Err(e);
        },
    };
    let tg1: u64 = match root.granule {
        GranuleKind::Size4KiB => 2,
        GranuleKind::Size16KiB => 1,
        GranuleKind::Size64KiB => 3,
    };
    let shareability: u64 = config.table_walk_shareability() as u64;
    let outer: u64 = config.table_walk_outer_cacheability() as u64;
    let inner: u64 = config.table_walk_inner_cacheability() as u64;
    let t1sz: u64 = 64u64 - root.addr_bits as u64;
    let mut new_tcr: u64 = (tcr & !TTBR1_MASK) | (ips << 32) | (tg1 << 30) | (shareability << 28) | (
    outer << 26) | (inner << 24) | (t1sz << 16);
    F::configure_tcr(&mut new_tcr);
    let new_tcr2: Option<u64> = match tcr2 {
        Some(value) => if F::USES_D128 {
            Some(value | TCR2_D128)
        } else {
            Some(value & !TCR2_D128)
        },
        None => None,
    };
    Ok(InstallPlan { mair: config.mair(), tcr2: new_tcr2, tcr: new_tcr, root_table: root.addr })
}

/// The register holds what the tables ask for, field by field, and keeps every bit that is not
/// about the upper half of the address space.
pub proof fn law_upper_half_tcr_fields(
    tcr: u64,
    ips: u64,
    tg1: u64,
    shareability: u64,
    outer: u64,
    inner: u64,
    t1sz: u64,
)
    requires
        ips < 8,
        tg1 < 4,
        shareability < 4,
        outer < 4,
        inner < 4,
        t1sz < 64,
    ensures
        ({
            let r = upper_half_tcr(tcr, ips, tg1, shareability, outer, inner, t1sz);
            &&& ips_field(r) == ips
            &&& (r / 0x4000_0000) % 4 == tg1
            &&& (r / 0x1000_0000) % 4 == shareability
            &&& (r / 0x400_0000) % 4 == outer
            &&& (r / 0x100_0000) % 4 == inner
            &&& (r / 0x80_0000) % 2 == 0
            &&& (r / 0x1_0000) % 64 == t1sz
            &&& r & !TTBR1_MASK == tcr & !TTBR1_MASK
        }),
{
    let r = upper_half_tcr(tcr, ips, tg1, shareability, outer, inner, t1sz);
    assert((r / 0x1_0000_0000) % 8 == ips && (r / 0x4000_0000) % 4 == tg1 && (r / 0x1000_0000) % 4
        == shareability && (r / 0x400_0000) % 4 == outer && (r / 0x100_0000) % 4 == inner && (r
        / 0x80_0000) % 2 == 0 && (r / 0x1_0000) % 64 == t1sz && r & !0x7_ffbf_0000u64 == tcr
        & !0x7_ffbf_0000u64) by (bit_vector)
        requires
            r == (tcr & !0x7_ffbf_0000u64) | (ips << 32) | (tg1 << 30) | (shareability << 28) | (
            outer << 26) | (inner << 24) | (t1sz << 16),
            ips < 8,
            tg1 < 4,
            shareability < 4,
            outer < 4,
            inner < 4,
            t1sz < 64,
    ;
}

/// Selecting a format changes one bit of the register, and none that is about the upper half.
pub proof fn law_format_keeps_the_upper_half(tcr: u64)
    ensures
        Vmsa64::configured_tcr(tcr) & !TCR_DS == tcr & !TCR_DS,
        Vmsa64Lpa2::configured_tcr(tcr) & !TCR_DS == tcr & !TCR_DS,
        Vmsa128::configured_tcr(tcr) & !TCR_DS == tcr & !TCR_DS,
        Vmsa64::configured_tcr(tcr) & TCR_DS == 0,
        Vmsa64Lpa2::configured_tcr(tcr) & TCR_DS == TCR_DS,
        Vmsa128::configured_tcr(tcr) & TCR_DS == 0,
        TCR_DS & TTBR1_MASK == 0,
        ips_field(Vmsa64::configured_tcr(tcr)) == ips_field(tcr),
        ips_field(Vmsa64Lpa2::configured_tcr(tcr)) == ips_field(tcr),
        ips_field(Vmsa128::configured_tcr(tcr)) == ips_field(tcr),
{
    let a = tcr & !0x0800_0000_0000_0000u64;
    let b = tcr | 0x0800_0000_0000_0000u64;
    assert(a & !0x0800_0000_0000_0000u64 == tcr & !0x0800_0000_0000_0000u64 && a
        & 0x0800_0000_0000_0000u64 == 0 && (a / 0x1_0000_0000) % 8 == (tcr / 0x1_0000_0000) % 8)
        by (bit_vector)
        requires
            a == tcr & !0x0800_0000_0000_0000u64,
    ;
    assert(b & !0x0800_0000_0000_0000u64 == tcr & !0x0800_0000_0000_0000u64 && b
        & 0x0800_0000_0000_0000u64 == 0x0800_0000_0000_0000u64 && (b / 0x1_0000_0000) % 8 == (tcr
        / 0x1_0000_0000) % 8) by (bit_vector)
        requires
            b == tcr | 0x0800_0000_0000_0000u64,
    ;
    assert(0x0800_0000_0000_0000u64 & 0x7_ffbf_0000u64 == 0) by (bit_vector);
}

/// The physical address width that has been installed is the one that is read back.
pub proof fn law_installed_width_reads_back<C: BootTranslationConfig>(
    config: C,
    root: RootInfo,
    tcr: u64,
    tcr2: Option<u64>,
)
    requires
        1 <= root.addr_bits <= 64,
        config.shareability() < 4,
        config.outer_cacheability() < 4,
        config.inner_cacheability() < 4,
    ensures
        install_plan::<Vmsa64, C>(config, root, true, tcr, tcr2) matches Ok(plan) ==> ips_of(
            root.output_addr_bits,
        ) == Some(ips_field(plan.tcr)),
        install_plan::<Vmsa64Lpa2, C>(config, root, true, tcr, tcr2) matches Ok(plan) ==> ips_of(
            root.output_addr_bits,
        ) == Some(ips_field(plan.tcr)),
        install_plan::<Vmsa128, C>(config, root, true, tcr, tcr2) matches Ok(plan) ==> ips_of(
            root.output_addr_bits,
        ) == Some(ips_field(plan.tcr)),
{
    if let Some(ips) = ips_of(root.output_addr_bits) {
        let r = upper_half_tcr(
            tcr,
            ips,
            tg1_of(root.granule),
            config.shareability() as u64,
            config.outer_cacheability() as u64,
            config.inner_cacheability() as u64,
            (64 - root.addr_bits) as u64,
        );
        law_upper_half_tcr_fields(
            tcr,
            ips,
            tg1_of(root.granule),
            config.shareability() as u64,
            config.outer_cacheability() as u64,
            config.inner_cacheability() as u64,
            (64 - root.addr_bits) as u64,
        );
        law_format_keeps_the_upper_half(r);
    }
}

/// Different physical address widths have different encodings.
pub proof fn law_ips_is_injective(a: u8, b: u8)
    requires
        ips_of(a) is Some,
        ips_of(a) == ips_of(b),
    ensures
        a == b,
{
}

// ---------------------------------------------------------------------------------------------
// What the operations are for
// ---------------------------------------------------------------------------------------------
/// A granule is 4, 16 or 64 KiB, which is two to the power of 12, 14 or 16.
pub proof fn law_granules_are_powers_of_two(granule: GranuleKind)
    ensures
        granule is Size4KiB ==> granule.bytes() == 1u64 << 12,
        granule is Size16KiB ==> granule.bytes() == 1u64 << 14,
        granule is Size64KiB ==> granule.bytes() == 1u64 << 16,
{
    assert(1u64 << 12 == 0x1000 && 1u64 << 14 == 0x4000 && 1u64 << 16 == 0x10000) by (bit_vector);
}

/// Each width of physical addresses that the architecture has is encoded by its place in the list of
/// widths, and no other width is encoded.
pub proof fn law_widths_are_encoded_by_their_place(width: u8, place: int)
    requires
        0 <= place < 7,
    ensures
        width == seq![32u8, 36, 40, 42, 44, 48, 52][place] ==> ips_of(width) == Some(place as u64),
        ips_of(width) is Some <==> seq![32u8, 36, 40, 42, 44, 48, 52].contains(width),
{
    let widths = seq![32u8, 36, 40, 42, 44, 48, 52];
    if ips_of(width) is Some {
        assert(widths[ips_of(width)->0 as int] == width);
    }
}

/// The width is read from the bits 32 to 34 of the register.
pub proof fn law_the_width_is_in_three_bits(tcr: u64)
    ensures
        ips_field(tcr) == (tcr >> 32) & 0x7,
{
    assert((tcr >> 32) & 0x7 == (tcr / 0x1_0000_0000) % 8) by (bit_vector);
}

/// The settings of the walks are the lowest two bits of what was configured; the memory attributes
/// are as configured.
pub proof fn law_walks_are_as_configured(config: BootConfig)
    ensures
        config.mair_value() == config.mair,
        config.shareability() == config.table_walk_shareability & 3,
        config.outer_cacheability() == config.table_walk_outer_cacheability & 3,
        config.inner_cacheability() == config.table_walk_inner_cacheability & 3,
{
    let a = config.table_walk_shareability;
    let b = config.table_walk_outer_cacheability;
    let c = config.table_walk_inner_cacheability;
    assert(a & 3 == a % 4 && b & 3 == b % 4 && c & 3 == c % 4) by (bit_vector);
}

/// Tables can be installed if and only if the processor has their format and the width of physical
/// addresses has an encoding. The root table that is installed is the root table, wherever it is; the
/// memory attributes are the configured ones; and of the second control register, where there is one,
/// the bit for descriptors of 128 bits says whether the format has them, and no other bit changes.
pub proof fn law_what_is_installed_is_what_was_built<
    F: InstallableDescriptorFormat,
    C: BootTranslationConfig,
>(config: C, root: RootInfo, supported: bool, tcr: u64, tcr2: Option<u64>)
    ensures
        ({
            let outcome = install_plan::<F, C>(config, root, supported, tcr, tcr2);
            let width = root.output_addr_bits;
            let encoded = width == 32 || width == 36 || width == 40 || width == 42 || width == 44
                || width == 48 || width == 52;
            &&& !supported ==> outcome == Err::<InstallPlan, MapperError>(
                MapperError::UnsupportedDescriptorFormat,
            )
            &&& supported && !encoded ==> outcome == Err::<InstallPlan, MapperError>(
                MapperError::UnsupportedPhysicalAddressWidth(width),
            )
            &&& supported && encoded ==> outcome is Ok
            &&& outcome matches Ok(plan) ==> {
                &&& plan.root_table == root.addr
                &&& plan.mair == config.mair_value()
                &&& plan.tcr2 is Some <==> tcr2 is Some
                &&& plan.tcr2 is Some ==> {
                    &&& plan.tcr2->0 & 0x20 == if F::USES_D128 {
                        0x20u64
                    } else {
                        0u64
                    }
                    &&& plan.tcr2->0 & !0x20u64 == tcr2->0 & !0x20u64
                }
            }
        }),
{
    if let Some(v) = tcr2 {
        assert((v | 0x20) & 0x20 == 0x20 && (v | 0x20) & !0x20u64 == v & !0x20u64 && (v & !0x20u64)
            & 0x20 == 0 && (v & !0x20u64) & !0x20u64 == v & !0x20u64) by (bit_vector);
    }
}

/// Whether a control register has these fields for the upper half of the address space, and is as
/// `before` in every bit but those and the one that selects 52-bit addresses.
pub open spec fn has_fields(
    tcr: u64,
    before: u64,
    width: u64,
    granule: u64,
    shareability: u64,
    outer: u64,
    inner: u64,
    size: u64,
) -> bool {
    &&& (tcr >> 32) & 7 == width
    &&& (tcr >> 30) & 3 == granule
    &&& (tcr >> 28) & 3 == shareability
    &&& (tcr >> 26) & 3 == outer
    &&& (tcr >> 24) & 3 == inner
    &&& (tcr >> 23) & 1 == 0
    &&& (tcr >> 16) & 63 == size
    &&& tcr & 0xf7ff_fff8_0040_ffff == before & 0xf7ff_fff8_0040_ffff
}

/// The control register that is installed says how the tables were built, bit field by bit field, and
/// keeps what is not about them. Only the format with 52-bit addresses in all granules selects them.
pub proof fn law_the_control_register_describes_the_tables<C: BootTranslationConfig>(
    config: C,
    root: RootInfo,
    tcr: u64,
    tcr2: Option<u64>,
    width: u64,
)
    requires
        1 <= root.addr_bits <= 64,
        config.shareability() < 4,
        config.outer_cacheability() < 4,
        config.inner_cacheability() < 4,
        width < 7,
        root.output_addr_bits == seq![32u8, 36, 40, 42, 44, 48, 52][width as int],
    ensures
        ({
            let granule: u64 = match root.granule {
                GranuleKind::Size4KiB => 2,
                GranuleKind::Size16KiB => 1,
                GranuleKind::Size64KiB => 3,
            };
            let a = install_plan::<Vmsa64, C>(config, root, true, tcr, tcr2)->Ok_0.tcr;
            let b = install_plan::<Vmsa64Lpa2, C>(config, root, true, tcr, tcr2)->Ok_0.tcr;
            let c = install_plan::<Vmsa128, C>(config, root, true, tcr, tcr2)->Ok_0.tcr;
            let s = config.shareability() as u64;
            let o = config.outer_cacheability() as u64;
            let i = config.inner_cacheability() as u64;
            let z = (64 - root.addr_bits) as u64;
            &&& has_fields(a, tcr, width, granule, s, o, i, z)
            &&& has_fields(b, tcr, width, granule, s, o, i, z)
            &&& has_fields(c, tcr, width, granule, s, o, i, z)
            &&& (a >> 59) & 1 == 0
            &&& (b >> 59) & 1 == 1
            &&& (c >> 59) & 1 == 0
        }),
{
    let granule: u64 = match root.granule {
        GranuleKind::Size4KiB => 2,
        GranuleKind::Size16KiB => 1,
        GranuleKind::Size64KiB => 3,
    };
    let s = config.shareability() as u64;
    let o = config.outer_cacheability() as u64;
    let i = config.inner_cacheability() as u64;
    let z = (64 - root.addr_bits) as u64;
    assert(ips_of(root.output_addr_bits) == Some(width));
    let r = upper_half_tcr(tcr, width, granule, s, o, i, z);
    let cleared = r & !0x0800_0000_0000_0000u64;
    let set = r | 0x0800_0000_0000_0000u64;
    assert((cleared >> 32) & 7 == width && (cleared >> 30) & 3 == granule && (cleared >> 28) & 3 == s
        && (cleared >> 26) & 3 == o && (cleared >> 24) & 3 == i && (cleared >> 23) & 1 == 0 && (
    cleared >> 16) & 63 == z && cleared & 0xf7ff_fff8_0040_ffff == tcr & 0xf7ff_fff8_0040_ffff && (
    cleared >> 59) & 1 == 0) by (bit_vector)
        requires
            r == (tcr & !0x7_ffbf_0000u64) | (width << 32) | (granule << 30) | (s << 28) | (o << 26)
                | (i << 24) | (z << 16),
            cleared == r & !0x0800_0000_0000_0000u64,
            width < 7,
            granule < 4,
            s < 4,
            o < 4,
            i < 4,
            z < 64,
    ;
    assert((set >> 32) & 7 == width && (set >> 30) & 3 == granule && (set >> 28) & 3 == s && (set
        >> 26) & 3 == o && (set >> 24) & 3 == i && (set >> 23) & 1 == 0 && (set >> 16) & 63 == z
        && set & 0xf7ff_fff8_0040_ffff == tcr & 0xf7ff_fff8_0040_ffff && (set >> 59) & 1 == 1)
        by (bit_vector)
        requires
            r == (tcr & !0x7_ffbf_0000u64) | (width << 32) | (granule << 30) | (s << 28) | (o << 26)
                | (i << 24) | (z << 16),
            set == r | 0x0800_0000_0000_0000u64,
            width < 7,
            granule < 4,
            s < 4,
            o < 4,
            i < 4,
            z < 64,
    ;
}

} // verus!
