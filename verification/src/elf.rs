//! The parts of an ELF file that loading a kernel needs.
//!
//! The file itself is parsed by `goblin`. What it found is copied into `KernelElf`, on which every
//! decision of the loader is made.
use vstd::prelude::*;

verus! {

/// `e_machine` of a 64-bit Arm executable.
pub const EM_AARCH64: u16 = 183;

/// `e_type` of an executable at fixed addresses.
pub const ET_EXEC: u16 = 2;

/// `e_type` of a position-independent executable or a shared object.
pub const ET_DYN: u16 = 3;

/// `p_type` of a segment that is loaded into memory.
pub const PT_LOAD: u32 = 1;

/// One program header.
#[derive(Clone, Copy, Debug, Eq, PartialEq)]
pub struct ProgramHeader {
    pub p_type: u32,
    pub p_flags: u32,
    pub p_offset: u64,
    pub p_vaddr: u64,
    pub p_filesz: u64,
    pub p_memsz: u64,
    pub p_align: u64,
}

/// What the loader reads of an ELF file.
#[derive(Clone, Debug, Eq, PartialEq)]
pub struct KernelElf {
    pub e_machine: u16,
    pub e_type: u16,
    pub is_64: bool,
    pub little_endian: bool,
    pub entry: u64,
    pub has_interpreter: bool,
    pub has_dynamic: bool,
    pub program_headers: Vec<ProgramHeader>,
}

/// A `KernelElf` as a mathematical value.
#[verifier::ext_equal]
pub struct ElfModel {
    pub e_machine: u16,
    pub e_type: u16,
    pub is_64: bool,
    pub little_endian: bool,
    pub entry: u64,
    pub has_interpreter: bool,
    pub has_dynamic: bool,
    pub program_headers: Seq<ProgramHeader>,
}

impl View for KernelElf {
    type V = ElfModel;

    open spec fn view(&self) -> ElfModel {
        ElfModel {
            e_machine: self.e_machine,
            e_type: self.e_type,
            is_64: self.is_64,
            little_endian: self.little_endian,
            entry: self.entry,
            has_interpreter: self.has_interpreter,
            has_dynamic: self.has_dynamic,
            program_headers: self.program_headers@,
        }
    }
}

/// The bytes are no ELF file that can be parsed.
#[derive(Clone, Copy, Debug, Eq, PartialEq)]
pub struct ElfParseError;

/// The error of `goblin::elf::Elf::parse`; nothing is read from it.
#[verifier::external_type_specification]
#[verifier::external_body]
pub struct ExGoblinError(goblin::error::Error);

/// What `goblin::elf::Elf::parse` finds in these bytes; `None` where it reports an error.
pub uninterp spec fn goblin_elf(bytes: Seq<u8>) -> Option<ElfModel>;

/// Calls `goblin::elf::Elf::parse` and copies the header fields, the entry point, whether there is
/// an interpreter and a dynamic section, and the program headers in their order. The parser reads
/// nothing but its argument, so its outcome is a function of the bytes, here called `goblin_elf`.
#[verifier::external_body]
fn goblin_parse(bytes: &[u8]) -> (r: Result<KernelElf, goblin::error::Error>)
    ensures
        r is Ok <==> goblin_elf(bytes@) is Some,
        r matches Ok(elf) ==> goblin_elf(bytes@) == Some(elf@),
{
    let elf = goblin::elf::Elf::parse(bytes)?;
    let header = |p: &goblin::elf::ProgramHeader| ProgramHeader { p_type: p.p_type, p_flags: p.p_flags,
        p_offset: p.p_offset, p_vaddr: p.p_vaddr, p_filesz: p.p_filesz, p_memsz: p.p_memsz,
        p_align: p.p_align };
    Ok(KernelElf { e_machine: elf.header.e_machine, e_type: elf.header.e_type, is_64: elf.is_64,
        little_endian: elf.little_endian, entry: elf.entry,
        has_interpreter: elf.interpreter.is_some(), has_dynamic: elf.dynamic.is_some(),
        program_headers: elf.program_headers.iter().map(header).collect() })
}

impl KernelElf {
    /// Parses an ELF file.
    pub fn parse(bytes: &[u8]) -> (r: Result<Self, ElfParseError>)
        ensures
            r is Ok <==> goblin_elf(bytes@) is Some,
            r matches Ok(elf) ==> goblin_elf(bytes@) == Some(elf@),
    {
        match goblin_parse(bytes) {
            Ok(elf) => Ok(elf),
            Err(_) => Err(ElfParseError),
        }
    }
}

} // verus!
