//! Kernel files, as goblin reads them, and the encodings that goblin and scroll write.

use vstd::prelude::*;

use crate::elf::{ElfHeader, ProgramHeader, Rela, Sym};

verus! {

/// What a kernel is booted from, out of its ELF file.
#[derive(Debug)]
pub struct ElfImage {
    pub header: ElfHeader,
    pub program_headers: Vec<ProgramHeader>,
    pub relas: Vec<Rela>,
    pub dyn_syms: Vec<Sym>,
}

/// The contents of an `ElfImage`.
#[verifier::ext_equal]
pub struct ElfImageView {
    pub header: ElfHeader,
    pub program_headers: Seq<ProgramHeader>,
    pub relas: Seq<Rela>,
    pub dyn_syms: Seq<Sym>,
}

impl View for ElfImage {
    type V = ElfImageView;

    open spec fn view(&self) -> ElfImageView {
        ElfImageView {
            header: self.header,
            program_headers: self.program_headers@,
            relas: self.relas@,
            dyn_syms: self.dyn_syms@,
        }
    }
}

/// What `goblin::elf::Elf::parse` finds in a file: its header, its program headers, the dynamic
/// relocations with an addend and the dynamic symbols, or nothing where it gives an error.
pub uninterp spec fn parsed_elf(file: Seq<u8>) -> Option<ElfImageView>;

/// The header and the program headers that `goblin::elf::Elf::parse` finds in `file`, field by
/// field, or `None` where it gives an error.
#[verifier::external_body]
fn parse_headers(file: &[u8]) -> (parsed: Option<(ElfHeader, Vec<ProgramHeader>)>)
    ensures
        parsed is Some == parsed_elf(file@) is Some,
        parsed matches Some(p) ==> p.0 == parsed_elf(file@)->0.header && p.1@ == parsed_elf(
            file@,
        )->0.program_headers,
{
    let elf = goblin::elf::Elf::parse(file).ok()?;
    let h = elf.header;
    let header = ElfHeader {
        e_ident: h.e_ident, e_type: h.e_type, e_machine: h.e_machine, e_version: h.e_version,
        e_entry: h.e_entry, e_phoff: h.e_phoff, e_shoff: h.e_shoff, e_flags: h.e_flags,
        e_ehsize: h.e_ehsize, e_phentsize: h.e_phentsize, e_phnum: h.e_phnum,
        e_shentsize: h.e_shentsize, e_shnum: h.e_shnum, e_shstrndx: h.e_shstrndx,
    };
    let headers = elf.program_headers.iter().map(|p| ProgramHeader {
        p_type: p.p_type, p_flags: p.p_flags, p_offset: p.p_offset, p_vaddr: p.p_vaddr,
        p_paddr: p.p_paddr, p_filesz: p.p_filesz, p_memsz: p.p_memsz, p_align: p.p_align,
    });
    Some((header, headers.collect()))
}

/// The dynamic relocations and the dynamic symbols that `goblin::elf::Elf::parse` finds in `file`,
/// each turned into its 64-bit form field by field, or `None` where it gives an error.
#[verifier::external_body]
fn parse_dynamic(file: &[u8]) -> (parsed: Option<(Vec<Rela>, Vec<Sym>)>)
    ensures
        parsed is Some == parsed_elf(file@) is Some,
        parsed matches Some(p) ==> p.0@ == parsed_elf(file@)->0.relas && p.1@ == parsed_elf(
            file@,
        )->0.dyn_syms,
{
    let elf = goblin::elf::Elf::parse(file).ok()?;
    let relas = elf.dynrelas.iter().map(|r| goblin::elf64::reloc::Rela::from(r));
    let syms = elf.dynsyms.iter().map(|s| goblin::elf64::sym::Sym::from(s));
    let relas = relas.map(|r| Rela {
        r_offset: r.r_offset, r_info: r.r_info, r_addend: r.r_addend,
    });
    let syms = syms.map(|s| Sym {
        st_name: s.st_name, st_info: s.st_info, st_other: s.st_other,
        st_shndx: s.st_shndx, st_value: s.st_value, st_size: s.st_size,
    });
    Some((relas.collect(), syms.collect()))
}

impl ElfImage {
    /// What stands in a kernel file, or `None` where the file is no ELF file.
    pub fn parse(file: &[u8]) -> (image: Option<ElfImage>)
        ensures
            image is Some == parsed_elf(file@) is Some,
            image matches Some(i) ==> i@ == parsed_elf(file@)->0,
    {
        match parse_headers(file) {
            None => None,
            Some((header, program_headers)) => match parse_dynamic(file) {
                None => None,
                Some((relas, dyn_syms)) => Some(
                    ElfImage { header, program_headers, relas, dyn_syms },
                ),
            },
        }
    }
}

/// The bytes that goblin's `TryIntoCtx` impl for `elf64::header::Header` writes: the fields one
/// after the other, in the byte order that `e_ident` gives. It fails where `e_ident` gives none.
#[verifier::external_body]
pub(crate) fn write_header(h: &ElfHeader) -> (out: Vec<u8>)
    requires
        h.is_little_endian(),
    ensures
        out@ == h.encode(),
{
    let header = goblin::elf64::header::Header {
        e_ident: h.e_ident, e_type: h.e_type, e_machine: h.e_machine, e_version: h.e_version,
        e_entry: h.e_entry, e_phoff: h.e_phoff, e_shoff: h.e_shoff, e_flags: h.e_flags,
        e_ehsize: h.e_ehsize, e_phentsize: h.e_phentsize, e_phnum: h.e_phnum,
        e_shentsize: h.e_shentsize, e_shnum: h.e_shnum, e_shstrndx: h.e_shstrndx,
    };
    let mut out = [0u8; goblin::elf64::header::SIZEOF_EHDR];
    scroll::ctx::TryIntoCtx::try_into_ctx(header, &mut out, scroll::Endian::Little).unwrap();
    out.to_vec()
}

/// The bytes that the `TryIntoCtx` impl that scroll derives for
/// `goblin::elf64::program_header::ProgramHeader` writes for little-endian: the fields one after
/// the other.
#[verifier::external_body]
pub(crate) fn write_program_header(p: &ProgramHeader) -> (out: Vec<u8>)
    ensures
        out@ == p.encode(),
{
    let header = goblin::elf64::program_header::ProgramHeader {
        p_type: p.p_type, p_flags: p.p_flags, p_offset: p.p_offset, p_vaddr: p.p_vaddr,
        p_paddr: p.p_paddr, p_filesz: p.p_filesz, p_memsz: p.p_memsz, p_align: p.p_align,
    };
    let mut out = [0u8; goblin::elf64::program_header::SIZEOF_PHDR];
    scroll::ctx::TryIntoCtx::try_into_ctx(header, &mut out, scroll::Endian::Little).unwrap();
    out.to_vec()
}

/// The bytes that the `TryIntoCtx` impl that scroll derives for `goblin::elf64::reloc::Rela` writes
/// for little-endian: the fields one after the other, the addend in two's complement.
#[verifier::external_body]
pub(crate) fn write_rela(r: &Rela) -> (out: Vec<u8>)
    ensures
        out@ == r.encode(),
{
    let rela = goblin::elf64::reloc::Rela {
        r_offset: r.r_offset, r_info: r.r_info, r_addend: r.r_addend,
    };
    let mut out = [0u8; goblin::elf64::reloc::SIZEOF_RELA];
    scroll::ctx::TryIntoCtx::try_into_ctx(rela, &mut out, scroll::Endian::Little).unwrap();
    out.to_vec()
}

/// The bytes that the `TryIntoCtx` impl that scroll derives for `goblin::elf64::sym::Sym` writes for
/// little-endian: the fields one after the other.
#[verifier::external_body]
pub(crate) fn write_sym(s: &Sym) -> (out: Vec<u8>)
    ensures
        out@ == s.encode(),
{
    let sym = goblin::elf64::sym::Sym {
        st_name: s.st_name, st_info: s.st_info, st_other: s.st_other,
        st_shndx: s.st_shndx, st_value: s.st_value, st_size: s.st_size,
    };
    let mut out = [0u8; goblin::elf64::sym::SIZEOF_SYM];
    scroll::ctx::TryIntoCtx::try_into_ctx(sym, &mut out, scroll::Endian::Little).unwrap();
    out.to_vec()
}

} // verus!
