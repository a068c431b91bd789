//! What the guest firmware and the device that hands it a kernel agree on.

use vstd::prelude::*;

use crate::bytes;
use crate::elf::{self, ElfHeader};

verus! {

/// Where the setup header stands in a bzImage.
pub const BZIMAGE_HEADER_OFFSET: u64 = 0x1f1;

/// The magic number of a bzImage.
pub const BZIMAGE_HEADER_MAGIC: u32 = 0x53726448;

/// What the firmware is told of a bzImage.
pub const BZIMAGE_CODE: u32 = 0x0;

/// What the firmware is told of an uncompressed kernel.
pub const DIRECT_CODE: u32 = 0x1;

/// Size of the data region.
pub const DATA_REGION_SIZE: u64 = 0x200000;

/// Where the data region stands in guest memory.
pub const DATA_REGION_ADDR: u64 = 0xe00000;

/// How a kernel is packed.
#[derive(PartialEq, Eq, Copy, Clone, Debug, Structural)]
pub enum KernelType {
    BzImage,
    Direct,
}

/// What the device hands out next.
#[derive(PartialEq, Eq, Copy, Clone, Debug, Structural)]
pub enum State {
    WriteKernelType,
    WriteElfHdr,
    WritePhdrs,
    WriteSegs,
    WriteBzImageLen,
}

/// Why a kernel cannot be handed out.
#[derive(PartialEq, Eq, Copy, Clone, Debug)]
pub enum Error {
    BigEndianElfOnLittle,
    InvalidElfMagicNumber,
    InvalidProgramHeaderSize,
    InvalidProgramHeaderOffset,
    ReadKernelDataStruct(&'static str),
    SeekKernelStart,
    SeekKernelImage,
    SeekProgramHeader,
    InvalidCommand,
}

impl Error {
    /// The message for the error.
    pub open spec fn text(self) -> Seq<char> {
        match self {
            Error::BigEndianElfOnLittle => "Unsupported ELF File byte order"@,
            Error::InvalidElfMagicNumber => "Invalid ELF magic number"@,
            Error::InvalidProgramHeaderSize => "Invalid ELF program header size"@,
            Error::InvalidProgramHeaderOffset => "Invalid ELF program header offset"@,
            Error::ReadKernelDataStruct(e) => e@,
            Error::SeekKernelStart =>
                "Failed to seek to file offset as pointed by the ELF program header"@,
            Error::SeekKernelImage => "Failed to seek to offset of kernel image"@,
            Error::SeekProgramHeader => "Failed to seek to ELF program header"@,
            Error::InvalidCommand => "Invalid command"@,
        }
    }

    /// The message for the error.
    pub fn message(&self) -> (m: &'static str)
        ensures
            m@ == self.text(),
    {
        match *self {
            Error::BigEndianElfOnLittle => "Unsupported ELF File byte order",
            Error::InvalidElfMagicNumber => "Invalid ELF magic number",
            Error::InvalidProgramHeaderSize => "Invalid ELF program header size",
            Error::InvalidProgramHeaderOffset => "Invalid ELF program header offset",
            Error::ReadKernelDataStruct(e) => e,
            Error::SeekKernelStart => {
                "Failed to seek to file offset as pointed by the ELF program header"
            },
            Error::SeekKernelImage => "Failed to seek to offset of kernel image",
            Error::SeekProgramHeader => "Failed to seek to ELF program header",
            Error::InvalidCommand => "Invalid command",
        }
    }
}

impl KernelType {
    /// What the firmware is told of the kernel.
    pub open spec fn code(self) -> u8 {
        match self {
            KernelType::BzImage => 0,
            KernelType::Direct => 1,
        }
    }

    /// What the firmware is told of the kernel.
    pub fn value(&self) -> (code: u8)
        ensures
            code == self.code(),
    {
        match *self {
            KernelType::BzImage => BZIMAGE_CODE as u8,
            KernelType::Direct => DIRECT_CODE as u8,
        }
    }
}

/// How a kernel is packed, given what stands in its file from the place of the setup header on: as
/// a bzImage if the magic number of one is there.
pub open spec fn kernel_type_of(setup_header: Seq<u8>) -> KernelType {
    if setup_header.len() >= 0x15 && bytes::de32(setup_header, 0x11) == BZIMAGE_HEADER_MAGIC {
        KernelType::BzImage
    } else {
        KernelType::Direct
    }
}

/// How a kernel is packed, given what could be read of its file from `BZIMAGE_HEADER_OFFSET` on.
pub fn get_kernel_type(setup_header: &[u8]) -> (kernel_type: KernelType)
    ensures
        kernel_type == kernel_type_of(setup_header@),
{
    if setup_header.len() >= 0x15 && bytes::read_le32(setup_header, 0x11) == BZIMAGE_HEADER_MAGIC {
        KernelType::BzImage
    } else {
        KernelType::Direct
    }
}

/// What keeps a kernel with the header `h` from being booted, if anything does. Its program headers
/// have to stand at `min_phoff` at the least.
pub open spec fn boot_error(h: ElfHeader, min_phoff: usize) -> Option<Error> {
    if !h.has_magic() {
        Some(Error::InvalidElfMagicNumber)
    } else if !h.is_little_endian() {
        Some(Error::BigEndianElfOnLittle)
    } else if h.e_phentsize != elf::SIZEOF_PHDR {
        Some(Error::InvalidProgramHeaderSize)
    } else if h.e_phoff < min_phoff {
        Some(Error::InvalidProgramHeaderOffset)
    } else {
        None
    }
}

/// What keeps a kernel with the header `h` from being booted, if anything does.
pub fn check_header(h: &ElfHeader, min_phoff: usize) -> (e: Option<Error>)
    ensures
        e == boot_error(*h, min_phoff),
{
    if !h.check_magic() {
        return Some(Error::InvalidElfMagicNumber);
    }
    if h.e_ident[elf::EI_DATA] != elf::ELFDATA2LSB {
        return Some(Error::BigEndianElfOnLittle);
    }
    if h.e_phentsize as usize != elf::SIZEOF_PHDR {
        return Some(Error::InvalidProgramHeaderSize);
    }
    if h.e_phoff < min_phoff as u64 {
        return Some(Error::InvalidProgramHeaderOffset);
    }
    None
}

/// A kernel is a bzImage exactly if the four letters `HdrS` stand at 0x11 from the place of the setup
/// header on; every other kernel, one that ends before them too, is uncompressed.
pub proof fn bzimage_is_known_by_its_magic(setup_header: Seq<u8>)
    ensures
        kernel_type_of(setup_header) == KernelType::BzImage <==> {
            &&& setup_header.len() >= 0x15
            &&& setup_header[0x11] == 0x48
            &&& setup_header[0x12] == 0x64
            &&& setup_header[0x13] == 0x72
            &&& setup_header[0x14] == 0x53
        },
{
    bytes::bytes_add_up_to_their_number(setup_header, 0x11);
}

/// The firmware is told 0 of a bzImage and 1 of an uncompressed kernel.
pub proof fn kernel_types_have_numbers(kernel_type: KernelType)
    ensures
        kernel_type == KernelType::BzImage ==> kernel_type.code() == 0,
        kernel_type == KernelType::Direct ==> kernel_type.code() == 1,
{
}

/// A kernel is booted exactly if its file starts with the four bytes of an ELF file, is
/// little-endian, has program headers of 56 bytes, and has them no earlier than they may stand,
/// whatever else its header says. The first of these that does not hold is the error.
pub proof fn kernel_is_booted_unless_its_header_forbids_it(h: ElfHeader, min_phoff: usize)
    ensures
        ({
            let magic = h.e_ident@[0] == 0x7f && h.e_ident@[1] == 0x45 && h.e_ident@[2] == 0x4c
                && h.e_ident@[3] == 0x46;
            let little_endian = h.e_ident@[5] == 1;
            let e = boot_error(h, min_phoff);
            &&& e is None <==> magic && little_endian && h.e_phentsize == 56 && h.e_phoff
                >= min_phoff
            &&& e == Some(Error::InvalidElfMagicNumber) <==> !magic
            &&& e == Some(Error::BigEndianElfOnLittle) <==> magic && !little_endian
            &&& e == Some(Error::InvalidProgramHeaderSize) <==> magic && little_endian
                && h.e_phentsize != 56
            &&& e == Some(Error::InvalidProgramHeaderOffset) <==> magic && little_endian
                && h.e_phentsize == 56 && h.e_phoff < min_phoff
        }),
{
}

/// The message of an error names what is wrong.
pub proof fn errors_have_messages(text: &'static str)
    ensures
        Error::BigEndianElfOnLittle.text() == "Unsupported ELF File byte order"@,
        Error::InvalidElfMagicNumber.text() == "Invalid ELF magic number"@,
        Error::InvalidProgramHeaderSize.text() == "Invalid ELF program header size"@,
        Error::InvalidProgramHeaderOffset.text() == "Invalid ELF program header offset"@,
        Error::ReadKernelDataStruct(text).text() == text@,
        Error::SeekKernelStart.text()
            == "Failed to seek to file offset as pointed by the ELF program header"@,
        Error::SeekKernelImage.text() == "Failed to seek to offset of kernel image"@,
        Error::SeekProgramHeader.text() == "Failed to seek to ELF program header"@,
        Error::InvalidCommand.text() == "Invalid command"@,
{
}

} // verus!
