//! The parts of a 64-bit ELF file that a kernel is booted from, and how they are laid out as
//! little-endian bytes.

use vstd::prelude::*;

use crate::bytes;

verus! {

/// Length of an ELF file header.
pub const SIZEOF_EHDR: usize = 64;

/// Length of a program header.
pub const SIZEOF_PHDR: usize = 56;

/// Length of a relocation with an addend.
pub const SIZEOF_RELA: usize = 24;

/// Length of a symbol.
pub const SIZEOF_SYM: usize = 24;

/// Where the byte order of the file stands in `e_ident`.
pub const EI_DATA: usize = 5;

/// Value of `e_ident[EI_DATA]` in a little-endian file.
pub const ELFDATA2LSB: u8 = 1;

/// A loadable segment.
pub const PT_LOAD: u32 = 1;

/// The header of an ELF file.
#[derive(Clone, Copy, Debug, PartialEq, Eq)]
pub struct ElfHeader {
    pub e_ident: [u8; 16],
    pub e_type: u16,
    pub e_machine: u16,
    pub e_version: u32,
    pub e_entry: u64,
    pub e_phoff: u64,
    pub e_shoff: u64,
    pub e_flags: u32,
    pub e_ehsize: u16,
    pub e_phentsize: u16,
    pub e_phnum: u16,
    pub e_shentsize: u16,
    pub e_shnum: u16,
    pub e_shstrndx: u16,
}

/// A program header.
#[derive(Clone, Copy, Debug, PartialEq, Eq, Structural)]
pub struct ProgramHeader {
    pub p_type: u32,
    pub p_flags: u32,
    pub p_offset: u64,
    pub p_vaddr: u64,
    pub p_paddr: u64,
    pub p_filesz: u64,
    pub p_memsz: u64,
    pub p_align: u64,
}

/// A relocation with an addend.
#[derive(Clone, Copy, Debug, PartialEq, Eq, Structural)]
pub struct Rela {
    pub r_offset: u64,
    pub r_info: u64,
    pub r_addend: i64,
}

/// A symbol.
#[derive(Clone, Copy, Debug, PartialEq, Eq, Structural)]
pub struct Sym {
    pub st_name: u32,
    pub st_info: u8,
    pub st_other: u8,
    pub st_shndx: u16,
    pub st_value: u64,
    pub st_size: u64,
}

impl ElfHeader {
    /// The header as it stands in a file.
    #[verifier::opaque]
    pub open spec fn encode(self) -> Seq<u8> {
        self.e_ident@ + bytes::le16(self.e_type) + bytes::le16(self.e_machine) + bytes::le32(
            self.e_version,
        ) + bytes::le64(self.e_entry) + bytes::le64(self.e_phoff) + bytes::le64(self.e_shoff)
            + bytes::le32(self.e_flags) + bytes::le16(self.e_ehsize) + bytes::le16(self.e_phentsize)
            + bytes::le16(self.e_phnum) + bytes::le16(self.e_shentsize) + bytes::le16(self.e_shnum)
            + bytes::le16(self.e_shstrndx)
    }

    /// The header whose encoding is `s`.
    pub open spec fn decode(s: Seq<u8>) -> ElfHeader {
        choose|h: ElfHeader| h.encode() == s
    }

    /// Whether the file starts with the four bytes that every ELF file starts with.
    pub open spec fn has_magic(self) -> bool {
        &&& self.e_ident@[0] == 0x7f
        &&& self.e_ident@[1] == 0x45
        &&& self.e_ident@[2] == 0x4c
        &&& self.e_ident@[3] == 0x46
    }

    /// Whether the file is little-endian.
    pub open spec fn is_little_endian(self) -> bool {
        self.e_ident@[EI_DATA as int] == ELFDATA2LSB
    }

    /// Whether the file starts with the four bytes that every ELF file starts with.
    pub fn check_magic(&self) -> (ok: bool)
        ensures
            ok == self.has_magic(),
    {
        self.e_ident[0] == 0x7f && self.e_ident[1] == 0x45 && self.e_ident[2] == 0x4c
            && self.e_ident[3] == 0x46
    }

    /// The header that stands in `b`.
    pub fn from_bytes(b: &[u8]) -> (header: ElfHeader)
        requires
            b@.len() == SIZEOF_EHDR,
        ensures
            header.encode() == b@,
            header == ElfHeader::decode(b@),
    {
        let header = ElfHeader {
            e_ident: [
                b[0],
                b[1],
                b[2],
                b[3],
                b[4],
                b[5],
                b[6],
                b[7],
                b[8],
                b[9],
                b[10],
                b[11],
                b[12],
                b[13],
                b[14],
                b[15],
            ],
            e_type: bytes::read_le16(b, 16),
            e_machine: bytes::read_le16(b, 18),
            e_version: bytes::read_le32(b, 20),
            e_entry: bytes::read_le64(b, 24),
            e_phoff: bytes::read_le64(b, 32),
            e_shoff: bytes::read_le64(b, 40),
            e_flags: bytes::read_le32(b, 48),
            e_ehsize: bytes::read_le16(b, 52),
            e_phentsize: bytes::read_le16(b, 54),
            e_phnum: bytes::read_le16(b, 56),
            e_shentsize: bytes::read_le16(b, 58),
            e_shnum: bytes::read_le16(b, 60),
            e_shstrndx: bytes::read_le16(b, 62),
        };
        proof {
            assert(header.e_ident@ =~= b@.subrange(0, 16));
            header_with_fields(header, b@);
            header_encoding_is_injective(header, ElfHeader::decode(b@));
        }
        header
    }

    /// The header as it stands in a file.
    pub fn to_bytes(&self) -> (out: Vec<u8>)
        ensures
            out@ == self.encode(),
    {
        reveal(ElfHeader::encode);
        let mut out: Vec<u8> = Vec::new();
        let mut i: usize = 0;
        while i < 16
            invariant
                i <= 16,
                out@ == self.e_ident@.subrange(0, i as int),
            decreases 16 - i,
        {
            out.push(self.e_ident[i]);
            i += 1;
        }
        assert(out@ =~= self.e_ident@);
        bytes::push_le16(&mut out, self.e_type);
        bytes::push_le16(&mut out, self.e_machine);
        bytes::push_le32(&mut out, self.e_version);
        bytes::push_le64(&mut out, self.e_entry);
        bytes::push_le64(&mut out, self.e_phoff);
        bytes::push_le64(&mut out, self.e_shoff);
        bytes::push_le32(&mut out, self.e_flags);
        bytes::push_le16(&mut out, self.e_ehsize);
        bytes::push_le16(&mut out, self.e_phentsize);
        bytes::push_le16(&mut out, self.e_phnum);
        bytes::push_le16(&mut out, self.e_shentsize);
        bytes::push_le16(&mut out, self.e_shnum);
        bytes::push_le16(&mut out, self.e_shstrndx);
        out
    }
}

impl ProgramHeader {
    /// The program header as it stands in a file.
    #[verifier::opaque]
    pub open spec fn encode(self) -> Seq<u8> {
        bytes::le32(self.p_type) + bytes::le32(self.p_flags) + bytes::le64(self.p_offset)
            + bytes::le64(self.p_vaddr) + bytes::le64(self.p_paddr) + bytes::le64(self.p_filesz)
            + bytes::le64(self.p_memsz) + bytes::le64(self.p_align)
    }

    /// The program header whose encoding is `s`.
    pub open spec fn decode(s: Seq<u8>) -> ProgramHeader {
        choose|p: ProgramHeader| p.encode() == s
    }

    /// The program header that stands in `b`.
    pub fn from_bytes(b: &[u8]) -> (header: ProgramHeader)
        requires
            b@.len() == SIZEOF_PHDR,
        ensures
            header.encode() == b@,
            header == ProgramHeader::decode(b@),
    {
        let header = ProgramHeader {
            p_type: bytes::read_le32(b, 0),
            p_flags: bytes::read_le32(b, 4),
            p_offset: bytes::read_le64(b, 8),
            p_vaddr: bytes::read_le64(b, 16),
            p_paddr: bytes::read_le64(b, 24),
            p_filesz: bytes::read_le64(b, 32),
            p_memsz: bytes::read_le64(b, 40),
            p_align: bytes::read_le64(b, 48),
        };
        proof {
            program_header_with_fields(header, b@);
            program_header_encoding_is_injective(header, ProgramHeader::decode(b@));
        }
        header
    }

    /// The program header as it stands in a file.
    pub fn to_bytes(&self) -> (out: Vec<u8>)
        ensures
            out@ == self.encode(),
    {
        reveal(ProgramHeader::encode);
        let mut out: Vec<u8> = Vec::new();
        bytes::push_le32(&mut out, self.p_type);
        assert(out@ =~= bytes::le32(self.p_type));
        bytes::push_le32(&mut out, self.p_flags);
        bytes::push_le64(&mut out, self.p_offset);
        bytes::push_le64(&mut out, self.p_vaddr);
        bytes::push_le64(&mut out, self.p_paddr);
        bytes::push_le64(&mut out, self.p_filesz);
        bytes::push_le64(&mut out, self.p_memsz);
        bytes::push_le64(&mut out, self.p_align);
        out
    }
}

impl Rela {
    /// The relocation as it stands in a file.
    #[verifier::opaque]
    pub open spec fn encode(self) -> Seq<u8> {
        bytes::le64(self.r_offset) + bytes::le64(self.r_info) + bytes::le64(self.r_addend as u64)
    }
}

impl Sym {
    /// The symbol as it stands in a file.
    #[verifier::opaque]
    pub open spec fn encode(self) -> Seq<u8> {
        bytes::le32(self.st_name) + seq![self.st_info, self.st_other] + bytes::le16(self.st_shndx)
            + bytes::le64(self.st_value) + bytes::le64(self.st_size)
    }
}

proof fn header_pieces(s: Seq<u8>)
    requires
        s.len() == SIZEOF_EHDR,
    ensures
        s.subrange(0, 16) + s.subrange(16, 18) + s.subrange(18, 20) + s.subrange(20, 24)
            + s.subrange(24, 32) + s.subrange(32, 40) + s.subrange(40, 48) + s.subrange(48, 52)
            + s.subrange(52, 54) + s.subrange(54, 56) + s.subrange(56, 58) + s.subrange(58, 60)
            + s.subrange(60, 62) + s.subrange(62, 64) == s,
{
}

proof fn program_header_pieces(s: Seq<u8>)
    requires
        s.len() == SIZEOF_PHDR,
    ensures
        s.subrange(0, 4) + s.subrange(4, 8) + s.subrange(8, 16) + s.subrange(16, 24) + s.subrange(
            24,
            32,
        ) + s.subrange(32, 40) + s.subrange(40, 48) + s.subrange(48, 56) == s,
{
}

/// The fields of a header can be read back from where they stand in its encoding.
pub proof fn header_fields(h: ElfHeader)
    ensures
        h.encode().len() == SIZEOF_EHDR,
        h.encode().subrange(0, 16) == h.e_ident@,
        bytes::de16(h.encode(), 16) == h.e_type,
        bytes::de16(h.encode(), 18) == h.e_machine,
        bytes::de32(h.encode(), 20) == h.e_version,
        bytes::de64(h.encode(), 24) == h.e_entry,
        bytes::de64(h.encode(), 32) == h.e_phoff,
        bytes::de64(h.encode(), 40) == h.e_shoff,
        bytes::de32(h.encode(), 48) == h.e_flags,
        bytes::de16(h.encode(), 52) == h.e_ehsize,
        bytes::de16(h.encode(), 54) == h.e_phentsize,
        bytes::de16(h.encode(), 56) == h.e_phnum,
        bytes::de16(h.encode(), 58) == h.e_shentsize,
        bytes::de16(h.encode(), 60) == h.e_shnum,
        bytes::de16(h.encode(), 62) == h.e_shstrndx,
{
    reveal(ElfHeader::encode);
    let s = h.encode();
    assert(s.len() == SIZEOF_EHDR);
    assert(s.subrange(0, 16) =~= h.e_ident@);
    assert(s.subrange(16, 18) =~= bytes::le16(h.e_type));
    assert(s.subrange(18, 20) =~= bytes::le16(h.e_machine));
    assert(s.subrange(20, 24) =~= bytes::le32(h.e_version));
    assert(s.subrange(24, 32) =~= bytes::le64(h.e_entry));
    assert(s.subrange(32, 40) =~= bytes::le64(h.e_phoff));
    assert(s.subrange(40, 48) =~= bytes::le64(h.e_shoff));
    assert(s.subrange(48, 52) =~= bytes::le32(h.e_flags));
    assert(s.subrange(52, 54) =~= bytes::le16(h.e_ehsize));
    assert(s.subrange(54, 56) =~= bytes::le16(h.e_phentsize));
    assert(s.subrange(56, 58) =~= bytes::le16(h.e_phnum));
    assert(s.subrange(58, 60) =~= bytes::le16(h.e_shentsize));
    assert(s.subrange(60, 62) =~= bytes::le16(h.e_shnum));
    assert(s.subrange(62, 64) =~= bytes::le16(h.e_shstrndx));
    bytes::decode_after_encode16(s, 16, h.e_type);
    bytes::decode_after_encode16(s, 18, h.e_machine);
    bytes::decode_after_encode32(s, 20, h.e_version);
    bytes::decode_after_encode64(s, 24, h.e_entry);
    bytes::decode_after_encode64(s, 32, h.e_phoff);
    bytes::decode_after_encode64(s, 40, h.e_shoff);
    bytes::decode_after_encode32(s, 48, h.e_flags);
    bytes::decode_after_encode16(s, 52, h.e_ehsize);
    bytes::decode_after_encode16(s, 54, h.e_phentsize);
    bytes::decode_after_encode16(s, 56, h.e_phnum);
    bytes::decode_after_encode16(s, 58, h.e_shentsize);
    bytes::decode_after_encode16(s, 60, h.e_shnum);
    bytes::decode_after_encode16(s, 62, h.e_shstrndx);
}

/// Decoding undoes encoding.
pub proof fn header_decode_after_encode(h: ElfHeader)
    ensures
        ElfHeader::decode(h.encode()) == h,
{
    header_encoding_is_injective(h, ElfHeader::decode(h.encode()));
}

/// Decoding undoes encoding.
pub proof fn program_header_decode_after_encode(p: ProgramHeader)
    ensures
        ProgramHeader::decode(p.encode()) == p,
{
    program_header_encoding_is_injective(p, ProgramHeader::decode(p.encode()));
}

/// Encoding undoes decoding: the header that is found in `s` stands there byte for byte.
pub proof fn header_encode_after_decode(s: Seq<u8>)
    requires
        s.len() == SIZEOF_EHDR,
    ensures
        ElfHeader::decode(s).encode() == s,
{
    let h = ElfHeader {
        e_ident: [
            s[0],
            s[1],
            s[2],
            s[3],
            s[4],
            s[5],
            s[6],
            s[7],
            s[8],
            s[9],
            s[10],
            s[11],
            s[12],
            s[13],
            s[14],
            s[15],
        ],
        e_type: bytes::de16(s, 16),
        e_machine: bytes::de16(s, 18),
        e_version: bytes::de32(s, 20),
        e_entry: bytes::de64(s, 24),
        e_phoff: bytes::de64(s, 32),
        e_shoff: bytes::de64(s, 40),
        e_flags: bytes::de32(s, 48),
        e_ehsize: bytes::de16(s, 52),
        e_phentsize: bytes::de16(s, 54),
        e_phnum: bytes::de16(s, 56),
        e_shentsize: bytes::de16(s, 58),
        e_shnum: bytes::de16(s, 60),
        e_shstrndx: bytes::de16(s, 62),
    };
    assert(h.e_ident@ =~= s.subrange(0, 16));
    header_with_fields(h, s);
}

/// A header whose fields stand in `s` has the encoding `s`.
proof fn header_with_fields(h: ElfHeader, s: Seq<u8>)
    requires
        s.len() == SIZEOF_EHDR,
        h.e_ident@ == s.subrange(0, 16),
        h.e_type == bytes::de16(s, 16),
        h.e_machine == bytes::de16(s, 18),
        h.e_version == bytes::de32(s, 20),
        h.e_entry == bytes::de64(s, 24),
        h.e_phoff == bytes::de64(s, 32),
        h.e_shoff == bytes::de64(s, 40),
        h.e_flags == bytes::de32(s, 48),
        h.e_ehsize == bytes::de16(s, 52),
        h.e_phentsize == bytes::de16(s, 54),
        h.e_phnum == bytes::de16(s, 56),
        h.e_shentsize == bytes::de16(s, 58),
        h.e_shnum == bytes::de16(s, 60),
        h.e_shstrndx == bytes::de16(s, 62),
    ensures
        h.encode() == s,
{
    reveal(ElfHeader::encode);
    bytes::encode_after_decode16(s, 16);
    bytes::encode_after_decode16(s, 18);
    bytes::encode_after_decode32(s, 20);
    bytes::encode_after_decode64(s, 24);
    bytes::encode_after_decode64(s, 32);
    bytes::encode_after_decode64(s, 40);
    bytes::encode_after_decode32(s, 48);
    bytes::encode_after_decode16(s, 52);
    bytes::encode_after_decode16(s, 54);
    bytes::encode_after_decode16(s, 56);
    bytes::encode_after_decode16(s, 58);
    bytes::encode_after_decode16(s, 60);
    bytes::encode_after_decode16(s, 62);
    header_pieces(s);
}

/// Encoding undoes decoding: the program header that is found in `s` stands there byte for byte.
pub proof fn program_header_encode_after_decode(s: Seq<u8>)
    requires
        s.len() == SIZEOF_PHDR,
    ensures
        ProgramHeader::decode(s).encode() == s,
{
    let p = ProgramHeader {
        p_type: bytes::de32(s, 0),
        p_flags: bytes::de32(s, 4),
        p_offset: bytes::de64(s, 8),
        p_vaddr: bytes::de64(s, 16),
        p_paddr: bytes::de64(s, 24),
        p_filesz: bytes::de64(s, 32),
        p_memsz: bytes::de64(s, 40),
        p_align: bytes::de64(s, 48),
    };
    program_header_with_fields(p, s);
}

/// A program header whose fields stand in `s` has the encoding `s`.
proof fn program_header_with_fields(p: ProgramHeader, s: Seq<u8>)
    requires
        s.len() == SIZEOF_PHDR,
        p.p_type == bytes::de32(s, 0),
        p.p_flags == bytes::de32(s, 4),
        p.p_offset == bytes::de64(s, 8),
        p.p_vaddr == bytes::de64(s, 16),
        p.p_paddr == bytes::de64(s, 24),
        p.p_filesz == bytes::de64(s, 32),
        p.p_memsz == bytes::de64(s, 40),
        p.p_align == bytes::de64(s, 48),
    ensures
        p.encode() == s,
{
    reveal(ProgramHeader::encode);
    bytes::encode_after_decode32(s, 0);
    bytes::encode_after_decode32(s, 4);
    bytes::encode_after_decode64(s, 8);
    bytes::encode_after_decode64(s, 16);
    bytes::encode_after_decode64(s, 24);
    bytes::encode_after_decode64(s, 32);
    bytes::encode_after_decode64(s, 40);
    bytes::encode_after_decode64(s, 48);
    program_header_pieces(s);
}

/// No two headers have the same encoding.
pub proof fn header_encoding_is_injective(a: ElfHeader, b: ElfHeader)
    requires
        a.encode() == b.encode(),
    ensures
        a == b,
{
    header_fields(a);
    header_fields(b);
    assert(a.e_ident =~= b.e_ident);
}

/// No two program headers have the same encoding.
pub proof fn program_header_encoding_is_injective(a: ProgramHeader, b: ProgramHeader)
    requires
        a.encode() == b.encode(),
    ensures
        a == b,
{
    program_header_fields(a);
    program_header_fields(b);
}

/// The fields of a program header can be read back from where they stand in its encoding.
pub proof fn program_header_fields(p: ProgramHeader)
    ensures
        p.encode().len() == SIZEOF_PHDR,
        bytes::de32(p.encode(), 0) == p.p_type,
        bytes::de32(p.encode(), 4) == p.p_flags,
        bytes::de64(p.encode(), 8) == p.p_offset,
        bytes::de64(p.encode(), 16) == p.p_vaddr,
        bytes::de64(p.encode(), 24) == p.p_paddr,
        bytes::de64(p.encode(), 32) == p.p_filesz,
        bytes::de64(p.encode(), 40) == p.p_memsz,
        bytes::de64(p.encode(), 48) == p.p_align,
{
    reveal(ProgramHeader::encode);
    let s = p.encode();
    assert(s.len() == SIZEOF_PHDR);
    assert(s.subrange(0, 4) =~= bytes::le32(p.p_type));
    assert(s.subrange(4, 8) =~= bytes::le32(p.p_flags));
    assert(s.subrange(8, 16) =~= bytes::le64(p.p_offset));
    assert(s.subrange(16, 24) =~= bytes::le64(p.p_vaddr));
    assert(s.subrange(24, 32) =~= bytes::le64(p.p_paddr));
    assert(s.subrange(32, 40) =~= bytes::le64(p.p_filesz));
    assert(s.subrange(40, 48) =~= bytes::le64(p.p_memsz));
    assert(s.subrange(48, 56) =~= bytes::le64(p.p_align));
    bytes::decode_after_encode32(s, 0, p.p_type);
    bytes::decode_after_encode32(s, 4, p.p_flags);
    bytes::decode_after_encode64(s, 8, p.p_offset);
    bytes::decode_after_encode64(s, 16, p.p_vaddr);
    bytes::decode_after_encode64(s, 24, p.p_paddr);
    bytes::decode_after_encode64(s, 32, p.p_filesz);
    bytes::decode_after_encode64(s, 40, p.p_memsz);
    bytes::decode_after_encode64(s, 48, p.p_align);
}

/// Every header takes the same number of bytes.
pub proof fn header_encoding_len(h: ElfHeader)
    ensures
        h.encode().len() == SIZEOF_EHDR,
{
    header_fields(h);
}

/// Every program header takes the same number of bytes.
pub proof fn program_header_encoding_len(p: ProgramHeader)
    ensures
        p.encode().len() == SIZEOF_PHDR,
{
    program_header_fields(p);
}

/// Every relocation takes the same number of bytes.
pub proof fn rela_encoding_len(r: Rela)
    ensures
        r.encode().len() == SIZEOF_RELA,
{
    reveal(Rela::encode);
}

/// Every symbol takes the same number of bytes.
pub proof fn sym_encoding_len(s: Sym)
    ensures
        s.encode().len() == SIZEOF_SYM,
{
    reveal(Sym::encode);
}

/// The fields of a relocation can be read back from where they stand in its encoding, the addend in
/// two's complement.
pub proof fn rela_fields(r: Rela)
    ensures
        r.encode().len() == 24,
        bytes::de64(r.encode(), 0) == r.r_offset,
        bytes::de64(r.encode(), 8) == r.r_info,
        r.r_addend >= 0 ==> bytes::de64(r.encode(), 16) == r.r_addend,
        r.r_addend < 0 ==> bytes::de64(r.encode(), 16) == 0x1_0000_0000_0000_0000 + r.r_addend,
{
    reveal(Rela::encode);
    let s = r.encode();
    let addend = r.r_addend;
    assert(addend < 0 ==> addend as u64 == 0x1_0000_0000_0000_0000 + addend) by (bit_vector);
    assert(s.subrange(0, 8) =~= bytes::le64(r.r_offset));
    assert(s.subrange(8, 16) =~= bytes::le64(r.r_info));
    assert(s.subrange(16, 24) =~= bytes::le64(r.r_addend as u64));
    bytes::decode_after_encode64(s, 0, r.r_offset);
    bytes::decode_after_encode64(s, 8, r.r_info);
    bytes::decode_after_encode64(s, 16, r.r_addend as u64);
}

/// The fields of a symbol can be read back from where they stand in its encoding.
pub proof fn sym_fields(y: Sym)
    ensures
        y.encode().len() == 24,
        bytes::de32(y.encode(), 0) == y.st_name,
        y.encode()[4] == y.st_info,
        y.encode()[5] == y.st_other,
        bytes::de16(y.encode(), 6) == y.st_shndx,
        bytes::de64(y.encode(), 8) == y.st_value,
        bytes::de64(y.encode(), 16) == y.st_size,
{
    reveal(Sym::encode);
    let s = y.encode();
    assert(s.subrange(0, 4) =~= bytes::le32(y.st_name));
    assert(s.subrange(6, 8) =~= bytes::le16(y.st_shndx));
    assert(s.subrange(8, 16) =~= bytes::le64(y.st_value));
    assert(s.subrange(16, 24) =~= bytes::le64(y.st_size));
    bytes::decode_after_encode32(s, 0, y.st_name);
    bytes::decode_after_encode16(s, 6, y.st_shndx);
    bytes::decode_after_encode64(s, 8, y.st_value);
    bytes::decode_after_encode64(s, 16, y.st_size);
}

/// The header that is found in the bytes `s` has in each field the number that stands at the place of
/// the field.
pub proof fn header_is_read_field_by_field(s: Seq<u8>)
    requires
        s.len() == 64,
    ensures
        ({
            let h = ElfHeader::decode(s);
            &&& h.e_ident@ == s.subrange(0, 16)
            &&& h.e_type == bytes::de16(s, 16)
            &&& h.e_machine == bytes::de16(s, 18)
            &&& h.e_version == bytes::de32(s, 20)
            &&& h.e_entry == bytes::de64(s, 24)
            &&& h.e_phoff == bytes::de64(s, 32)
            &&& h.e_shoff == bytes::de64(s, 40)
            &&& h.e_flags == bytes::de32(s, 48)
            &&& h.e_ehsize == bytes::de16(s, 52)
            &&& h.e_phentsize == bytes::de16(s, 54)
            &&& h.e_phnum == bytes::de16(s, 56)
            &&& h.e_shentsize == bytes::de16(s, 58)
            &&& h.e_shnum == bytes::de16(s, 60)
            &&& h.e_shstrndx == bytes::de16(s, 62)
        }),
{
    header_encode_after_decode(s);
    header_fields(ElfHeader::decode(s));
}

/// The program header that is found in the bytes `s` has in each field the number that stands at the
/// place of the field.
pub proof fn program_header_is_read_field_by_field(s: Seq<u8>)
    requires
        s.len() == 56,
    ensures
        ({
            let p = ProgramHeader::decode(s);
            &&& p.p_type == bytes::de32(s, 0)
            &&& p.p_flags == bytes::de32(s, 4)
            &&& p.p_offset == bytes::de64(s, 8)
            &&& p.p_vaddr == bytes::de64(s, 16)
            &&& p.p_paddr == bytes::de64(s, 24)
            &&& p.p_filesz == bytes::de64(s, 32)
            &&& p.p_memsz == bytes::de64(s, 40)
            &&& p.p_align == bytes::de64(s, 48)
        }),
{
    program_header_encode_after_decode(s);
    program_header_fields(ProgramHeader::decode(s));
}

} // verus!
