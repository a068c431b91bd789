//! The device through which the guest firmware fetches a kernel, piece by piece.
//!
//! The firmware writes a command to the device and then reads from it. What it asked for is put in
//! the data region of guest memory.

use vstd::prelude::*;

use crate::boot_protocol::{self, BZIMAGE_HEADER_OFFSET, DATA_REGION_ADDR, DATA_REGION_SIZE};
use crate::bytes;
use crate::elf::{self, ElfHeader, ProgramHeader, Rela, Sym, PT_LOAD};
use crate::elf_file::{self, ElfImage, ElfImageView};
use crate::layout::HashPlacement;
use crate::memory::{GuestAddress, GuestWrite};
use crate::vmm::arch::x86_64::sev::SevStarted;

pub use crate::boot_protocol::{Error, KernelType, State};

verus! {

/// The register of the device.
pub const FW_CFG_REG_ADDRESS: u64 = 0x81;

/// What the firmware can ask for.
#[derive(PartialEq, Eq, Copy, Clone, Debug, Structural)]
pub enum Command {
    /// Get the type of kernel to load, should be the first command issued
    KernelType,
    /// Get the length of the bzImage
    BzImageLen,
    /// Start reading the bzImage in chunks
    BzimageData,
    /// For a direct boot, send the ELF header
    ElfHdr,
    /// For a direct boot, get the next program header
    PhdrData,
    /// Start reading loadable segment data
    SegData,
    /// For a direct boot, send the symbols and the relocations
    ElfRela,
    /// For a direct boot, send the symbols alone; not served
    ElfDynSym,
}

/// Why there is no device for a kernel.
#[derive(PartialEq, Eq, Copy, Clone, Debug)]
pub enum NewError {
    /// The kernel is neither a bzImage nor an ELF file
    NotElf,
    /// The kernel is an ELF file that cannot be booted
    Setup(Error),
    /// The kernel is an ELF file without program headers
    NoProgramHeaders,
}

impl Command {
    /// The number of the command.
    pub open spec fn code(self) -> u32 {
        match self {
            Command::KernelType => 0,
            Command::BzImageLen => 1,
            Command::BzimageData => 2,
            Command::ElfHdr => 3,
            Command::PhdrData => 4,
            Command::SegData => 5,
            Command::ElfRela => 6,
            Command::ElfDynSym => 7,
        }
    }

    /// The command with the number `code`.
    pub fn try_from(code: u8) -> (r: Result<Command, Error>)
        ensures
            r is Ok == (code < 8),
            r matches Ok(c) ==> c.code() == code,
            r matches Err(e) ==> e == Error::InvalidCommand,
    {
        match code {
            0 => Ok(Command::KernelType),
            1 => Ok(Command::BzImageLen),
            2 => Ok(Command::BzimageData),
            3 => Ok(Command::ElfHdr),
            4 => Ok(Command::PhdrData),
            5 => Ok(Command::SegData),
            6 => Ok(Command::ElfRela),
            7 => Ok(Command::ElfDynSym),
            _ => Err(Error::InvalidCommand),
        }
    }

    /// The number of the command.
    pub fn into(self) -> (code: u32)
        ensures
            code == self.code(),
    {
        match self {
            Command::KernelType => 0,
            Command::BzImageLen => 1,
            Command::BzimageData => 2,
            Command::ElfHdr => 3,
            Command::PhdrData => 4,
            Command::SegData => 5,
            Command::ElfRela => 6,
            Command::ElfDynSym => 7,
        }
    }
}

/// Every command has a number of its own, below eight, so `Command::try_from` finds each command
/// again by its number.
pub proof fn command_codes_are_distinct(a: Command, b: Command)
    ensures
        a.code() < 8,
        a.code() == b.code() ==> a == b,
{
}

/// The device through which the guest firmware fetches a kernel.
#[derive(Debug)]
pub struct FwCfg {
    kernel: Vec<u8>,
    kernel_type: KernelType,
    ehdr: Option<ElfHeader>,
    phdrs: Option<Vec<ProgramHeader>>,
    rela: Vec<Rela>,
    dyn_syms: Vec<Sym>,
    cur_phdr: usize,
    seg_pos: u64,
    cmd: Option<Command>,
    state: State,
}

/// What a `FwCfg` holds and how far it has come.
#[verifier::ext_equal]
pub struct FwCfgView {
    /// The kernel file
    pub kernel: Seq<u8>,
    pub kernel_type: KernelType,
    /// The ELF header of a direct boot
    pub ehdr: Option<ElfHeader>,
    /// The program headers of a direct boot
    pub phdrs: Option<Seq<ProgramHeader>>,
    pub rela: Seq<Rela>,
    pub dyn_syms: Seq<Sym>,
    /// The program header that is handed out next, or whose segment is
    pub cur_phdr: nat,
    /// How much of the current segment has been handed out
    pub seg_pos: nat,
    /// The last command
    pub cmd: Option<Command>,
    pub state: State,
}

impl View for FwCfg {
    type V = FwCfgView;

    closed spec fn view(&self) -> FwCfgView {
        FwCfgView {
            kernel: self.kernel@,
            kernel_type: self.kernel_type,
            ehdr: self.ehdr,
            phdrs: match self.phdrs {
                Some(p) => Some(p@),
                None => None,
            },
            rela: self.rela@,
            dyn_syms: self.dyn_syms@,
            cur_phdr: self.cur_phdr as nat,
            seg_pos: self.seg_pos as nat,
            cmd: self.cmd,
            state: self.state,
        }
    }
}

/// The encodings of `syms`, one after the other.
pub open spec fn encoded_syms(syms: Seq<Sym>) -> Seq<u8>
    decreases syms.len(),
{
    if syms.len() == 0 {
        Seq::empty()
    } else {
        encoded_syms(syms.drop_last()) + syms.last().encode()
    }
}

/// The encodings of `relas`, one after the other.
pub open spec fn encoded_relas(relas: Seq<Rela>) -> Seq<u8>
    decreases relas.len(),
{
    if relas.len() == 0 {
        Seq::empty()
    } else {
        encoded_relas(relas.drop_last()) + relas.last().encode()
    }
}

/// What a read does: the device after it, what the guest reads, and what stands in the data region
/// from then on, if anything is put there.
#[verifier::ext_equal]
pub struct ReadStep {
    pub next: FwCfgView,
    pub data: Seq<u8>,
    pub region: Option<Seq<u8>>,
}

/// Whether a segment has something to load.
pub open spec fn is_loaded(phdr: ProgramHeader) -> bool {
    phdr.p_filesz != 0 && phdr.p_type == PT_LOAD
}

/// The first of the program headers from `i` on that has something to load, or the number of
/// program headers if there is none.
pub open spec fn next_loaded(phdrs: Seq<ProgramHeader>, i: nat) -> nat
    decreases phdrs.len() - i,
{
    if i >= phdrs.len() {
        phdrs.len()
    } else if is_loaded(phdrs[i as int]) {
        i
    } else {
        next_loaded(phdrs, i + 1)
    }
}

impl FwCfgView {
    /// What is promised of a device at all times.
    pub open spec fn inv(self) -> bool {
        &&& self.kernel_type == KernelType::Direct ==> {
            &&& self.ehdr matches Some(h) && boot_protocol::boot_error(h, elf::SIZEOF_PHDR) is None
            &&& self.phdrs matches Some(p) && p.len() > 0
            &&& self.state == State::WriteKernelType || self.state == State::WriteElfHdr
                ==> self.cur_phdr == 0
            &&& self.state == State::WritePhdrs ==> self.cur_phdr < self.phdrs->0.len()
            &&& self.seg_pos > 0 ==> {
                &&& self.state == State::WriteSegs
                &&& self.cur_phdr < self.phdrs->0.len()
                &&& is_loaded(self.phdrs->0[self.cur_phdr as int])
                &&& self.seg_pos < self.phdrs->0[self.cur_phdr as int].p_filesz
            }
        }
        &&& self.kernel_type == KernelType::BzImage ==> {
            &&& self.ehdr is None
            &&& self.phdrs is None
        }
    }

    /// The device of a kernel before anything was asked of it.
    pub open spec fn fresh(kernel: Seq<u8>, kernel_type: KernelType) -> FwCfgView {
        FwCfgView {
            kernel,
            kernel_type,
            ehdr: None,
            phdrs: None,
            rela: Seq::empty(),
            dyn_syms: Seq::empty(),
            cur_phdr: 0,
            seg_pos: 0,
            cmd: None,
            state: State::WriteKernelType,
        }
    }

    /// The device with what a direct boot needs out of the kernel file.
    pub open spec fn with_image(self, image: ElfImageView) -> FwCfgView {
        FwCfgView {
            ehdr: Some(image.header),
            phdrs: Some(image.program_headers),
            rela: image.relas,
            dyn_syms: image.dyn_syms,
            ..self
        }
    }

    /// The program header whose segment the next read is about: the first from the current one on
    /// that has something to load.
    pub open spec fn segment(self) -> nat {
        next_loaded(self.phdrs->0, self.cur_phdr)
    }

    /// How much of its segment the next read hands out: what is left of it, up to the size of the
    /// data region.
    pub open spec fn chunk_len(self) -> int {
        let left = self.phdrs->0[self.segment() as int].p_filesz - self.seg_pos;
        if left < DATA_REGION_SIZE {
            left
        } else {
            DATA_REGION_SIZE as int
        }
    }

    /// Where in the kernel file the next read starts.
    pub open spec fn chunk_pos(self) -> int {
        self.phdrs->0[self.segment() as int].p_offset + self.seg_pos
    }

    /// The symbols and the relocations, each with their number in front.
    pub open spec fn relocation_table(self) -> Seq<u8> {
        bytes::le64(self.dyn_syms.len() as u64) + encoded_syms(self.dyn_syms) + bytes::le64(
            self.rela.len() as u64,
        ) + encoded_relas(self.rela)
    }

    /// Length of the relocation table.
    pub open spec fn relocation_table_len(self) -> nat {
        8 + self.dyn_syms.len() * 24 + 8 + self.rela.len() * 24
    }

    /// Whether the read of a segment finds a program header, and bytes of the kernel file, where
    /// it looks for them.
    pub open spec fn segment_readable(self) -> bool {
        let phdrs = self.phdrs->0;
        &&& self.cur_phdr < phdrs.len()
        &&& self.segment() < phdrs.len() ==> {
            &&& self.seg_pos <= phdrs[self.segment() as int].p_filesz
            &&& self.chunk_pos() + self.chunk_len() <= self.kernel.len()
        }
    }

    /// Whether the device can serve a read of `len` bytes at `offset`.
    pub open spec fn can_serve(self, offset: u64, len: nat) -> bool {
        offset != 0 || len == 0 || match self.cmd {
            Some(Command::KernelType) => self.state == State::WriteKernelType ==> len == 1,
            Some(Command::ElfHdr) => self.state == State::WriteElfHdr ==> (self.ehdr matches Some(h)
                && h.is_little_endian()),
            Some(Command::PhdrData) => self.state == State::WritePhdrs && self.phdrs is Some
                ==> self.cur_phdr < self.phdrs->0.len(),
            Some(Command::SegData) => self.state == State::WriteSegs && self.phdrs is Some
                ==> self.segment_readable(),
            Some(Command::ElfRela) => self.relocation_table_len() <= DATA_REGION_SIZE,
            Some(Command::ElfDynSym) => false,
            _ => true,
        }
    }

    /// The read of a segment: the next chunk of it is put in the data region. Program headers that
    /// have nothing to load are passed over. When the whole segment has been handed out, the next
    /// program header has its turn.
    pub open spec fn segment_step(self, data: Seq<u8>) -> ReadStep {
        let phdrs = self.phdrs->0;
        let segment = self.segment();
        if segment >= phdrs.len() {
            ReadStep { next: FwCfgView { cur_phdr: segment, ..self }, data, region: None }
        } else {
            let end = self.seg_pos + self.chunk_len();
            ReadStep {
                next: if end >= phdrs[segment as int].p_filesz {
                    FwCfgView { cur_phdr: segment + 1, seg_pos: 0, ..self }
                } else {
                    FwCfgView { cur_phdr: segment, seg_pos: end as nat, ..self }
                },
                data,
                region: Some(
                    self.kernel.subrange(self.chunk_pos(), self.chunk_pos() + self.chunk_len()),
                ),
            }
        }
    }

    /// What a read at `offset` does, where the guest had `data` in place of what it reads. A read
    /// that the last command or the state does not allow changes nothing.
    pub open spec fn read_step(self, offset: u64, data: Seq<u8>) -> ReadStep {
        let refused = ReadStep { next: self, data, region: None };
        if offset != 0 || data.len() == 0 {
            refused
        } else {
            match (self.cmd, self.state) {
                (Some(Command::KernelType), State::WriteKernelType) => ReadStep {
                    next: FwCfgView {
                        state: match self.kernel_type {
                            KernelType::Direct => State::WriteElfHdr,
                            KernelType::BzImage => State::WriteBzImageLen,
                        },
                        ..self
                    },
                    data: seq![self.kernel_type.code()],
                    region: None,
                },
                (Some(Command::ElfHdr), State::WriteElfHdr) => ReadStep {
                    next: FwCfgView { state: State::WritePhdrs, ..self },
                    data,
                    region: Some(self.ehdr->0.encode()),
                },
                (Some(Command::PhdrData), State::WritePhdrs) => match self.phdrs {
                    None => refused,
                    Some(phdrs) => ReadStep {
                        next: if self.cur_phdr + 1 == phdrs.len() {
                            FwCfgView { cur_phdr: 0, state: State::WriteSegs, ..self }
                        } else {
                            FwCfgView { cur_phdr: self.cur_phdr + 1, ..self }
                        },
                        data,
                        region: Some(phdrs[self.cur_phdr as int].encode()),
                    },
                },
                (Some(Command::SegData), State::WriteSegs) => match self.phdrs {
                    None => refused,
                    Some(_) => self.segment_step(data),
                },
                (Some(Command::ElfRela), _) => ReadStep {
                    next: self,
                    data,
                    region: Some(self.relocation_table()),
                },
                _ => refused,
            }
        }
    }
}

/// What is promised of a device at all times still holds after every read that it can serve.
pub proof fn read_keeps_inv(device: FwCfgView, offset: u64, data: Seq<u8>)
    requires
        device.can_serve(offset, data.len()),
    ensures
        device.inv() ==> device.read_step(offset, data).next.inv(),
{
    if device.phdrs is Some {
        passed_over(device.phdrs->0, device.cur_phdr, device.kernel);
    }
}

/// The first of the program headers from `from` on that has something to load, or their number if
/// there is none.
fn loaded_from(phdrs: &Vec<ProgramHeader>, from: usize) -> (i: usize)
    requires
        from <= phdrs@.len(),
    ensures
        i == next_loaded(phdrs@, from as nat),
        i <= phdrs@.len(),
{
    let mut i: usize = from;
    while i < phdrs.len() && (phdrs[i].p_filesz == 0 || phdrs[i].p_type != PT_LOAD)
        invariant
            i <= phdrs@.len(),
            next_loaded(phdrs@, i as nat) == next_loaded(phdrs@, from as nat),
        decreases phdrs@.len() - i,
    {
        i += 1;
    }
    i
}

/// The bytes that are put in the data region.
fn in_data_region(bytes: Vec<u8>) -> (w: GuestWrite)
    ensures
        w@ == (GuestAddress(DATA_REGION_ADDR), bytes@),
{
    GuestWrite { address: GuestAddress(DATA_REGION_ADDR), bytes }
}

impl ReadStep {
    /// Whether `write` puts in the data region what the step says.
    pub open spec fn puts(self, write: Option<GuestWrite>) -> bool {
        match (self.region, write) {
            (Some(region), Some(w)) => w@ == (GuestAddress(DATA_REGION_ADDR), region),
            (None, None) => true,
            _ => false,
        }
    }
}

impl FwCfgView {
    /// The device for the kernel file `kernel`, in which `image` is what goblin finds.
    pub open spec fn created(kernel: Seq<u8>, image: Option<ElfImageView>) -> Result<
        FwCfgView,
        NewError,
    > {
        match file_kernel_type(kernel) {
            KernelType::BzImage => Ok(FwCfgView::fresh(kernel, KernelType::BzImage)),
            KernelType::Direct => match image {
                None => Err(NewError::NotElf),
                Some(image) => match boot_protocol::boot_error(image.header, elf::SIZEOF_PHDR) {
                    Some(e) => Err(NewError::Setup(e)),
                    None => if image.program_headers.len() == 0 {
                        Err(NewError::NoProgramHeaders)
                    } else {
                        Ok(FwCfgView::fresh(kernel, KernelType::Direct).with_image(image))
                    },
                },
            },
        }
    }
}

/// Whether `r` is the device, or the error, that `view` says, with the place for the hashes.
pub open spec fn is_outcome(
    r: Result<(FwCfg, HashPlacement), NewError>,
    view: Result<FwCfgView, NewError>,
    with_initrd: bool,
) -> bool {
    match (r, view) {
        (Ok((device, placement)), Ok(v)) => device@ == v && v.inv() && placement
            == HashPlacement::placed(with_initrd),
        (Err(e), Err(f)) => e == f,
        _ => false,
    }
}

/// How the kernel with the file `kernel` is packed.
pub open spec fn file_kernel_type(kernel: Seq<u8>) -> KernelType {
    boot_protocol::kernel_type_of(
        if kernel.len() < BZIMAGE_HEADER_OFFSET {
            Seq::empty()
        } else {
            kernel.skip(BZIMAGE_HEADER_OFFSET as int)
        },
    )
}

/// How the kernel with the file `kernel` is packed.
fn packing(kernel: &[u8]) -> (kernel_type: KernelType)
    ensures
        kernel_type == file_kernel_type(kernel@),
{
    let start: usize = if kernel.len() < BZIMAGE_HEADER_OFFSET as usize {
        kernel.len()
    } else {
        BZIMAGE_HEADER_OFFSET as usize
    };
    boot_protocol::get_kernel_type(vstd::slice::slice_subrange(kernel, start, kernel.len()))
}

impl FwCfg {
    /// The device for the kernel file `kernel`, and where the hashes of the kernel and of a ramdisk
    /// are to be put.
    pub fn new(kernel: Vec<u8>, with_initrd: bool, sev: Option<&mut SevStarted>) -> (r: Result<
        (FwCfg, HashPlacement),
        NewError,
    >)
        ensures
            is_outcome(r, FwCfgView::created(kernel@, elf_file::parsed_elf(kernel@)), with_initrd),
            sev matches Some(s) ==> final(s)@ == (if r is Ok {
                s@.measuring(
                    HashPlacement::placed(with_initrd).start(),
                    HashPlacement::placed(with_initrd).len,
                )
            } else {
                s@
            }),
    {
        let image: Option<ElfImage> = match packing(kernel.as_slice()) {
            KernelType::BzImage => None,
            KernelType::Direct => ElfImage::parse(kernel.as_slice()),
        };
        FwCfg::with_image(kernel, image, with_initrd, sev)
    }

    /// The device for the kernel file `kernel`, in which `image` is what was found, and where the
    /// hashes of the kernel and of a ramdisk are to be put.
    pub fn with_image(
        kernel: Vec<u8>,
        image: Option<ElfImage>,
        with_initrd: bool,
        sev: Option<&mut SevStarted>,
    ) -> (r: Result<(FwCfg, HashPlacement), NewError>)
        ensures
            is_outcome(
                r,
                FwCfgView::created(
                    kernel@,
                    match image {
                        Some(i) => Some(i@),
                        None => None,
                    },
                ),
                with_initrd,
            ),
            sev matches Some(s) ==> final(s)@ == (if r is Ok {
                s@.measuring(
                    HashPlacement::placed(with_initrd).start(),
                    HashPlacement::placed(with_initrd).len,
                )
            } else {
                s@
            }),
    {
        let kernel_type = packing(kernel.as_slice());
        let mut fw_cfg = FwCfg {
            kernel,
            kernel_type,
            ehdr: None,
            phdrs: None,
            rela: Vec::new(),
            dyn_syms: Vec::new(),
            cur_phdr: 0,
            seg_pos: 0,
            cmd: None,
            state: State::WriteKernelType,
        };
        if kernel_type == KernelType::Direct {
            match image {
                None => {
                    return Err(NewError::NotElf);
                },
                Some(image) => {
                    let count: usize = image.program_headers.len();
                    match fw_cfg.setup_direct_boot(image) {
                        Err(e) => {
                            return Err(NewError::Setup(e));
                        },
                        Ok(()) => {
                            if count == 0 {
                                return Err(NewError::NoProgramHeaders);
                            }
                        },
                    }
                },
            }
        }
        let placement = fw_cfg.add_kernel_hashes(with_initrd, sev);
        Ok((fw_cfg, placement))
    }

    /// Where the hashes of the kernel and of a ramdisk are to be put. If the guest is launched with
    /// SEV they are measured.
    pub fn add_kernel_hashes(&self, with_initrd: bool, sev: Option<&mut SevStarted>) -> (placement:
        HashPlacement)
        ensures
            placement == HashPlacement::placed(with_initrd),
            sev matches Some(s) ==> final(s)@ == s@.measuring(
                placement.start(),
                placement.len,
            ) && (s@.inv() ==> final(s)@.inv()),
    {
        let placement = HashPlacement::new(with_initrd);
        if let Some(sev) = sev {
            sev.add_measured_region(placement.first(), placement.len);
        }
        placement
    }

    /// Takes over what a direct boot needs out of the kernel file.
    pub fn setup_direct_boot(&mut self, image: ElfImage) -> (r: Result<(), Error>)
        ensures
            match boot_protocol::boot_error(image@.header, elf::SIZEOF_PHDR) {
                Some(e) => r == Err::<(), Error>(e) && final(self)@ == old(self)@,
                None => r is Ok && final(self)@ == old(self)@.with_image(image@),
            },
    {
        let ehdr: ElfHeader = image.header;
        // If the program header is backwards, bail.
        if let Some(e) = boot_protocol::check_header(&ehdr, elf::SIZEOF_PHDR) {
            return Err(e);
        }
        self.rela = image.relas;
        self.dyn_syms = image.dyn_syms;
        self.ehdr = Some(ehdr);
        self.phdrs = Some(image.program_headers);
        Ok(())
    }

    /// How the kernel is packed.
    pub fn kernel_type(&self) -> (t: KernelType)
        ensures
            t == self@.kernel_type,
    {
        self.kernel_type
    }

    /// The symbols and the relocations, each with their number in front.
    fn relocation_table(&self) -> (output: Vec<u8>)
        ensures
            output@ == self@.relocation_table(),
    {
        let mut output: Vec<u8> = Vec::new();
        bytes::push_le64(&mut output, self.dyn_syms.len() as u64);
        let ghost count = output@;
        let mut i: usize = 0;
        assert(encoded_syms(self.dyn_syms@.take(0)) =~= Seq::empty());
        while i < self.dyn_syms.len()
            invariant
                i <= self.dyn_syms@.len(),
                output@ == count + encoded_syms(self.dyn_syms@.take(i as int)),
            decreases self.dyn_syms@.len() - i,
        {
            let mut sym: Vec<u8> = elf_file::write_sym(&self.dyn_syms[i]);
            output.append(&mut sym);
            assert(self.dyn_syms@.take(i + 1).drop_last() =~= self.dyn_syms@.take(i as int));
            i += 1;
        }
        assert(self.dyn_syms@.take(i as int) =~= self.dyn_syms@);
        bytes::push_le64(&mut output, self.rela.len() as u64);
        let ghost syms = output@;
        let mut j: usize = 0;
        assert(encoded_relas(self.rela@.take(0)) =~= Seq::empty());
        while j < self.rela.len()
            invariant
                j <= self.rela@.len(),
                output@ == syms + encoded_relas(self.rela@.take(j as int)),
            decreases self.rela@.len() - j,
        {
            let mut rela: Vec<u8> = elf_file::write_rela(&self.rela[j]);
            output.append(&mut rela);
            assert(self.rela@.take(j + 1).drop_last() =~= self.rela@.take(j as int));
            j += 1;
        }
        assert(self.rela@.take(j as int) =~= self.rela@);
        assert(count =~= bytes::le64(self.dyn_syms@.len() as u64));
        output
    }

    /// Serves the read of a program header.
    fn read_program_header(&mut self, phdr: ProgramHeader, count: usize) -> (written: GuestWrite)
        requires
            old(self)@.phdrs matches Some(p) && p.len() == count,
            old(self)@.cur_phdr < count,
            phdr == old(self)@.phdrs->0[old(self)@.cur_phdr as int],
            old(self)@.cmd == Some(Command::PhdrData),
            old(self)@.state == State::WritePhdrs,
        ensures
            ({
                let step = old(self)@.read_step(0, seq![0]);
                &&& final(self)@ == step.next
                &&& step.puts(Some(written))
            }),
    {
        let output: Vec<u8> = elf_file::write_program_header(&phdr);
        self.cur_phdr = self.cur_phdr + 1;
        if self.cur_phdr == count {
            self.cur_phdr = 0;
            self.state = State::WriteSegs;
        }
        in_data_region(output)
    }

    /// Serves the read of a segment.
    fn read_segment(&mut self) -> (written: Option<GuestWrite>)
        requires
            old(self)@.phdrs is Some,
            old(self)@.segment_readable(),
        ensures
            ({
                let step = old(self)@.segment_step(Seq::empty());
                &&& final(self)@ == step.next
                &&& step.puts(written)
            }),
    {
        match &self.phdrs {
            None => None,
            Some(phdrs) => {
                let count: usize = phdrs.len();
                self.cur_phdr = loaded_from(phdrs, self.cur_phdr);
                if self.cur_phdr >= count {
                    return None;
                }
                let phdr: ProgramHeader = phdrs[self.cur_phdr];
                let bytes_left: u64 = phdr.p_filesz - self.seg_pos;
                let mut write_len: u64 = DATA_REGION_SIZE;
                if bytes_left < DATA_REGION_SIZE {
                    write_len = bytes_left;
                }
                let _kernel_len: usize = self.kernel.len();
                let pos: u64 = phdr.p_offset + self.seg_pos;
                let chunk = vstd::slice::slice_subrange(
                    self.kernel.as_slice(),
                    pos as usize,
                    (pos + write_len) as usize,
                );
                let output: Vec<u8> = vstd::slice::slice_to_vec(chunk);
                self.seg_pos = self.seg_pos + write_len;
                if self.seg_pos >= phdr.p_filesz {
                    self.cur_phdr = self.cur_phdr + 1;
                    self.seg_pos = 0;
                }
                Some(in_data_region(output))
            },
        }
    }

    /// Serves a read of the guest: what is returned is to be written to guest memory.
    pub fn read(&mut self, _base: u64, offset: u64, data: &mut [u8]) -> (written: Option<GuestWrite>)
        requires
            old(self)@.can_serve(offset, old(data)@.len()),
        ensures
            ({
                let step = old(self)@.read_step(offset, old(data)@);
                &&& final(self)@ == step.next
                &&& final(data)@ == step.data
                &&& step.puts(written)
            }),
            old(self)@.inv() ==> final(self)@.inv(),
    {
        proof {
            read_keeps_inv(self@, offset, data@);
        }
        if offset != 0 || data.len() < 1 {
            return None;
        }
        match self.cmd {
            Some(Command::KernelType) => {
                if self.state == State::WriteKernelType {
                    data[0] = self.kernel_type.value();
                    if self.kernel_type == KernelType::Direct {
                        self.state = State::WriteElfHdr;
                    } else {
                        self.state = State::WriteBzImageLen;
                    }
                }
                None
            },
            Some(Command::ElfHdr) => {
                if self.state == State::WriteElfHdr {
                    match self.ehdr {
                        Some(ehdr) => {
                            let output: Vec<u8> = elf_file::write_header(&ehdr);
                            self.state = State::WritePhdrs;
                            Some(in_data_region(output))
                        },
                        None => None,
                    }
                } else {
                    None
                }
            },
            Some(Command::PhdrData) => {
                if self.state == State::WritePhdrs {
                    match &self.phdrs {
                        Some(phdrs) => {
                            let phdr: ProgramHeader = phdrs[self.cur_phdr];
                            let count: usize = phdrs.len();
                            Some(self.read_program_header(phdr, count))
                        },
                        None => None,
                    }
                } else {
                    None
                }
            },
            Some(Command::SegData) => {
                if self.state == State::WriteSegs && self.phdrs.is_some() {
                    self.read_segment()
                } else {
                    None
                }
            },
            Some(Command::ElfRela) => Some(in_data_region(self.relocation_table())),
            _ => None,
        }
    }

    /// Whether the device can serve a read of `len` bytes at `offset`.
    pub fn can_read(&self, offset: u64, len: usize) -> (ok: bool)
        ensures
            ok == self@.can_serve(offset, len as nat),
    {
        if offset != 0 || len == 0 {
            return true;
        }
        match self.cmd {
            Some(Command::KernelType) => self.state != State::WriteKernelType || len == 1,
            Some(Command::ElfHdr) => self.state != State::WriteElfHdr || match self.ehdr {
                Some(h) => h.e_ident[elf::EI_DATA] == elf::ELFDATA2LSB,
                None => false,
            },
            Some(Command::PhdrData) => self.state != State::WritePhdrs || match &self.phdrs {
                Some(phdrs) => self.cur_phdr < phdrs.len(),
                None => true,
            },
            Some(Command::SegData) => self.state != State::WriteSegs || self.can_read_segment(),
            Some(Command::ElfRela) => {
                let syms: u128 = self.dyn_syms.len() as u128;
                let relas: u128 = self.rela.len() as u128;
                8 + syms * 24 + 8 + relas * 24 <= DATA_REGION_SIZE as u128
            },
            Some(Command::ElfDynSym) => false,
            _ => true,
        }
    }

    /// Whether the read of a segment finds what it looks for.
    fn can_read_segment(&self) -> (ok: bool)
        ensures
            ok == (self@.phdrs is Some ==> self@.segment_readable()),
    {
        match &self.phdrs {
            None => true,
            Some(phdrs) => {
                let count: usize = phdrs.len();
                if self.cur_phdr >= count {
                    return false;
                }
                let segment: usize = loaded_from(phdrs, self.cur_phdr);
                if segment >= count {
                    return true;
                }
                let phdr: ProgramHeader = phdrs[segment];
                if self.seg_pos > phdr.p_filesz {
                    return false;
                }
                let left: u64 = phdr.p_filesz - self.seg_pos;
                let len: u64 = if left < DATA_REGION_SIZE {
                    left
                } else {
                    DATA_REGION_SIZE
                };
                phdr.p_offset as u128 + self.seg_pos as u128 + len as u128
                    <= self.kernel.len() as u128
            },
        }
    }

    /// Takes a command of the guest. What is no command is passed over.
    pub fn write(&mut self, _base: u64, offset: u64, data: &[u8])
        requires
            offset == 0 ==> data@.len() <= 1,
        ensures
            final(self)@ == old(self)@.commanded(offset, data@),
            final(self)@ == (FwCfgView { cmd: final(self)@.cmd, ..old(self)@ }),
            if offset == 0 && data@.len() == 1 && data@[0] < 8 {
                final(self)@.cmd matches Some(c) && c.code() == data@[0]
            } else {
                final(self)@.cmd == old(self)@.cmd
            },
            old(self)@.inv() ==> final(self)@.inv(),
    {
        if offset != 0 || data.len() < 1 {
            return;
        }
        match Command::try_from(data[0]) {
            Ok(cmd) => {
                self.cmd = Some(cmd);
            },
            Err(_) => {},
        }
    }
}

impl FwCfgView {
    /// The device after a write of `data` at `offset`: a byte at the start is a command, if it is
    /// the number of one.
    pub open spec fn commanded(self, offset: u64, data: Seq<u8>) -> FwCfgView {
        if offset == 0 && data.len() == 1 {
            match data[0] {
                0 => self.asked(Command::KernelType),
                1 => self.asked(Command::BzImageLen),
                2 => self.asked(Command::BzimageData),
                3 => self.asked(Command::ElfHdr),
                4 => self.asked(Command::PhdrData),
                5 => self.asked(Command::SegData),
                6 => self.asked(Command::ElfRela),
                7 => self.asked(Command::ElfDynSym),
                _ => self,
            }
        } else {
            self
        }
    }

    /// The device after it was given `cmd`.
    pub open spec fn asked(self, cmd: Command) -> FwCfgView {
        FwCfgView { cmd: Some(cmd), ..self }
    }

    /// The device after a read.
    #[verifier::opaque]
    pub open spec fn after_read(self, data: Seq<u8>) -> FwCfgView {
        self.read_step(0, data).next
    }

    /// What a read puts in the data region.
    #[verifier::opaque]
    pub open spec fn put(self, data: Seq<u8>) -> Seq<u8> {
        match self.read_step(0, data).region {
            Some(region) => region,
            None => Seq::empty(),
        }
    }

    /// The device after `n` reads.
    pub open spec fn after_reads(self, n: nat, data: Seq<u8>) -> FwCfgView
        decreases n,
    {
        if n == 0 {
            self
        } else {
            self.after_reads((n - 1) as nat, data).after_read(data)
        }
    }

    /// Everything that `n` reads put in the data region, one after the other.
    pub open spec fn handed_out(self, n: nat, data: Seq<u8>) -> Seq<u8>
        decreases n,
    {
        if n == 0 {
            Seq::empty()
        } else {
            let before = (n - 1) as nat;
            self.handed_out(before, data) + self.after_reads(before, data).put(data)
        }
    }
}

/// The first thing that the firmware can ask a device for is the type of its kernel, and it is told
/// that type.
pub proof fn kernel_type_is_told_first(
    kernel: Seq<u8>,
    image: Option<ElfImageView>,
    data: Seq<u8>,
)
    requires
        FwCfgView::created(kernel, image) is Ok,
        data.len() == 1,
    ensures
        ({
            let device = FwCfgView::created(kernel, image)->Ok_0.asked(Command::KernelType);
            let step = device.read_step(0, data);
            &&& device.can_serve(0, data.len())
            &&& step.data == match file_kernel_type(kernel) {
                KernelType::Direct => seq![1u8],
                KernelType::BzImage => seq![0u8],
            }
            &&& step.region is None
            &&& step.next == (FwCfgView { state: step.next.state, ..device })
            &&& step.next.state == match file_kernel_type(kernel) {
                KernelType::Direct => State::WriteElfHdr,
                KernelType::BzImage => State::WriteBzImageLen,
            }
        }),
{
}

/// Once it was told the type of the kernel, the firmware gets the ELF header of a direct boot and
/// then, one read each, all program headers in their order. Each of these reads can be served.
/// After the last one the segments have their turn, from the first on.
pub proof fn headers_are_handed_out_in_order(device: FwCfgView, data: Seq<u8>)
    requires
        device.inv(),
        device.kernel_type == KernelType::Direct,
        device.state == State::WriteKernelType,
        data.len() == 1,
    ensures
        ({
            let phdrs = device.phdrs->0;
            let start = device.asked(Command::KernelType);
            let first = start.read_step(0, data).next.asked(Command::ElfHdr);
            let then = first.read_step(0, data).next.asked(Command::PhdrData);
            &&& start.can_serve(0, data.len())
            &&& start.read_step(0, data).data == seq![KernelType::Direct.code()]
            &&& first.can_serve(0, data.len())
            &&& first.read_step(0, data).region == Some(device.ehdr->0.encode())
            &&& forall|i: nat|
                i < phdrs.len() ==> (#[trigger] then.after_reads(i, data)).can_serve(0, data.len())
                    && then.after_reads(i, data).read_step(0, data).region == Some(
                    phdrs[i as int].encode(),
                )
            &&& then.after_reads(phdrs.len(), data) == (FwCfgView {
                cur_phdr: 0,
                state: State::WriteSegs,
                ..then
            })
        }),
{
    let phdrs = device.phdrs->0;
    let first = device.asked(Command::KernelType).read_step(0, data).next.asked(Command::ElfHdr);
    let then = first.read_step(0, data).next.asked(Command::PhdrData);
    assert forall|i: nat| i < phdrs.len() implies (#[trigger] then.after_reads(i, data)).can_serve(
        0,
        data.len(),
    ) && then.after_reads(i, data).read_step(0, data).region == Some(phdrs[i as int].encode()) by {
        program_header_reads(then, i, data);
    }
    program_header_reads(then, phdrs.len(), data);
}

proof fn program_header_reads(device: FwCfgView, n: nat, data: Seq<u8>)
    requires
        device.phdrs matches Some(p) && 0 < p.len() && n <= p.len(),
        device.cmd == Some(Command::PhdrData),
        device.state == State::WritePhdrs,
        device.cur_phdr == 0,
        data.len() > 0,
    ensures
        device.after_reads(n, data) == if n < device.phdrs->0.len() {
            FwCfgView { cur_phdr: n, ..device }
        } else {
            FwCfgView { cur_phdr: 0, state: State::WriteSegs, ..device }
        },
    decreases n,
{
    reveal(FwCfgView::after_read);
    if n > 0 {
        program_header_reads(device, (n - 1) as nat, data);
    }
}

/// The number of reads that a segment of `len` bytes takes.
pub open spec fn chunks(len: u64) -> nat {
    ((len + DATA_REGION_SIZE - 1) / (DATA_REGION_SIZE as int)) as nat
}

/// A segment that is to be loaded is handed out whole, byte for byte and in order, by as many reads
/// as chunks of the data region hold it. Each of these reads can be served. After the last one the
/// next program header has its turn.
#[verifier::spinoff_prover]
pub proof fn segment_is_handed_out_whole(device: FwCfgView, data: Seq<u8>)
    requires
        device.phdrs matches Some(p) && device.cur_phdr < p.len(),
        device.cmd == Some(Command::SegData),
        device.state == State::WriteSegs,
        device.seg_pos == 0,
        data.len() > 0,
        ({
            let phdr = device.phdrs->0[device.cur_phdr as int];
            &&& phdr.p_type == 1
            &&& phdr.p_filesz > 0
            &&& phdr.p_offset + phdr.p_filesz <= device.kernel.len()
        }),
    ensures
        ({
            let phdr = device.phdrs->0[device.cur_phdr as int];
            let n = chunks(phdr.p_filesz);
            &&& forall|i: nat|
                i < n ==> (#[trigger] device.after_reads(i, data)).can_serve(0, data.len())
            &&& device.handed_out(n, data) == device.kernel.subrange(
                phdr.p_offset as int,
                phdr.p_offset + phdr.p_filesz,
            )
            &&& device.after_reads(n, data) == (FwCfgView {
                cur_phdr: device.cur_phdr + 1,
                ..device
            })
        }),
{
    let phdr = device.phdrs->0[device.cur_phdr as int];
    let n = chunks(phdr.p_filesz);
    assert forall|i: nat| i < n implies (#[trigger] device.after_reads(i, data)).can_serve(
        0,
        data.len(),
    ) by {
        chunk_reads(device, i, data);
    }
    let last = (n - 1) as nat;
    chunk_reads(device, last, data);
    let before = device.after_reads(last, data);
    last_chunk_read(before, data);
    let at = phdr.p_offset as int;
    assert(device.kernel.subrange(at, at + last * 0x200000) + before.put(data)
        =~= device.kernel.subrange(at, at + phdr.p_filesz));
}

/// The read that ends a segment.
proof fn last_chunk_read(device: FwCfgView, data: Seq<u8>)
    requires
        device.phdrs matches Some(p) && device.cur_phdr < p.len(),
        device.cmd == Some(Command::SegData),
        device.state == State::WriteSegs,
        data.len() > 0,
        ({
            let phdr = device.phdrs->0[device.cur_phdr as int];
            &&& is_loaded(phdr)
            &&& device.seg_pos <= phdr.p_filesz <= device.seg_pos + 0x200000
        }),
    ensures
        ({
            let phdr = device.phdrs->0[device.cur_phdr as int];
            &&& device.after_read(data) == (FwCfgView {
                cur_phdr: device.cur_phdr + 1,
                seg_pos: 0,
                ..device
            })
            &&& device.put(data) == device.kernel.subrange(
                phdr.p_offset + device.seg_pos,
                phdr.p_offset + phdr.p_filesz,
            )
        }),
{
    reveal(FwCfgView::after_read);
    reveal(FwCfgView::put);
    assert(device.read_step(0, data) == device.segment_step(data));
}

/// `next_loaded` finds the first program header that has something to load, and no bytes and no
/// reads belong to those that it passes over.
proof fn passed_over(phdrs: Seq<ProgramHeader>, i: nat, kernel: Seq<u8>)
    ensures
        ({
            let next = next_loaded(phdrs, i);
            &&& next <= phdrs.len()
            &&& next >= i || next == phdrs.len()
            &&& next < phdrs.len() ==> is_loaded(phdrs[next as int])
            &&& forall|j: int| i <= j < next ==> !is_loaded(#[trigger] phdrs[j])
            &&& next_loaded(phdrs, next) == next
            &&& loading_reads(phdrs, i) == loading_reads(phdrs, next)
            &&& loaded_bytes(phdrs, i, kernel) == loaded_bytes(phdrs, next, kernel)
        }),
    decreases phdrs.len() - i,
{
    if i < phdrs.len() && !is_loaded(phdrs[i as int]) {
        passed_over(phdrs, i + 1, kernel);
    }
}

/// Program headers that have nothing to load are passed over, however many there are in a row: the
/// reads hand out the segment of the first that has something to load as if it had been the current
/// one.
pub proof fn empty_segments_are_passed_over(device: FwCfgView, n: nat, data: Seq<u8>)
    requires
        device.phdrs matches Some(p) && device.segment() < p.len(),
        device.cmd == Some(Command::SegData),
        device.state == State::WriteSegs,
        data.len() > 0,
        n > 0,
    ensures
        ({
            let follower = FwCfgView { cur_phdr: device.segment(), ..device };
            &&& is_loaded(device.phdrs->0[device.segment() as int])
            &&& device.can_serve(0, data.len()) == follower.can_serve(0, data.len())
            &&& device.handed_out(n, data) == follower.handed_out(n, data)
            &&& device.after_reads(n, data) == follower.after_reads(n, data)
        }),
    decreases n,
{
    let follower = FwCfgView { cur_phdr: device.segment(), ..device };
    passed_over(device.phdrs->0, device.cur_phdr, device.kernel);
    if n > 1 {
        empty_segments_are_passed_over(device, (n - 1) as nat, data);
    } else {
        assert(device.after_reads(0, data) == device);
        assert(follower.after_reads(0, data) == follower);
        same_read(device, data);
        assert(device.handed_out(0, data) == follower.handed_out(0, data));
    }
}

proof fn same_read(device: FwCfgView, data: Seq<u8>)
    requires
        device.phdrs matches Some(p) && device.segment() < p.len(),
        device.cmd == Some(Command::SegData),
        device.state == State::WriteSegs,
        data.len() > 0,
    ensures
        ({
            let follower = FwCfgView { cur_phdr: device.segment(), ..device };
            &&& device.can_serve(0, data.len()) == follower.can_serve(0, data.len())
            &&& device.put(data) == follower.put(data)
            &&& device.after_read(data) == follower.after_read(data)
        }),
{
    let follower = FwCfgView { cur_phdr: device.segment(), ..device };
    passed_over(device.phdrs->0, device.cur_phdr, device.kernel);
    reveal(FwCfgView::after_read);
    reveal(FwCfgView::put);
    assert(device.read_step(0, data) == device.segment_step(data));
    assert(follower.read_step(0, data) == follower.segment_step(data));
}

/// A read of segment data puts nothing but bytes of a segment that is to be loaded in the data
/// region, one whose turn has not passed.
pub proof fn only_loadable_data_is_handed_out(device: FwCfgView, data: Seq<u8>)
    requires
        device.phdrs is Some,
        device.cmd == Some(Command::SegData),
        device.state == State::WriteSegs,
        data.len() > 0,
        device.can_serve(0, data.len()),
    ensures
        device.read_step(0, data).region matches Some(region) ==> {
            let phdrs = device.phdrs->0;
            let i = device.segment();
            let at = device.chunk_pos();
            &&& device.cur_phdr <= i < phdrs.len()
            &&& phdrs[i as int].p_type == 1
            &&& region == device.kernel.subrange(at, at + region.len())
            &&& phdrs[i as int].p_offset <= at
            &&& at + region.len() <= phdrs[i as int].p_offset + phdrs[i as int].p_filesz
        },
{
    passed_over(device.phdrs->0, device.cur_phdr, device.kernel);
    assert(device.read_step(0, data) == device.segment_step(data));
}

proof fn chunk_reads(device: FwCfgView, n: nat, data: Seq<u8>)
    requires
        device.phdrs matches Some(p) && device.cur_phdr < p.len(),
        device.cmd == Some(Command::SegData),
        device.state == State::WriteSegs,
        device.seg_pos == 0,
        data.len() > 0,
        ({
            let phdr = device.phdrs->0[device.cur_phdr as int];
            &&& phdr.p_type == 1
            &&& phdr.p_filesz > 0
            &&& phdr.p_offset + phdr.p_filesz <= device.kernel.len()
            &&& n < chunks(phdr.p_filesz)
        }),
    ensures
        device.after_reads(n, data) == (FwCfgView { seg_pos: n * 0x200000, ..device }),
        ({
            let at = device.phdrs->0[device.cur_phdr as int].p_offset as int;
            device.handed_out(n, data) == device.kernel.subrange(at, at + n * 0x200000)
        }),
    decreases n,
{
    if n > 0 {
        chunk_reads(device, (n - 1) as nat, data);
        let at = device.phdrs->0[device.cur_phdr as int].p_offset as int;
        let before = device.after_reads((n - 1) as nat, data);
        full_chunk_read(before, data);
        assert(device.handed_out(n, data) == device.handed_out((n - 1) as nat, data) + before.put(
            data,
        ));
        assert(device.kernel.subrange(at, at + (n - 1) * 0x200000) + before.put(data)
            =~= device.kernel.subrange(at, at + n * 0x200000));
    }
}

/// A read that does not end a segment.
proof fn full_chunk_read(device: FwCfgView, data: Seq<u8>)
    requires
        device.phdrs matches Some(p) && device.cur_phdr < p.len(),
        device.cmd == Some(Command::SegData),
        device.state == State::WriteSegs,
        data.len() > 0,
        ({
            let phdr = device.phdrs->0[device.cur_phdr as int];
            &&& phdr.p_type == 1
            &&& device.seg_pos + 0x200000 < phdr.p_filesz
        }),
    ensures
        ({
            let at = device.phdrs->0[device.cur_phdr as int].p_offset + device.seg_pos;
            &&& device.after_read(data) == (FwCfgView {
                seg_pos: device.seg_pos + 0x200000,
                ..device
            })
            &&& device.put(data) == device.kernel.subrange(at, at + 0x200000)
        }),
{
    reveal(FwCfgView::after_read);
    reveal(FwCfgView::put);
    assert(device.read_step(0, data) == device.segment_step(data));
}

/// The bytes of the segments that are to be loaded, from the one of the program header `i` on, one
/// after the other.
pub open spec fn loaded_bytes(phdrs: Seq<ProgramHeader>, i: nat, kernel: Seq<u8>) -> Seq<u8>
    decreases phdrs.len() - i,
{
    if i >= phdrs.len() {
        Seq::empty()
    } else if phdrs[i as int].p_filesz > 0 && phdrs[i as int].p_type == 1 {
        let phdr = phdrs[i as int];
        kernel.subrange(phdr.p_offset as int, phdr.p_offset + phdr.p_filesz) + loaded_bytes(
            phdrs,
            i + 1,
            kernel,
        )
    } else {
        loaded_bytes(phdrs, i + 1, kernel)
    }
}

/// The number of reads that the segments take that are to be loaded, from the one of the program
/// header `i` on.
pub open spec fn loading_reads(phdrs: Seq<ProgramHeader>, i: nat) -> nat
    decreases phdrs.len() - i,
{
    if i >= phdrs.len() {
        0
    } else if phdrs[i as int].p_filesz > 0 && phdrs[i as int].p_type == 1 {
        chunks(phdrs[i as int].p_filesz) + loading_reads(phdrs, i + 1)
    } else {
        loading_reads(phdrs, i + 1)
    }
}

/// Whether the segments that are to be loaded, from the one of the program header `i` on, stand in
/// the kernel file.
pub open spec fn loadable_from(phdrs: Seq<ProgramHeader>, i: nat, kernel: Seq<u8>) -> bool {
    forall|j: int|
        i <= j < phdrs.len() && (#[trigger] phdrs[j]).p_filesz > 0 && phdrs[j].p_type == 1
            ==> phdrs[j].p_offset + phdrs[j].p_filesz <= kernel.len()
}

/// The firmware gets the kernel whole: the reads of segments hand out every segment that is to be
/// loaded, in the order of the program headers, byte for byte, and nothing else, and each of these
/// reads can be served.
pub proof fn kernel_is_handed_out_whole(device: FwCfgView, data: Seq<u8>)
    requires
        device.phdrs is Some,
        device.cmd == Some(Command::SegData),
        device.state == State::WriteSegs,
        device.seg_pos == 0,
        data.len() > 0,
        loadable_from(device.phdrs->0, device.cur_phdr, device.kernel),
    ensures
        ({
            let phdrs = device.phdrs->0;
            let n = loading_reads(phdrs, device.cur_phdr);
            &&& forall|i: nat|
                i < n ==> (#[trigger] device.after_reads(i, data)).can_serve(0, data.len())
            &&& device.handed_out(n, data) == loaded_bytes(phdrs, device.cur_phdr, device.kernel)
        }),
    decreases device.phdrs->0.len() - device.cur_phdr,
{
    let phdrs = device.phdrs->0;
    let segment = device.segment();
    passed_over(phdrs, device.cur_phdr, device.kernel);
    if segment < phdrs.len() {
        let phdr = phdrs[segment as int];
        let follower = FwCfgView { cur_phdr: segment, ..device };
        let next = FwCfgView { cur_phdr: segment + 1, ..device };
        let first = chunks(phdr.p_filesz);
        let rest = loading_reads(phdrs, segment + 1);
        assert(first > 0);
        kernel_is_handed_out_whole(next, data);
        segment_is_handed_out_whole(follower, data);
        reads_add_up(follower, first, rest, data);
        empty_segments_are_passed_over(device, first + rest, data);
        assert forall|i: nat| i < first + rest implies (#[trigger] device.after_reads(
            i,
            data,
        )).can_serve(0, data.len()) by {
            if i > 0 {
                empty_segments_are_passed_over(device, i, data);
            }
            assert(follower.after_reads(0, data) == follower);
            if i >= first {
                let j = (i - first) as nat;
                states_add_up(follower, first, j, data);
                assert(next.after_reads(j, data).can_serve(0, data.len()));
            } else {
                assert(follower.after_reads(i, data).can_serve(0, data.len()));
            }
        }
    }
}

/// Reads that follow each other leave the device as they do together.
proof fn states_add_up(device: FwCfgView, m: nat, n: nat, data: Seq<u8>)
    ensures
        device.after_reads(m + n, data) == device.after_reads(m, data).after_reads(n, data),
    decreases n,
{
    if n > 0 {
        states_add_up(device, m, (n - 1) as nat, data);
    }
}

/// Reads that follow each other hand out what they hand out together.
proof fn reads_add_up(device: FwCfgView, m: nat, n: nat, data: Seq<u8>)
    ensures
        device.after_reads(m + n, data) == device.after_reads(m, data).after_reads(n, data),
        device.handed_out(m + n, data) == device.handed_out(m, data) + device.after_reads(
            m,
            data,
        ).handed_out(n, data),
    decreases n,
{
    states_add_up(device, m, n, data);
    let after = device.after_reads(m, data);
    let whole = device.handed_out(m, data);
    if n > 0 {
        let k = (n - 1) as nat;
        reads_add_up(device, m, k, data);
        let region = device.after_reads(m + k, data).put(data);
        let part = after.handed_out(k, data);
        assert(device.handed_out(m + n, data) == device.handed_out(m + k, data) + region);
        assert(after.handed_out(n, data) == part + region);
        assert(whole + part + region =~= whole + (part + region));
    } else {
        assert(whole + after.handed_out(0, data) =~= whole);
    }
}

proof fn encoded_syms_len(syms: Seq<Sym>)
    ensures
        encoded_syms(syms).len() == 24 * syms.len(),
    decreases syms.len(),
{
    if syms.len() > 0 {
        encoded_syms_len(syms.drop_last());
        elf::sym_encoding_len(syms.last());
    }
}

proof fn encoded_relas_len(relas: Seq<Rela>)
    ensures
        encoded_relas(relas).len() == 24 * relas.len(),
    decreases relas.len(),
{
    if relas.len() > 0 {
        encoded_relas_len(relas.drop_last());
        elf::rela_encoding_len(relas.last());
    }
}

/// What a read puts in the data region always fits in it.
pub proof fn reads_stay_in_the_data_region(device: FwCfgView, offset: u64, data: Seq<u8>)
    requires
        device.can_serve(offset, data.len()),
    ensures
        device.read_step(offset, data).region matches Some(region) ==> region.len()
            <= DATA_REGION_SIZE,
{
    encoded_syms_len(device.dyn_syms);
    encoded_relas_len(device.rela);
    if device.ehdr is Some {
        elf::header_encoding_len(device.ehdr->0);
    }
    if device.phdrs is Some {
        elf::program_header_encoding_len(device.phdrs->0[device.cur_phdr as int]);
    }
}

/// The firmware knows the commands by these numbers.
pub proof fn commands_have_numbers(cmd: Command)
    ensures
        cmd.code() == 0 <==> cmd == Command::KernelType,
        cmd.code() == 1 <==> cmd == Command::BzImageLen,
        cmd.code() == 2 <==> cmd == Command::BzimageData,
        cmd.code() == 3 <==> cmd == Command::ElfHdr,
        cmd.code() == 4 <==> cmd == Command::PhdrData,
        cmd.code() == 5 <==> cmd == Command::SegData,
        cmd.code() == 6 <==> cmd == Command::ElfRela,
        cmd.code() == 7 <==> cmd == Command::ElfDynSym,
{
}

/// What a read is served with is put in the data region, at 14 MiB, and nowhere else.
pub proof fn reads_are_served_in_the_data_region(step: ReadStep, write: Option<GuestWrite>)
    requires
        step.puts(write),
    ensures
        step.region is Some <==> write is Some,
        write matches Some(w) ==> w.address.0 == 0xe00000 && step.region == Some(w.bytes@),
{
}

/// A read out of its turn is always allowed, hands out nothing and changes nothing: one at another
/// place, one of no bytes, and one after another command than the one whose turn it is.
pub proof fn reads_out_of_turn_change_nothing(device: FwCfgView, offset: u64, data: Seq<u8>)
    requires
        ({
            ||| offset != 0
            ||| data.len() == 0
            ||| device.cmd is None
            ||| device.cmd == Some(Command::BzImageLen)
            ||| device.cmd == Some(Command::BzimageData)
            ||| device.cmd == Some(Command::KernelType) && device.state != State::WriteKernelType
            ||| device.cmd == Some(Command::ElfHdr) && device.state != State::WriteElfHdr
            ||| device.cmd == Some(Command::PhdrData) && device.state != State::WritePhdrs
            ||| device.cmd == Some(Command::SegData) && device.state != State::WriteSegs
        }),
    ensures
        device.can_serve(offset, data.len()),
        device.read_step(offset, data) == (ReadStep { next: device, data, region: None }),
{
}

/// The symbol `i` stands where 24 bytes are left to each symbol before it.
proof fn symbol_stands_at(syms: Seq<Sym>, i: int)
    requires
        0 <= i < syms.len(),
    ensures
        encoded_syms(syms).subrange(24 * i, 24 * i + 24) == syms[i].encode(),
        encoded_syms(syms).len() == 24 * syms.len(),
    decreases syms.len(),
{
    encoded_syms_len(syms);
    let before = syms.drop_last();
    encoded_syms_len(before);
    elf::sym_encoding_len(syms[i]);
    if i < syms.len() - 1 {
        symbol_stands_at(before, i);
        assert(encoded_syms(syms).subrange(24 * i, 24 * i + 24) =~= encoded_syms(before).subrange(
            24 * i,
            24 * i + 24,
        ));
    } else {
        assert(encoded_syms(syms).subrange(24 * i, 24 * i + 24) =~= syms[i].encode());
    }
}

/// The relocation `i` stands where 24 bytes are left to each relocation before it.
proof fn relocation_stands_at(relas: Seq<Rela>, i: int)
    requires
        0 <= i < relas.len(),
    ensures
        encoded_relas(relas).subrange(24 * i, 24 * i + 24) == relas[i].encode(),
        encoded_relas(relas).len() == 24 * relas.len(),
    decreases relas.len(),
{
    encoded_relas_len(relas);
    let before = relas.drop_last();
    encoded_relas_len(before);
    elf::rela_encoding_len(relas[i]);
    if i < relas.len() - 1 {
        relocation_stands_at(before, i);
        assert(encoded_relas(relas).subrange(24 * i, 24 * i + 24) =~= encoded_relas(before).subrange(
            24 * i,
            24 * i + 24,
        ));
    } else {
        assert(encoded_relas(relas).subrange(24 * i, 24 * i + 24) =~= relas[i].encode());
    }
}

/// The firmware can read the symbols and the relocations of the kernel back from the table that it is
/// given, in any state: the number of symbols, every symbol, the number of relocations, and every
/// relocation, each at its place and in its order, and nothing behind them. It is given the table
/// whenever that fits in the data region.
#[verifier::spinoff_prover]
pub proof fn relocation_table_can_be_read_back(device: FwCfgView, data: Seq<u8>, i: int)
    requires
        device.cmd == Some(Command::ElfRela),
        data.len() > 0,
        device.dyn_syms.len() <= u64::MAX,
        device.rela.len() <= u64::MAX,
    ensures
        ({
            let step = device.read_step(0, data);
            let table = step.region->0;
            let syms = device.dyn_syms;
            let relas = device.rela;
            let behind = 8 + 24 * syms.len();
            &&& device.can_serve(0, data.len()) <==> 16 + 24 * syms.len() + 24 * relas.len()
                <= 0x200000
            &&& step.region is Some
            &&& step.next == device
            &&& step.data == data
            &&& table.len() == 16 + 24 * syms.len() + 24 * relas.len()
            &&& bytes::de64(table, 0) == syms.len()
            &&& 0 <= i < syms.len() ==> table.subrange(8 + 24 * i, 8 + 24 * i + 24)
                == syms[i].encode()
            &&& bytes::de64(table, behind as int) == relas.len()
            &&& 0 <= i < relas.len() ==> table.subrange(
                behind + 8 + 24 * i,
                behind + 8 + 24 * i + 24,
            ) == relas[i].encode()
        }),
{
    let syms = device.dyn_syms;
    let relas = device.rela;
    encoded_syms_len(syms);
    encoded_relas_len(relas);
    let first = bytes::le64(syms.len() as u64);
    let then = bytes::le64(relas.len() as u64);
    bytes::number_is_the_sum_of_its_bytes64(syms.len() as u64);
    bytes::number_is_the_sum_of_its_bytes64(relas.len() as u64);
    table_pieces(first, encoded_syms(syms), then, encoded_relas(relas));
    let table = device.relocation_table();
    bytes::decode_after_encode64(table, 0, syms.len() as u64);
    bytes::decode_after_encode64(table, 8 + 24 * syms.len() as int, relas.len() as u64);
    if 0 <= i < syms.len() {
        symbol_stands_at(syms, i);
    }
    if 0 <= i < relas.len() {
        relocation_stands_at(relas, i);
    }
}

/// What stands one after the other in `a + b + c + d` is found again at its place.
proof fn table_pieces(a: Seq<u8>, b: Seq<u8>, c: Seq<u8>, d: Seq<u8>)
    requires
        a.len() == 8,
        c.len() == 8,
    ensures
        ({
            let table = a + b + c + d;
            let behind = 8 + b.len() as int;
            &&& table.len() == behind + 8 + d.len()
            &&& table.subrange(0, 8) == a
            &&& table.subrange(behind, behind + 8) == c
            &&& forall|at: int|
                0 <= at && at + 24 <= b.len() ==> #[trigger] table.subrange(8 + at, 8 + at + 24)
                    == b.subrange(at, at + 24)
            &&& forall|at: int|
                0 <= at && at + 24 <= d.len() ==> #[trigger] table.subrange(
                    behind + 8 + at,
                    behind + 8 + at + 24,
                ) == d.subrange(at, at + 24)
        }),
{
    let table = a + b + c + d;
    let behind = 8 + b.len() as int;
    assert(table.subrange(0, 8) =~= a);
    assert(table.subrange(behind, behind + 8) =~= c);
    assert forall|at: int| 0 <= at && at + 24 <= b.len() implies #[trigger] table.subrange(
        8 + at,
        8 + at + 24,
    ) == b.subrange(at, at + 24) by {
        assert(table.subrange(8 + at, 8 + at + 24) =~= b.subrange(at, at + 24));
    }
    assert forall|at: int| 0 <= at && at + 24 <= d.len() implies #[trigger] table.subrange(
        behind + 8 + at,
        behind + 8 + at + 24,
    ) == d.subrange(at, at + 24) by {
        assert(table.subrange(behind + 8 + at, behind + 8 + at + 24) =~= d.subrange(at, at + 24));
    }
}

/// A segment that is to be loaded and has bytes in the kernel file is handed out whole when its turn
/// has come, whatever its permissions, addresses and alignment are: the reads that follow put exactly
/// its bytes in the data region, in chunks of 2 MiB and a last one with the rest. Each of these reads
/// can be served. The next program header has its turn then.
pub proof fn loadable_segment_is_handed_out_whole(device: FwCfgView, data: Seq<u8>)
    requires
        device.phdrs matches Some(p) && device.cur_phdr < p.len(),
        device.cmd == Some(Command::SegData),
        device.state == State::WriteSegs,
        device.seg_pos == 0,
        data.len() > 0,
        ({
            let phdr = device.phdrs->0[device.cur_phdr as int];
            &&& phdr.p_type == 1
            &&& phdr.p_filesz > 0
            &&& phdr.p_offset + phdr.p_filesz <= device.kernel.len()
        }),
    ensures
        ({
            let phdr = device.phdrs->0[device.cur_phdr as int];
            let n = ((phdr.p_filesz + 0x1fffff) / 0x200000) as nat;
            let start = phdr.p_offset as int;
            &&& n > 0
            &&& forall|i: nat|
                i < n ==> (#[trigger] device.after_reads(i, data)).can_serve(0, data.len())
            &&& device.handed_out(n, data) == device.kernel.subrange(start, start + phdr.p_filesz)
            &&& device.after_reads(n, data) == (FwCfgView {
                cur_phdr: device.cur_phdr + 1,
                ..device
            })
        }),
{
    segment_is_handed_out_whole(device, data);
}

/// A program header of another type, or of a segment without bytes in the kernel file, is passed
/// over: a read does what it does when the next program header has its turn, and hands out nothing
/// where there is no next one.
pub proof fn other_program_headers_are_passed_over(device: FwCfgView, data: Seq<u8>)
    requires
        device.phdrs matches Some(p) && device.cur_phdr < p.len(),
        device.cmd == Some(Command::SegData),
        device.state == State::WriteSegs,
        data.len() > 0,
        ({
            let phdr = device.phdrs->0[device.cur_phdr as int];
            phdr.p_filesz == 0 || phdr.p_type != 1
        }),
    ensures
        ({
            let next = FwCfgView { cur_phdr: device.cur_phdr + 1, ..device };
            if next.cur_phdr < device.phdrs->0.len() {
                &&& device.can_serve(0, data.len()) == next.can_serve(0, data.len())
                &&& device.read_step(0, data) == next.read_step(0, data)
            } else {
                &&& device.can_serve(0, data.len())
                &&& device.read_step(0, data) == (ReadStep { next, data, region: None })
            }
        }),
{
    let next = FwCfgView { cur_phdr: device.cur_phdr + 1, ..device };
    assert(device.segment() == next.segment());
    assert(device.read_step(0, data) == device.segment_step(data));
    assert(next.read_step(0, data) == next.segment_step(data));
}

/// One read after the other does the same to two devices if the first of them does.
proof fn same_reads(a: FwCfgView, b: FwCfgView, n: nat, data: Seq<u8>)
    requires
        a.read_step(0, data) == b.read_step(0, data),
        n > 0,
    ensures
        a.after_reads(n, data) == b.after_reads(n, data),
        a.handed_out(n, data) == b.handed_out(n, data),
    decreases n,
{
    reveal(FwCfgView::after_read);
    reveal(FwCfgView::put);
    if n > 1 {
        same_reads(a, b, (n - 1) as nat, data);
    } else {
        assert(a.after_reads(0, data) == a);
        assert(b.after_reads(0, data) == b);
        assert(a.handed_out(0, data) == b.handed_out(0, data));
    }
}

/// No segment that is to be handed out is left out: for each of them, from the current program header
/// on, there is a number of reads after which the reads that follow hand out exactly its bytes.
pub proof fn every_loadable_segment_is_handed_out(device: FwCfgView, j: int, data: Seq<u8>)
    requires
        device.phdrs is Some,
        device.cmd == Some(Command::SegData),
        device.state == State::WriteSegs,
        device.seg_pos == 0,
        data.len() > 0,
        device.cur_phdr <= j < device.phdrs->0.len(),
        forall|i: int|
            0 <= i < device.phdrs->0.len() ==> (#[trigger] device.phdrs->0[i]).p_offset
                + device.phdrs->0[i].p_filesz <= device.kernel.len(),
        device.phdrs->0[j].p_filesz > 0,
        device.phdrs->0[j].p_type == 1,
    ensures
        exists|n: nat|
            {
                let phdr = device.phdrs->0[j];
                let reads = ((phdr.p_filesz + 0x1fffff) / 0x200000) as nat;
                let start = phdr.p_offset as int;
                (#[trigger] device.after_reads(n, data)).handed_out(reads, data)
                    == device.kernel.subrange(start, start + phdr.p_filesz)
            },
    decreases j - device.cur_phdr,
{
    let phdrs = device.phdrs->0;
    let phdr = phdrs[j];
    let reads = ((phdr.p_filesz + 0x1fffff) / 0x200000) as nat;
    let bytes = device.kernel.subrange(phdr.p_offset as int, phdr.p_offset + phdr.p_filesz);
    let cur = phdrs[device.cur_phdr as int];
    if device.cur_phdr == j {
        loadable_segment_is_handed_out_whole(device, data);
        assert(device.after_reads(0, data) == device);
    } else {
        let next = FwCfgView { cur_phdr: device.cur_phdr + 1, ..device };
        every_loadable_segment_is_handed_out(next, j, data);
        let m = choose|m: nat| (#[trigger] next.after_reads(m, data)).handed_out(reads, data) == bytes;
        if cur.p_filesz > 0 && cur.p_type == 1 {
            let first = ((cur.p_filesz + 0x1fffff) / 0x200000) as nat;
            loadable_segment_is_handed_out_whole(device, data);
            states_add_up(device, first, m, data);
            assert(device.after_reads(first + m, data).handed_out(reads, data) == bytes);
        } else {
            other_program_headers_are_passed_over(device, data);
            if m > 0 {
                same_reads(device, next, m, data);
                assert(device.after_reads(m, data).handed_out(reads, data) == bytes);
            } else {
                assert(reads > 0);
                same_reads(device, next, reads, data);
                assert(device.after_reads(0, data) == device);
                assert(next.after_reads(0, data) == next);
                assert(device.after_reads(0, data).handed_out(reads, data) == bytes);
            }
        }
    }
}

/// Nothing but bytes of loadable segments is handed out: what a read puts in the data region stands in
/// the kernel file as part of such a segment, one whose turn has not passed, from where the reads
/// before it have come to.
pub proof fn only_bytes_of_segments_are_handed_out(device: FwCfgView, data: Seq<u8>)
    requires
        device.phdrs is Some,
        device.cmd == Some(Command::SegData),
        device.state == State::WriteSegs,
        data.len() > 0,
        device.can_serve(0, data.len()),
    ensures
        device.read_step(0, data).region matches Some(region) ==> exists|i: int|
            {
                let start = (#[trigger] device.phdrs->0[i]).p_offset + device.seg_pos;
                &&& device.cur_phdr <= i < device.phdrs->0.len()
                &&& device.phdrs->0[i].p_filesz > 0
                &&& device.phdrs->0[i].p_type == 1
                &&& device.seg_pos + region.len() <= device.phdrs->0[i].p_filesz
                &&& region.len() <= 0x200000
                &&& region == device.kernel.subrange(start, start + region.len())
            },
{
    only_loadable_data_is_handed_out(device, data);
    passed_over(device.phdrs->0, device.cur_phdr, device.kernel);
    assert(device.read_step(0, data) == device.segment_step(data));
    if device.segment() < device.phdrs->0.len() {
        assert(device.phdrs->0[device.segment() as int].p_filesz > 0);
    }
}

/// A kernel file is a bzImage exactly if the four letters `HdrS` stand at 0x202.
pub proof fn bzimage_is_known_by_its_magic(kernel: Seq<u8>)
    ensures
        file_kernel_type(kernel) == KernelType::BzImage <==> {
            &&& kernel.len() >= 0x206
            &&& kernel[0x202] == 0x48
            &&& kernel[0x203] == 0x64
            &&& kernel[0x204] == 0x72
            &&& kernel[0x205] == 0x53
        },
{
    if kernel.len() >= 0x1f1 {
        boot_protocol::bzimage_is_known_by_its_magic(kernel.skip(0x1f1));
    } else {
        boot_protocol::bzimage_is_known_by_its_magic(Seq::empty());
    }
}

/// There is a device for every bzImage, whatever else stands in its file.
pub proof fn bzimage_has_a_device(kernel: Seq<u8>, image: Option<ElfImageView>)
    requires
        file_kernel_type(kernel) == KernelType::BzImage,
    ensures
        FwCfgView::created(kernel, image) matches Ok(device) && device.inv() && device.kernel == kernel
            && device.kernel_type == KernelType::BzImage && device.state == State::WriteKernelType,
{
}

/// There is a device for every other kernel that is a little-endian ELF file with program headers of
/// 56 bytes, one at least, which stand at 56 or later. It holds what was found in the file and has
/// handed out nothing. For every other kernel there is the error that says what is wrong.
pub proof fn elf_kernel_has_a_device(kernel: Seq<u8>, image: ElfImageView)
    requires
        file_kernel_type(kernel) == KernelType::Direct,
    ensures
        FwCfgView::created(kernel, None) == Err::<FwCfgView, NewError>(NewError::NotElf),
        ({
            let h = image.header;
            let magic = h.e_ident@[0] == 0x7f && h.e_ident@[1] == 0x45 && h.e_ident@[2] == 0x4c
                && h.e_ident@[3] == 0x46;
            let bootable = magic && h.e_ident@[5] == 1 && h.e_phentsize == 56 && h.e_phoff >= 56;
            let r = FwCfgView::created(kernel, Some(image));
            &&& bootable && image.program_headers.len() > 0 ==> (r matches Ok(device)
                && device.inv() && device.kernel == kernel && device.kernel_type
                == KernelType::Direct && device.ehdr == Some(h) && device.phdrs == Some(
                image.program_headers,
            ) && device.rela == image.relas && device.dyn_syms == image.dyn_syms && device.cur_phdr
                == 0 && device.seg_pos == 0 && device.cmd is None && device.state
                == State::WriteKernelType)
            &&& bootable && image.program_headers.len() == 0 <==> r == Err::<FwCfgView, NewError>(
                NewError::NoProgramHeaders,
            )
            &&& !bootable <==> (r matches Err(NewError::Setup(_)))
            &&& !magic ==> r == Err::<FwCfgView, NewError>(
                NewError::Setup(Error::InvalidElfMagicNumber),
            )
        }),
{
    boot_protocol::kernel_is_booted_unless_its_header_forbids_it(image.header, 56);
}

/// A device is created exactly where there is one for the kernel, and it comes with the places below
/// 1 MiB for the hashes of the kernel and of a ramdisk; where there is none, the error is passed on.
pub proof fn outcome_is_the_device(
    r: Result<(FwCfg, HashPlacement), NewError>,
    view: Result<FwCfgView, NewError>,
    with_initrd: bool,
)
    requires
        is_outcome(r, view, with_initrd),
    ensures
        r is Ok <==> view is Ok,
        r matches Ok(made) ==> made.0@ == view->Ok_0 && made.1.kernel.0 == 0xfffe0 && (
        made.1.initrd is Some <==> with_initrd),
        r matches Err(e) ==> view == Err::<FwCfgView, NewError>(e),
{
}

/// The guest gives a command by writing its number, one byte, at the start of the device; the device
/// takes it in any state, and nothing else of it changes. Another byte, or a write elsewhere, changes
/// nothing.
pub proof fn commands_are_given_by_number(device: FwCfgView, offset: u64, data: Seq<u8>, cmd: Command)
    ensures
        offset == 0 && data.len() == 1 && data[0] == cmd.code() ==> device.commanded(offset, data) == (
        FwCfgView { cmd: Some(cmd), ..device }),
        offset == 0 && data.len() == 1 && data[0] >= 8 ==> device.commanded(offset, data) == device,
        offset != 0 || data.len() != 1 ==> device.commanded(offset, data) == device,
{
}

} // verus!
