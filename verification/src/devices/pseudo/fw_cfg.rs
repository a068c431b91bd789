//! The device through which the guest firmware fetches a kernel, piece by piece, out of a file that
//! stays open.
//!
//! The file is read by the caller: a read of the guest says what is to be copied out of it.

use vstd::prelude::*;

use crate::arch::x86_64::sev::{Sev, SevView};
use crate::boot_protocol::{self, DATA_REGION_ADDR, DATA_REGION_SIZE};
use crate::bytes;
use crate::elf::{self, ElfHeader, ProgramHeader, PT_LOAD, SIZEOF_EHDR, SIZEOF_PHDR};
use crate::layout::HashPlacement;
use crate::memory::{GuestAddress, GuestWrite, MemoryRegion};

pub use crate::boot_protocol::{Error, KernelType, State};

verus! {

/// The register of the device.
pub const FW_CFG_REG: u64 = 0x81;

/// A segment with what is needed for dynamic linking.
pub const PT_DYNAMIC: u32 = 2;

/// A segment with thread-local storage.
pub const PT_TLS: u32 = 7;

/// What the firmware can ask for.
#[derive(PartialEq, Eq, Copy, Clone, Debug, Structural)]
pub enum Command {
    /// Get the type of kernel to load, should be the first command issued
    KernelType,
    /// Get the length of the bzImage
    BzImageLen,
    /// Start reading the bzImage in chunks
    BzimageData,
    /// For a direct boot, send the ELF header
    ElfHdr,
    /// For a direct boot, get the next program header
    PhdrData,
    /// Start reading loadable segment data
    SegData,
}

impl Command {
    /// The number of the command.
    pub open spec fn code(self) -> u32 {
        match self {
            Command::KernelType => 0,
            Command::BzImageLen => 1,
            Command::BzimageData => 2,
            Command::ElfHdr => 3,
            Command::PhdrData => 4,
            Command::SegData => 5,
        }
    }

    /// The command with the number `code`.
    pub fn try_from(code: u8) -> (r: Result<Command, Error>)
        ensures
            r is Ok == (code < 6),
            r matches Ok(c) ==> c.code() == code,
            r matches Err(e) ==> e == Error::InvalidCommand,
    {
        match code {
            0 => Ok(Command::KernelType),
            1 => Ok(Command::BzImageLen),
            2 => Ok(Command::BzimageData),
            3 => Ok(Command::ElfHdr),
            4 => Ok(Command::PhdrData),
            5 => Ok(Command::SegData),
            _ => Err(Error::InvalidCommand),
        }
    }

    /// The number of the command.
    pub fn into(self) -> (code: u32)
        ensures
            code == self.code(),
    {
        match self {
            Command::KernelType => 0,
            Command::BzImageLen => 1,
            Command::BzimageData => 2,
            Command::ElfHdr => 3,
            Command::PhdrData => 4,
            Command::SegData => 5,
        }
    }
}

/// Every command has a number of its own, below six, so `Command::try_from` finds each command
/// again by its number.
pub proof fn command_codes_are_distinct(a: Command, b: Command)
    ensures
        a.code() < 6,
        a.code() == b.code() ==> a == b,
{
}

/// The device through which the guest firmware fetches a kernel.
#[derive(Debug)]
pub struct FwCfg {
    kernel_type: KernelType,
    kernel_len: u64,
    ehdr: Option<ElfHeader>,
    phdrs: Option<Vec<ProgramHeader>>,
    cur_phdr: usize,
    seg_pos: u64,
    cmd: Option<Command>,
    state: State,
}

/// What a `FwCfg` holds and how far it has come.
#[verifier::ext_equal]
pub struct FwCfgView {
    pub kernel_type: KernelType,
    /// Length of a bzImage
    pub kernel_len: u64,
    /// The ELF header of a direct boot
    pub ehdr: Option<ElfHeader>,
    /// The program headers of a direct boot
    pub phdrs: Option<Seq<ProgramHeader>>,
    /// The program header that is handed out next, or whose segment is
    pub cur_phdr: nat,
    /// How much of the current segment has been handed out
    pub seg_pos: nat,
    /// The last command
    pub cmd: Option<Command>,
    pub state: State,
}

impl View for FwCfg {
    type V = FwCfgView;

    closed spec fn view(&self) -> FwCfgView {
        FwCfgView {
            kernel_type: self.kernel_type,
            kernel_len: self.kernel_len,
            ehdr: self.ehdr,
            phdrs: match self.phdrs {
                Some(p) => Some(p@),
                None => None,
            },
            cur_phdr: self.cur_phdr as nat,
            seg_pos: self.seg_pos as nat,
            cmd: self.cmd,
            state: self.state,
        }
    }
}

/// What the caller does for a read of the guest.
#[derive(Debug)]
pub enum ReadAction {
    /// Nothing
    Nothing,
    /// Write to guest memory
    Write(GuestWrite),
    /// Copy `len` bytes out of the kernel file to guest memory at `to`: from the position `seek`, or
    /// from where the last copy ended
    Copy { seek: Option<u64>, len: u64, to: GuestAddress },
}

/// What a read of the guest is served with.
#[verifier::ext_equal]
pub enum Served {
    /// Nothing
    Nothing,
    /// These bytes in the data region
    Bytes(Seq<u8>),
    /// So many bytes of the kernel file in the data region, from the position `seek` or from where
    /// the last ones ended
    File { seek: Option<u64>, len: nat },
}

/// What a read does: the device after it, what the guest reads, and what it is served with.
#[verifier::ext_equal]
pub struct ReadStep {
    pub next: FwCfgView,
    pub data: Seq<u8>,
    pub served: Served,
}

impl ReadStep {
    /// Whether `action` serves the guest with what the step says.
    pub open spec fn is_done_by(self, action: ReadAction) -> bool {
        match (self.served, action) {
            (Served::Nothing, ReadAction::Nothing) => true,
            (Served::Bytes(b), ReadAction::Write(w)) => w@ == (GuestAddress(DATA_REGION_ADDR), b),
            (Served::File { seek, len }, ReadAction::Copy { seek: s, len: l, to }) => seek == s && len
                == l && to == GuestAddress(DATA_REGION_ADDR),
            _ => false,
        }
    }
}

/// Whether a segment has something to load.
pub open spec fn is_loaded(phdr: ProgramHeader) -> bool {
    phdr.p_filesz != 0 && (phdr.p_type == PT_LOAD || phdr.p_type == PT_DYNAMIC || phdr.p_type
        == PT_TLS)
}

/// The first of the program headers from `i` on that has something to load, or the number of
/// program headers if there is none.
pub open spec fn next_loaded(phdrs: Seq<ProgramHeader>, i: nat) -> nat
    decreases phdrs.len() - i,
{
    if i >= phdrs.len() {
        phdrs.len()
    } else if is_loaded(phdrs[i as int]) {
        i
    } else {
        next_loaded(phdrs, i + 1)
    }
}

impl FwCfgView {
    /// What is promised of a device that was set up, at all times.
    pub open spec fn inv(self) -> bool {
        self.kernel_type == KernelType::Direct ==> {
            &&& self.ehdr matches Some(h) && boot_protocol::boot_error(h, SIZEOF_EHDR) is None
            &&& self.phdrs matches Some(p) && p.len() > 0 && p.len() == self.ehdr->0.e_phnum
            &&& self.state == State::WriteKernelType || self.state == State::WriteElfHdr
                ==> self.cur_phdr == 0
            &&& self.state == State::WritePhdrs ==> self.cur_phdr < self.phdrs->0.len()
            &&& self.seg_pos > 0 ==> {
                &&& self.state == State::WriteSegs
                &&& self.cur_phdr < self.phdrs->0.len()
                &&& is_loaded(self.phdrs->0[self.cur_phdr as int])
                &&& self.seg_pos < self.phdrs->0[self.cur_phdr as int].p_filesz
            }
        }
    }

    /// The device of a kernel before anything was asked of it.
    pub open spec fn fresh(kernel_type: KernelType) -> FwCfgView {
        FwCfgView {
            kernel_type,
            kernel_len: 0,
            ehdr: None,
            phdrs: None,
            cur_phdr: 0,
            seg_pos: 0,
            cmd: None,
            state: State::WriteKernelType,
        }
    }

    /// The device with what a direct boot needs out of the kernel file.
    pub open spec fn set_up(self, ehdr: ElfHeader, phdrs: Seq<ProgramHeader>) -> FwCfgView {
        FwCfgView { ehdr: Some(ehdr), phdrs: Some(phdrs), ..self }
    }

    /// The device with the length of its kernel file, where the file's start and end were found.
    pub open spec fn with_length(self, start: bool, end: Option<u64>) -> FwCfgView {
        match end {
            Some(end) if start => FwCfgView { kernel_len: end, ..self },
            _ => self,
        }
    }

    /// Whether a kernel can be handed out: a bzImage, or an ELF file with a program header at least.
    pub open spec fn bootable(self) -> bool {
        self.kernel_type == KernelType::BzImage || (self.phdrs matches Some(p) && p.len() > 0)
    }

    /// What a step of the set-up does, and what is to be done next. A bzImage has its length found.
    /// An ELF file has its header read and then, where the header says, its program headers.
    pub open spec fn setup_step(self, event: KernelEvent) -> (
        FwCfgView,
        Result<KernelAction, Error>,
    ) {
        match event {
            KernelEvent::Begin => (
                self,
                Ok(
                    match self.kernel_type {
                        KernelType::Direct => KernelAction::ReadHeader(header_reads()),
                        KernelType::BzImage => KernelAction::FindLength,
                    },
                ),
            ),
            KernelEvent::HeaderRead { sought, read } => (
                self,
                match boot_header_of(
                    sought,
                    match read {
                        Some(b) => Some(b@),
                        None => None,
                    },
                ) {
                    Ok(ehdr) => Ok(
                        KernelAction::ReadProgramHeaders {
                            ehdr,
                            reads: program_header_reads_of(ehdr),
                        },
                    ),
                    Err(e) => Err(e),
                },
            ),
            KernelEvent::ProgramHeadersRead { ehdr, sought, reads } => match program_headers_of(
                sought,
                read_views(reads@),
            ) {
                Ok(phdrs) => (self.set_up(ehdr, phdrs), Ok(KernelAction::Finished)),
                Err(e) => (self, Err(e)),
            },
            KernelEvent::LengthFound { start, end, again } => (
                self.with_length(start, end),
                match length_error(start, end, again) {
                    Some(e) => Err(e),
                    None => Ok(KernelAction::Finished),
                },
            ),
        }
    }

    /// The program header whose segment the next read is about: the first from the current one on
    /// that has something to load.
    pub open spec fn segment(self) -> nat {
        next_loaded(self.phdrs->0, self.cur_phdr)
    }

    /// How much of its segment the next read hands out: what is left of it, up to the size of the
    /// data region.
    pub open spec fn chunk_len(self) -> int {
        let left = self.phdrs->0[self.segment() as int].p_filesz - self.seg_pos;
        if left < DATA_REGION_SIZE {
            left
        } else {
            DATA_REGION_SIZE as int
        }
    }

    /// Whether the device can serve a read of `len` bytes at `offset`.
    pub open spec fn can_serve(self, offset: u64, len: nat) -> bool {
        offset != 0 || len == 0 || match self.cmd {
            Some(Command::KernelType) => self.state == State::WriteKernelType ==> len == 1,
            Some(Command::ElfHdr) => self.state == State::WriteElfHdr ==> self.ehdr is Some,
            Some(Command::PhdrData) => self.state == State::WritePhdrs && self.phdrs is Some ==> {
                &&& self.cur_phdr < self.phdrs->0.len()
                &&& self.ehdr is Some
            },
            Some(Command::SegData) => self.state == State::WriteSegs && self.phdrs is Some ==> {
                &&& self.cur_phdr < self.phdrs->0.len()
                &&& self.segment() < self.phdrs->0.len() ==> self.seg_pos
                    <= self.phdrs->0[self.segment() as int].p_filesz
            },
            _ => true,
        }
    }

    /// The read of a segment: the next chunk of it is put in the data region. The first chunk is
    /// looked up in the file, the others follow on it. Program headers that have nothing to load are
    /// passed over. When the whole segment has been handed out, the next program header has its
    /// turn.
    pub open spec fn segment_step(self, data: Seq<u8>) -> ReadStep {
        let phdrs = self.phdrs->0;
        let segment = self.segment();
        if segment >= phdrs.len() {
            ReadStep { next: FwCfgView { cur_phdr: segment, ..self }, data, served: Served::Nothing }
        } else {
            let phdr = phdrs[segment as int];
            let end = self.seg_pos + self.chunk_len();
            ReadStep {
                next: if end >= phdr.p_filesz {
                    FwCfgView { cur_phdr: segment + 1, seg_pos: 0, ..self }
                } else {
                    FwCfgView { cur_phdr: segment, seg_pos: end as nat, ..self }
                },
                data,
                served: Served::File {
                    seek: if self.seg_pos == 0 {
                        Some(phdr.p_offset)
                    } else {
                        None
                    },
                    len: self.chunk_len() as nat,
                },
            }
        }
    }

    /// What a read at `offset` does, where the guest had `data` in place of what it reads. A read
    /// that the last command or the state does not allow changes nothing.
    pub open spec fn read_step(self, offset: u64, data: Seq<u8>) -> ReadStep {
        let refused = ReadStep { next: self, data, served: Served::Nothing };
        if offset != 0 || data.len() == 0 {
            refused
        } else {
            match (self.cmd, self.state) {
                (Some(Command::KernelType), State::WriteKernelType) => ReadStep {
                    next: FwCfgView {
                        state: match self.kernel_type {
                            KernelType::Direct => State::WriteElfHdr,
                            KernelType::BzImage => State::WriteBzImageLen,
                        },
                        ..self
                    },
                    data: seq![self.kernel_type.code()],
                    served: Served::Nothing,
                },
                (Some(Command::ElfHdr), State::WriteElfHdr) => ReadStep {
                    next: FwCfgView { state: State::WritePhdrs, ..self },
                    data,
                    served: Served::Bytes(self.ehdr->0.encode()),
                },
                (Some(Command::PhdrData), State::WritePhdrs) => match self.phdrs {
                    None => refused,
                    Some(phdrs) => ReadStep {
                        next: if self.cur_phdr + 1 == self.ehdr->0.e_phnum {
                            FwCfgView { cur_phdr: 0, state: State::WriteSegs, ..self }
                        } else {
                            FwCfgView { cur_phdr: self.cur_phdr + 1, ..self }
                        },
                        data,
                        served: Served::Bytes(phdrs[self.cur_phdr as int].encode()),
                    },
                },
                (Some(Command::SegData), State::WriteSegs) => match self.phdrs {
                    None => refused,
                    Some(_) => self.segment_step(data),
                },
                _ => refused,
            }
        }
    }
}

/// What is promised of a device that was set up still holds after every read that it can serve.
pub proof fn read_keeps_inv(device: FwCfgView, offset: u64, data: Seq<u8>)
    requires
        device.can_serve(offset, data.len()),
    ensures
        device.inv() ==> device.read_step(offset, data).next.inv(),
{
    if device.phdrs is Some {
        passed_over(device.phdrs->0, device.cur_phdr, Seq::empty());
    }
}

/// The first of the program headers from `from` on that has something to load, or their number if
/// there is none.
fn loaded_from(phdrs: &Vec<ProgramHeader>, from: usize) -> (i: usize)
    requires
        from <= phdrs@.len(),
    ensures
        i == next_loaded(phdrs@, from as nat),
        i <= phdrs@.len(),
{
    let mut i: usize = from;
    while i < phdrs.len() && (phdrs[i].p_filesz == 0 || (phdrs[i].p_type != PT_LOAD
        && phdrs[i].p_type != PT_DYNAMIC && phdrs[i].p_type != PT_TLS))
        invariant
            i <= phdrs@.len(),
            next_loaded(phdrs@, i as nat) == next_loaded(phdrs@, from as nat),
        decreases phdrs@.len() - i,
    {
        i += 1;
    }
    i
}

/// Reads of a kernel file: `count` of them one after the other from `position` on, `len` bytes each.
#[derive(Clone, Copy, Debug, PartialEq, Eq, Structural)]
pub struct KernelReads {
    pub position: u64,
    pub count: usize,
    pub len: usize,
}

/// What a step of the set-up of a device was told of its kernel file.
#[derive(Debug)]
pub enum KernelEvent {
    /// The set-up begins
    Begin,
    /// Whether the start of the file was found, and what was read there, if anything could be
    HeaderRead { sought: bool, read: Option<Vec<u8>> },
    /// Whether the place of the program headers of `ehdr` was found, and what was read for each of
    /// them, up to the first that could not be read
    ProgramHeadersRead { ehdr: ElfHeader, sought: bool, reads: Vec<Option<Vec<u8>>> },
    /// Whether the start of the file was found, where its end was found, and whether its start was
    /// found again
    LengthFound { start: bool, end: Option<u64>, again: bool },
}

/// What is to be done next to set up a device.
#[derive(Clone, Copy, Debug, PartialEq, Eq)]
pub enum KernelAction {
    /// Read the ELF header
    ReadHeader(KernelReads),
    /// Read the program headers that `ehdr` announces
    ReadProgramHeaders { ehdr: ElfHeader, reads: KernelReads },
    /// Find the start, the end and again the start of the file
    FindLength,
    /// The device is set up
    Finished,
}

/// Whether the set-up can be told `event`: no more was read than was to be read, and program headers
/// are those of a header that was accepted.
pub open spec fn can_be_told(event: KernelEvent) -> bool {
    match event {
        KernelEvent::HeaderRead { sought, read } => read matches Some(b) ==> b@.len()
            <= SIZEOF_EHDR,
        KernelEvent::ProgramHeadersRead { ehdr, sought, reads } => {
            &&& boot_protocol::boot_error(ehdr, SIZEOF_EHDR) is None
            &&& reads_of(reads@, ehdr)
        },
        _ => true,
    }
}

/// Why the length of a kernel file was not found: its start, its end, or its start once more could
/// not be sought.
pub open spec fn length_error(start: bool, end: Option<u64>, again: bool) -> Option<Error> {
    if !start {
        Some(Error::SeekKernelStart)
    } else if end is None {
        Some(Error::SeekKernelImage)
    } else if !again {
        Some(Error::SeekKernelStart)
    } else {
        None
    }
}

/// How the ELF header is read: at the start of the file.
pub open spec fn header_reads() -> KernelReads {
    KernelReads { position: 0, count: 1, len: SIZEOF_EHDR }
}

/// How the program headers that `ehdr` announces are read: from the place that it gives on.
pub open spec fn program_header_reads_of(ehdr: ElfHeader) -> KernelReads {
    KernelReads { position: ehdr.e_phoff, count: ehdr.e_phnum as usize, len: SIZEOF_PHDR }
}

/// The ELF header of a kernel file, out of what could be read at its start.
pub open spec fn boot_header_of(sought: bool, read: Option<Seq<u8>>) -> Result<ElfHeader, Error> {
    if !sought {
        Err(Error::SeekKernelStart)
    } else {
        match read {
            None => Err(Error::ReadKernelDataStruct("Failed to read ELF header")),
            Some(b) => {
                let h = ElfHeader::decode(bytes::padded(b, SIZEOF_EHDR as nat));
                match boot_protocol::boot_error(h, SIZEOF_EHDR) {
                    Some(e) => Err(e),
                    None => Ok(h),
                }
            },
        }
    }
}

/// The bytes that were read, if any could be.
pub open spec fn read_views(reads: Seq<Option<Vec<u8>>>) -> Seq<Option<Seq<u8>>> {
    Seq::new(
        reads.len(),
        |i: int|
            match reads[i] {
                Some(b) => Some(b@),
                None => None,
            },
    )
}

/// Whether `reads` are the reads of the program headers that `ehdr` announces: one each, or as many
/// as there were up to the first that failed.
pub open spec fn reads_of(reads: Seq<Option<Vec<u8>>>, ehdr: ElfHeader) -> bool {
    &&& reads.len() == ehdr.e_phnum || (0 < reads.len() < ehdr.e_phnum && reads.last() is None)
    &&& forall|i: int|
        0 <= i < reads.len() ==> ((#[trigger] reads[i]) matches Some(b) ==> b@.len() <= SIZEOF_PHDR)
}

/// The program headers of a kernel file, out of what could be read.
pub open spec fn program_headers_of(sought: bool, reads: Seq<Option<Seq<u8>>>) -> Result<
    Seq<ProgramHeader>,
    Error,
> {
    if !sought {
        Err(Error::SeekProgramHeader)
    } else if exists|i: int| 0 <= i < reads.len() && (#[trigger] reads[i]) is None {
        Err(Error::ReadKernelDataStruct("Failed to read ELF program header"))
    } else {
        Ok(
            Seq::new(
                reads.len(),
                |i: int| ProgramHeader::decode(bytes::padded(reads[i]->0, SIZEOF_PHDR as nat)),
            ),
        )
    }
}

impl FwCfg {
    /// The device for a kernel that is packed as `kernel_type`, which is still to be set up.
    pub fn new(kernel_type: KernelType) -> (device: FwCfg)
        ensures
            device@ == FwCfgView::fresh(kernel_type),
    {
        FwCfg {
            kernel_len: 0,
            kernel_type,
            ehdr: None,
            phdrs: None,
            cmd: None,
            cur_phdr: 0,
            seg_pos: 0,
            state: State::WriteKernelType,
        }
    }

    /// How the kernel is packed.
    pub fn kernel_type(&self) -> (t: KernelType)
        ensures
            t == self@.kernel_type,
    {
        self.kernel_type
    }

    /// Where the hashes of the kernel and of a ramdisk are to be put. If the guest is launched with
    /// SEV they are measured.
    pub fn add_kernel_hashes(&self, with_initrd: bool, sev: &mut Option<Sev>) -> (placement:
        HashPlacement)
        ensures
            placement == HashPlacement::placed(with_initrd),
            match (*old(sev), *final(sev)) {
                (Some(before), Some(after)) => after@ == (SevView {
                    measured_regions: before@.measured_regions.push(
                        MemoryRegion { start: placement.start(), len: placement.len },
                    ),
                    ..before@
                }),
                (None, None) => true,
                _ => false,
            },
    {
        let placement = HashPlacement::new(with_initrd);
        if let Some(sev) = sev {
            sev.add_measured_region(placement.first(), placement.len);
        }
        placement
    }

    /// What is read of the kernel file for `boot_header`.
    pub fn header_read() -> (reads: KernelReads)
        ensures
            reads == header_reads(),
            reads.position == 0,
            reads.count == 1,
            reads.len == SIZEOF_EHDR,
    {
        KernelReads { position: 0, count: 1, len: SIZEOF_EHDR }
    }

    /// What is read of the kernel file for `setup_direct_boot`.
    pub fn program_header_reads(ehdr: &ElfHeader) -> (reads: KernelReads)
        ensures
            reads == program_header_reads_of(*ehdr),
            reads.position == ehdr.e_phoff,
            reads.count == ehdr.e_phnum,
            reads.len == SIZEOF_PHDR,
    {
        KernelReads {
            position: ehdr.e_phoff,
            count: ehdr.e_phnum as usize,
            len: SIZEOF_PHDR,
        }
    }

    /// The ELF header, out of what could be read at the start of the kernel file: `sought` says
    /// whether the start was found, `read` what was read there, if anything could be.
    pub fn boot_header(sought: bool, read: Option<&[u8]>) -> (r: Result<ElfHeader, Error>)
        requires
            read matches Some(b) ==> b@.len() <= SIZEOF_EHDR,
        ensures
            r == boot_header_of(
                sought,
                match read {
                    Some(b) => Some(b@),
                    None => None,
                },
            ),
            r matches Ok(h) ==> h.encode() == bytes::padded(read->0@, SIZEOF_EHDR as nat),
    {
        if !sought {
            return Err(Error::SeekKernelStart);
        }
        match read {
            None => Err(Error::ReadKernelDataStruct("Failed to read ELF header")),
            Some(b) => {
                let padded: Vec<u8> = bytes::pad(b, SIZEOF_EHDR);
                let ehdr: ElfHeader = ElfHeader::from_bytes(padded.as_slice());
                // If the program header is backwards, bail.
                match boot_protocol::check_header(&ehdr, SIZEOF_EHDR) {
                    Some(e) => Err(e),
                    None => Ok(ehdr),
                }
            },
        }
    }

    /// Takes over what a direct boot needs out of the kernel file: the header, and the program
    /// headers out of what could be read from the place that the header gives on. `sought` says
    /// whether that place was found, `reads` what was read for each program header, up to the first
    /// that could not be read.
    pub fn setup_direct_boot(&mut self, ehdr: ElfHeader, sought: bool, reads: &[Option<Vec<u8>>]) -> (r:
        Result<(), Error>)
        requires
            boot_protocol::boot_error(ehdr, SIZEOF_EHDR) is None,
            reads_of(reads@, ehdr),
        ensures
            match program_headers_of(sought, read_views(reads@)) {
                Ok(phdrs) => r is Ok && final(self)@ == old(self)@.set_up(ehdr, phdrs),
                Err(e) => r == Err::<(), Error>(e) && final(self)@ == old(self)@,
            },
            r is Ok ==> forall|i: int|
                0 <= i < ehdr.e_phnum ==> (#[trigger] final(self)@.phdrs->0[i]).encode()
                    == bytes::padded(reads@[i]->0@, SIZEOF_PHDR as nat),
            old(self)@ == FwCfgView::fresh(KernelType::Direct) && r is Ok && ehdr.e_phnum > 0
                ==> final(self)@.inv(),
    {
        proof {
            headers_read_are_sound(ehdr, sought, reads@);
        }
        if !sought {
            return Err(Error::SeekProgramHeader);
        }
        let mut phdrs: Vec<ProgramHeader> = Vec::new();
        let mut i: usize = 0;
        let ghost views = read_views(reads@);
        while i < reads.len()
            invariant
                i <= reads@.len(),
                sought,
                views == read_views(reads@),
                self@ == old(self)@,
                forall|j: int|
                    0 <= j < reads@.len() ==> ((#[trigger] reads@[j]) matches Some(b) ==> b@.len()
                        <= SIZEOF_PHDR),
                forall|j: int| 0 <= j < i ==> (#[trigger] reads@[j]) is Some,
                phdrs@ == Seq::new(
                    i as nat,
                    |j: int| ProgramHeader::decode(bytes::padded(views[j]->0, SIZEOF_PHDR as nat)),
                ),
            decreases reads@.len() - i,
        {
            match &reads[i] {
                None => {
                    assert(0 <= i < views.len() && views[i as int] is None);
                    return Err(Error::ReadKernelDataStruct("Failed to read ELF program header"));
                },
                Some(b) => {
                    let padded: Vec<u8> = bytes::pad(b.as_slice(), SIZEOF_PHDR);
                    phdrs.push(ProgramHeader::from_bytes(padded.as_slice()));
                },
            }
            i += 1;
        }
        assert forall|j: int| 0 <= j < views.len() implies (#[trigger] views[j]) is Some by {
            assert(reads@[j] is Some);
        }
        self.ehdr = Some(ehdr);
        self.phdrs = Some(phdrs);
        assert(phdrs@ =~= program_headers_of(sought, views)->Ok_0);
        Ok(())
    }

    /// Takes over the length of a bzImage. `start` says whether the start of the kernel file was
    /// found, `end` where its end was found, `again` whether its start was found again.
    pub fn get_bzimage_size(&mut self, start: bool, end: Option<u64>, again: bool) -> (r: Result<
        (),
        Error,
    >)
        ensures
            match length_error(start, end, again) {
                Some(e) => r == Err::<(), Error>(e),
                None => r is Ok,
            },
            final(self)@ == old(self)@.with_length(start, end),
    {
        if !start {
            return Err(Error::SeekKernelStart);
        }
        match end {
            None => {
                return Err(Error::SeekKernelImage);
            },
            Some(end) => {
                self.kernel_len = end;
            },
        }
        if !again {
            return Err(Error::SeekKernelStart);
        }
        Ok(())
    }

    /// Sets up the device, step by step: what is to be done next.
    pub fn setup(&mut self, event: KernelEvent) -> (r: Result<KernelAction, Error>)
        requires
            can_be_told(event),
        ensures
            (final(self)@, r) == old(self)@.setup_step(event),
            old(self)@ == FwCfgView::fresh(old(self)@.kernel_type) && r == Ok::<KernelAction, Error>(
                KernelAction::Finished,
            ) && final(self)@.bootable() ==> final(self)@.inv(),
    {
        match event {
            KernelEvent::Begin => Ok(
                match self.kernel_type {
                    KernelType::Direct => KernelAction::ReadHeader(FwCfg::header_read()),
                    KernelType::BzImage => KernelAction::FindLength,
                },
            ),
            KernelEvent::HeaderRead { sought, read } => {
                let header = match &read {
                    Some(b) => FwCfg::boot_header(sought, Some(b.as_slice())),
                    None => FwCfg::boot_header(sought, None),
                };
                match header {
                    Ok(ehdr) => Ok(
                        KernelAction::ReadProgramHeaders {
                            ehdr,
                            reads: FwCfg::program_header_reads(&ehdr),
                        },
                    ),
                    Err(e) => Err(e),
                }
            },
            KernelEvent::ProgramHeadersRead { ehdr, sought, reads } => {
                proof {
                    headers_read_are_sound(ehdr, sought, reads@);
                }
                match self.setup_direct_boot(ehdr, sought, reads.as_slice()) {
                    Ok(()) => Ok(KernelAction::Finished),
                    Err(e) => Err(e),
                }
            },
            KernelEvent::LengthFound { start, end, again } => match self.get_bzimage_size(
                start,
                end,
                again,
            ) {
                Ok(()) => Ok(KernelAction::Finished),
                Err(e) => Err(e),
            },
        }
    }

    /// Whether a kernel can be handed out: a bzImage, or an ELF file with a program header at least.
    pub fn is_bootable(&self) -> (b: bool)
        ensures
            b == self@.bootable(),
            b == (self@.kernel_type == KernelType::BzImage || (self@.phdrs matches Some(p) && p.len()
                > 0)),
    {
        match self.kernel_type {
            KernelType::BzImage => true,
            KernelType::Direct => match &self.phdrs {
                Some(phdrs) => phdrs.len() > 0,
                None => false,
            },
        }
    }

    /// Serves the read of a program header.
    fn read_program_header(&mut self, phdr: ProgramHeader, count: usize) -> (written: GuestWrite)
        requires
            old(self)@.phdrs matches Some(p) && old(self)@.cur_phdr < p.len(),
            old(self)@.ehdr matches Some(h) && h.e_phnum == count,
            old(self)@.cur_phdr < usize::MAX,
            phdr == old(self)@.phdrs->0[old(self)@.cur_phdr as int],
            old(self)@.cmd == Some(Command::PhdrData),
            old(self)@.state == State::WritePhdrs,
        ensures
            ({
                let step = old(self)@.read_step(0, seq![0]);
                &&& final(self)@ == step.next
                &&& step.is_done_by(ReadAction::Write(written))
            }),
    {
        let output: Vec<u8> = phdr.to_bytes();
        self.cur_phdr = self.cur_phdr + 1;
        if self.cur_phdr == count {
            self.cur_phdr = 0;
            self.state = State::WriteSegs;
        }
        GuestWrite { address: GuestAddress(DATA_REGION_ADDR), bytes: output }
    }

    /// Serves the read of a segment.
    fn read_segment(&mut self) -> (action: ReadAction)
        requires
            old(self)@.phdrs is Some,
            old(self)@.cur_phdr < old(self)@.phdrs->0.len(),
            old(self)@.segment() < old(self)@.phdrs->0.len() ==> old(self)@.seg_pos <= old(
                self,
            )@.phdrs->0[old(self)@.segment() as int].p_filesz,
        ensures
            ({
                let step = old(self)@.segment_step(Seq::empty());
                &&& final(self)@ == step.next
                &&& step.is_done_by(action)
            }),
    {
        match &self.phdrs {
            None => ReadAction::Nothing,
            Some(phdrs) => {
                let count: usize = phdrs.len();
                self.cur_phdr = loaded_from(phdrs, self.cur_phdr);
                if self.cur_phdr >= count {
                    return ReadAction::Nothing;
                }
                let phdr: ProgramHeader = phdrs[self.cur_phdr];
                let bytes_left: u64 = phdr.p_filesz - self.seg_pos;
                let mut write_len: u64 = DATA_REGION_SIZE;
                if bytes_left < DATA_REGION_SIZE {
                    write_len = bytes_left;
                }
                let seek: Option<u64> = if self.seg_pos == 0 {
                    Some(phdr.p_offset)
                } else {
                    None
                };
                self.seg_pos = self.seg_pos + write_len;
                if self.seg_pos >= phdr.p_filesz {
                    self.cur_phdr = self.cur_phdr + 1;
                    self.seg_pos = 0;
                }
                ReadAction::Copy { seek, len: write_len, to: GuestAddress(DATA_REGION_ADDR) }
            },
        }
    }

    /// Serves a read of the guest: what is to be done for it.
    pub fn read(&mut self, offset: u64, data: &mut [u8]) -> (action: ReadAction)
        requires
            old(self)@.can_serve(offset, old(data)@.len()),
        ensures
            ({
                let step = old(self)@.read_step(offset, old(data)@);
                &&& final(self)@ == step.next
                &&& final(data)@ == step.data
                &&& step.is_done_by(action)
            }),
            old(self)@.inv() ==> final(self)@.inv(),
    {
        proof {
            read_keeps_inv(self@, offset, data@);
        }
        if offset != 0 || data.len() < 1 {
            return ReadAction::Nothing;
        }
        match self.cmd {
            Some(Command::KernelType) => {
                if self.state == State::WriteKernelType {
                    data[0] = self.kernel_type.value();
                    if self.kernel_type == KernelType::Direct {
                        self.state = State::WriteElfHdr;
                    } else {
                        self.state = State::WriteBzImageLen;
                    }
                }
                ReadAction::Nothing
            },
            Some(Command::ElfHdr) => {
                if self.state == State::WriteElfHdr {
                    match self.ehdr {
                        Some(ehdr) => {
                            let output: Vec<u8> = ehdr.to_bytes();
                            self.state = State::WritePhdrs;
                            ReadAction::Write(
                                GuestWrite {
                                    address: GuestAddress(DATA_REGION_ADDR),
                                    bytes: output,
                                },
                            )
                        },
                        None => ReadAction::Nothing,
                    }
                } else {
                    ReadAction::Nothing
                }
            },
            Some(Command::PhdrData) => {
                if self.state == State::WritePhdrs {
                    match (&self.phdrs, self.ehdr) {
                        (Some(phdrs), Some(ehdr)) => {
                            let _count: usize = phdrs.len();
                            let phdr: ProgramHeader = phdrs[self.cur_phdr];
                            ReadAction::Write(
                                self.read_program_header(phdr, ehdr.e_phnum as usize),
                            )
                        },
                        _ => ReadAction::Nothing,
                    }
                } else {
                    ReadAction::Nothing
                }
            },
            Some(Command::SegData) => {
                if self.state == State::WriteSegs && self.phdrs.is_some() {
                    self.read_segment()
                } else {
                    ReadAction::Nothing
                }
            },
            _ => ReadAction::Nothing,
        }
    }

    /// Whether the device can serve a read of `len` bytes at `offset`.
    pub fn can_read(&self, offset: u64, len: usize) -> (ok: bool)
        ensures
            ok == self@.can_serve(offset, len as nat),
    {
        if offset != 0 || len == 0 {
            return true;
        }
        match self.cmd {
            Some(Command::KernelType) => self.state != State::WriteKernelType || len == 1,
            Some(Command::ElfHdr) => self.state != State::WriteElfHdr || self.ehdr.is_some(),
            Some(Command::PhdrData) => self.state != State::WritePhdrs || match &self.phdrs {
                Some(phdrs) => self.cur_phdr < phdrs.len() && self.ehdr.is_some(),
                None => true,
            },
            Some(Command::SegData) => self.state != State::WriteSegs || match &self.phdrs {
                None => true,
                Some(phdrs) => {
                    let count: usize = phdrs.len();
                    if self.cur_phdr >= count {
                        return false;
                    }
                    let segment: usize = loaded_from(phdrs, self.cur_phdr);
                    segment >= count || self.seg_pos <= phdrs[segment].p_filesz
                },
            },
            _ => true,
        }
    }

    /// Takes a command of the guest. What is no command is passed over.
    pub fn write(&mut self, offset: u64, data: &[u8])
        requires
            offset == 0 ==> data@.len() <= 1,
        ensures
            final(self)@ == old(self)@.commanded(offset, data@),
            final(self)@ == (FwCfgView { cmd: final(self)@.cmd, ..old(self)@ }),
            if offset == 0 && data@.len() == 1 && data@[0] < 6 {
                final(self)@.cmd matches Some(c) && c.code() == data@[0]
            } else {
                final(self)@.cmd == old(self)@.cmd
            },
            old(self)@.inv() ==> final(self)@.inv(),
    {
        if offset != 0 || data.len() < 1 {
            return;
        }
        match Command::try_from(data[0]) {
            Ok(cmd) => {
                self.cmd = Some(cmd);
            },
            Err(_) => {},
        }
    }
}

/// A device that was set up for a direct boot, with at least one program header, keeps what is
/// promised of such a device, and its program headers are, byte for byte, what was read for them.
pub proof fn headers_read_are_sound(ehdr: ElfHeader, sought: bool, reads: Seq<Option<Vec<u8>>>)
    requires
        boot_protocol::boot_error(ehdr, SIZEOF_EHDR) is None,
        reads_of(reads, ehdr),
    ensures
        program_headers_of(sought, read_views(reads)) matches Ok(phdrs) ==> {
            &&& phdrs.len() == ehdr.e_phnum == reads.len()
            &&& phdrs.len() > 0 ==> FwCfgView::fresh(KernelType::Direct).set_up(ehdr, phdrs).inv()
            &&& forall|i: int|
                0 <= i < phdrs.len() ==> (#[trigger] phdrs[i]).encode() == bytes::padded(
                    reads[i]->0@,
                    SIZEOF_PHDR as nat,
                )
        },
{
    let views = read_views(reads);
    let found = program_headers_of(sought, views);
    if found is Ok {
        let phdrs = found->Ok_0;
        if reads.len() > 0 && reads.last() is None {
            assert(views[views.len() - 1] is None);
        }
        assert forall|i: int| 0 <= i < phdrs.len() implies (#[trigger] phdrs[i]).encode()
            == bytes::padded(reads[i]->0@, SIZEOF_PHDR as nat) by {
            assert(views[i] is Some);
            elf::program_header_encode_after_decode(
                bytes::padded(reads[i]->0@, SIZEOF_PHDR as nat),
            );
        }
    }
}

impl FwCfgView {
    /// The device after a write of `data` at `offset`: a byte at the start is a command, if it is
    /// the number of one.
    pub open spec fn commanded(self, offset: u64, data: Seq<u8>) -> FwCfgView {
        if offset == 0 && data.len() == 1 {
            match data[0] {
                0 => self.asked(Command::KernelType),
                1 => self.asked(Command::BzImageLen),
                2 => self.asked(Command::BzimageData),
                3 => self.asked(Command::ElfHdr),
                4 => self.asked(Command::PhdrData),
                5 => self.asked(Command::SegData),
                _ => self,
            }
        } else {
            self
        }
    }

    /// The device after it was given `cmd`.
    pub open spec fn asked(self, cmd: Command) -> FwCfgView {
        FwCfgView { cmd: Some(cmd), ..self }
    }

    /// The device after a read.
    #[verifier::opaque]
    pub open spec fn after_read(self, data: Seq<u8>) -> FwCfgView {
        self.read_step(0, data).next
    }

    /// What a read copies out of the kernel file `file`, and the position in the file after it. It
    /// was `pos` before it.
    #[verifier::opaque]
    pub open spec fn copy(self, data: Seq<u8>, file: Seq<u8>, pos: int) -> (Seq<u8>, int) {
        match self.read_step(0, data).served {
            Served::File { seek, len } => {
                let from = match seek {
                    Some(seek) => seek as int,
                    None => pos,
                };
                (file.subrange(from, from + len), from + len)
            },
            _ => (Seq::empty(), pos),
        }
    }

    /// The device after `n` reads.
    pub open spec fn after_reads(self, n: nat, data: Seq<u8>) -> FwCfgView
        decreases n,
    {
        if n == 0 {
            self
        } else {
            self.after_reads((n - 1) as nat, data).after_read(data)
        }
    }

    /// Everything that `n` reads copy out of the kernel file `file`, one after the other, and the
    /// position in the file after them. It was `pos` before them.
    pub open spec fn copied(self, n: nat, data: Seq<u8>, file: Seq<u8>, pos: int) -> (Seq<u8>, int)
        decreases n,
    {
        if n == 0 {
            (Seq::empty(), pos)
        } else {
            let before = self.copied((n - 1) as nat, data, file, pos);
            let last = self.after_reads((n - 1) as nat, data).copy(data, file, before.1);
            (before.0 + last.0, last.1)
        }
    }
}

/// The first thing that the firmware can ask a device for is the type of its kernel, and it is told
/// that type, whatever the device was set up with.
pub proof fn kernel_type_is_told_first(
    kernel_type: KernelType,
    kernel_len: u64,
    ehdr: Option<ElfHeader>,
    phdrs: Option<Seq<ProgramHeader>>,
    data: Seq<u8>,
)
    requires
        data.len() == 1,
    ensures
        ({
            let set_up = FwCfgView { kernel_len, ehdr, phdrs, ..FwCfgView::fresh(kernel_type) };
            let device = set_up.asked(Command::KernelType);
            let step = device.read_step(0, data);
            &&& device.can_serve(0, data.len())
            &&& step.data == match kernel_type {
                KernelType::Direct => seq![1u8],
                KernelType::BzImage => seq![0u8],
            }
            &&& step.served == Served::Nothing
            &&& step.next == (FwCfgView { state: step.next.state, ..device })
            &&& step.next.state == match kernel_type {
                KernelType::Direct => State::WriteElfHdr,
                KernelType::BzImage => State::WriteBzImageLen,
            }
        }),
{
}

/// The program headers of a device that was set up are those that stand in the kernel file `file`
/// one after the other from the place that the header gives on.
pub proof fn program_headers_stand_where_the_header_says(
    ehdr: ElfHeader,
    reads: Seq<Option<Seq<u8>>>,
    file: Seq<u8>,
)
    requires
        ({
            let place = program_header_reads_of(ehdr);
            &&& reads.len() == place.count
            &&& place.position + place.count * place.len <= file.len()
            &&& forall|i: int|
                0 <= i < reads.len() ==> (#[trigger] reads[i]) == Some(
                    file.subrange(place.position + i * 56, place.position + i * 56 + 56),
                )
        }),
    ensures
        program_headers_of(true, reads) == Ok::<Seq<ProgramHeader>, Error>(
            Seq::new(
                ehdr.e_phnum as nat,
                |i: int|
                    ProgramHeader::decode(
                        file.subrange(ehdr.e_phoff + i * 56, ehdr.e_phoff + i * 56 + 56),
                    ),
            ),
        ),
{
    let found = program_headers_of(true, reads);
    assert forall|i: int| 0 <= i < reads.len() implies bytes::padded(
        #[trigger] reads[i]->0,
        SIZEOF_PHDR as nat,
    ) == reads[i]->0 by {
        let b = reads[i]->0;
        assert(b.len() == 56);
        assert(bytes::padded(b, SIZEOF_PHDR as nat) =~= b);
    }
    assert(found is Ok);
    assert(found->Ok_0 =~= Seq::new(
        ehdr.e_phnum as nat,
        |i: int|
            ProgramHeader::decode(
                file.subrange(ehdr.e_phoff + i * 56, ehdr.e_phoff + i * 56 + 56),
            ),
    ));
}

/// Once it was told the type of the kernel, the firmware gets the ELF header of a direct boot and
/// then, one read each, all program headers in their order. Each of these reads can be served.
/// After the last one the segments have their turn, from the first on.
pub proof fn headers_are_handed_out_in_order(device: FwCfgView, data: Seq<u8>)
    requires
        device.inv(),
        device.kernel_type == KernelType::Direct,
        device.state == State::WriteKernelType,
        data.len() == 1,
    ensures
        ({
            let phdrs = device.phdrs->0;
            let start = device.asked(Command::KernelType);
            let first = start.read_step(0, data).next.asked(Command::ElfHdr);
            let then = first.read_step(0, data).next.asked(Command::PhdrData);
            &&& start.can_serve(0, data.len())
            &&& start.read_step(0, data).data == seq![KernelType::Direct.code()]
            &&& first.can_serve(0, data.len())
            &&& first.read_step(0, data).served == Served::Bytes(device.ehdr->0.encode())
            &&& forall|i: nat|
                i < phdrs.len() ==> (#[trigger] then.after_reads(i, data)).can_serve(0, data.len())
                    && then.after_reads(i, data).read_step(0, data).served == Served::Bytes(
                    phdrs[i as int].encode(),
                )
            &&& then.after_reads(phdrs.len(), data) == (FwCfgView {
                cur_phdr: 0,
                state: State::WriteSegs,
                ..then
            })
        }),
{
    let phdrs = device.phdrs->0;
    let first = device.asked(Command::KernelType).read_step(0, data).next.asked(Command::ElfHdr);
    let then = first.read_step(0, data).next.asked(Command::PhdrData);
    assert forall|i: nat| i < phdrs.len() implies (#[trigger] then.after_reads(i, data)).can_serve(
        0,
        data.len(),
    ) && then.after_reads(i, data).read_step(0, data).served == Served::Bytes(
        phdrs[i as int].encode(),
    ) by {
        program_header_reads(then, i, data);
    }
    program_header_reads(then, phdrs.len(), data);
}

/// What the firmware gets as ELF header and as program headers is, byte for byte, what stands in the
/// kernel file: the header at the start of the file, and each program header at its place from where
/// the header says on.
pub proof fn headers_are_those_of_the_file(
    file: Seq<u8>,
    reads: Seq<Option<Seq<u8>>>,
    data: Seq<u8>,
)
    requires
        file.len() >= SIZEOF_EHDR,
        boot_header_of(true, Some(file.subrange(0, 64))) is Ok,
        data.len() == 1,
        ({
            let place = program_header_reads_of(
                boot_header_of(true, Some(file.subrange(0, 64)))->Ok_0,
            );
            &&& place.count > 0
            &&& reads.len() == place.count
            &&& place.position + place.count * place.len <= file.len()
            &&& forall|i: int|
                0 <= i < reads.len() ==> (#[trigger] reads[i]) == Some(
                    file.subrange(place.position + i * 56, place.position + i * 56 + 56),
                )
        }),
    ensures
        ({
            let ehdr = boot_header_of(true, Some(file.subrange(0, 64)))->Ok_0;
            let phdrs = program_headers_of(true, reads)->Ok_0;
            let device = FwCfgView::fresh(KernelType::Direct).set_up(ehdr, phdrs);
            let first = device.asked(Command::KernelType).read_step(0, data).next.asked(
                Command::ElfHdr,
            );
            let then = first.read_step(0, data).next.asked(Command::PhdrData);
            &&& program_headers_of(true, reads) is Ok
            &&& device.inv()
            &&& first.read_step(0, data).served == Served::Bytes(file.subrange(0, 64))
            &&& forall|i: nat|
                i < ehdr.e_phnum ==> (#[trigger] then.after_reads(i, data)).read_step(
                    0,
                    data,
                ).served == Served::Bytes(
                    file.subrange(ehdr.e_phoff + 56 * i, ehdr.e_phoff + 56 * i + 56),
                )
        }),
{
    let start = file.subrange(0, 64);
    let ehdr = boot_header_of(true, Some(start))->Ok_0;
    assert(bytes::padded(start, SIZEOF_EHDR as nat) =~= start);
    elf::header_encode_after_decode(start);
    program_headers_stand_where_the_header_says(ehdr, reads, file);
    let phdrs = program_headers_of(true, reads)->Ok_0;
    let device = FwCfgView::fresh(KernelType::Direct).set_up(ehdr, phdrs);
    headers_are_handed_out_in_order(device, data);
    let first = device.asked(Command::KernelType).read_step(0, data).next.asked(Command::ElfHdr);
    let then = first.read_step(0, data).next.asked(Command::PhdrData);
    assert forall|i: nat| i < ehdr.e_phnum implies (#[trigger] then.after_reads(i, data)).read_step(
        0,
        data,
    ).served == Served::Bytes(file.subrange(ehdr.e_phoff + 56 * i, ehdr.e_phoff + 56 * i + 56)) by {
        let stands = file.subrange(ehdr.e_phoff + i * 56, ehdr.e_phoff + i * 56 + 56);
        elf::program_header_encode_after_decode(stands);
        assert(phdrs[i as int] == ProgramHeader::decode(stands));
    }
}

proof fn program_header_reads(device: FwCfgView, n: nat, data: Seq<u8>)
    requires
        device.ehdr is Some,
        device.phdrs matches Some(p) && 0 < p.len() && n <= p.len() && p.len()
            == device.ehdr->0.e_phnum,
        device.cmd == Some(Command::PhdrData),
        device.state == State::WritePhdrs,
        device.cur_phdr == 0,
        data.len() > 0,
    ensures
        device.after_reads(n, data) == if n < device.phdrs->0.len() {
            FwCfgView { cur_phdr: n, ..device }
        } else {
            FwCfgView { cur_phdr: 0, state: State::WriteSegs, ..device }
        },
    decreases n,
{
    reveal(FwCfgView::after_read);
    if n > 0 {
        program_header_reads(device, (n - 1) as nat, data);
    }
}

/// The number of reads that a segment of `len` bytes takes.
pub open spec fn chunks(len: u64) -> nat {
    ((len + DATA_REGION_SIZE - 1) / (DATA_REGION_SIZE as int)) as nat
}

/// Whether the next read of the device starts the segment of `phdr`, which is to be loaded and
/// stands in the kernel file `file`.
pub open spec fn starts_segment(
    device: FwCfgView,
    phdr: ProgramHeader,
    data: Seq<u8>,
    file: Seq<u8>,
) -> bool {
    &&& device.phdrs matches Some(p) && device.cur_phdr < p.len() && p[device.cur_phdr as int]
        == phdr
    &&& device.cmd == Some(Command::SegData)
    &&& device.state == State::WriteSegs
    &&& device.seg_pos == 0
    &&& data.len() > 0
    &&& phdr.p_filesz > 0
    &&& phdr.p_type == 1 || phdr.p_type == 2 || phdr.p_type == 7
    &&& phdr.p_offset + phdr.p_filesz <= file.len()
}

/// A segment that is to be loaded is handed out whole, byte for byte and in order, by as many reads
/// as chunks of the data region hold it, wherever the kernel file was left before. Each of these
/// reads can be served. After the last one the next program header has its turn.
#[verifier::spinoff_prover]
pub proof fn segment_is_handed_out_whole(
    device: FwCfgView,
    phdr: ProgramHeader,
    data: Seq<u8>,
    file: Seq<u8>,
    pos: int,
)
    requires
        starts_segment(device, phdr, data, file),
    ensures
        ({
            let n = chunks(phdr.p_filesz);
            &&& forall|i: nat|
                i < n ==> (#[trigger] device.after_reads(i, data)).can_serve(0, data.len())
            &&& device.copied(n, data, file, pos).0 == file.subrange(
                phdr.p_offset as int,
                phdr.p_offset + phdr.p_filesz,
            )
            &&& device.after_reads(n, data) == (FwCfgView {
                cur_phdr: device.cur_phdr + 1,
                ..device
            })
        }),
{
    let n = chunks(phdr.p_filesz);
    assert forall|i: nat| i < n implies (#[trigger] device.after_reads(i, data)).can_serve(
        0,
        data.len(),
    ) by {
        chunk_reads(device, phdr, i, data, file, pos);
    }
    let last = (n - 1) as nat;
    chunk_reads(device, phdr, last, data, file, pos);
    let before = device.after_reads(last, data);
    let start = phdr.p_offset as int;
    let at = start + last * 0x200000;
    last_chunk_read(before, data, file, device.copied(last, data, file, pos).1);
    assert(file.subrange(start, at) + file.subrange(at, start + phdr.p_filesz) =~= file.subrange(
        start,
        start + phdr.p_filesz,
    ));
}

/// The read that ends a segment.
proof fn last_chunk_read(device: FwCfgView, data: Seq<u8>, file: Seq<u8>, pos: int)
    requires
        device.phdrs matches Some(p) && device.cur_phdr < p.len(),
        device.cmd == Some(Command::SegData),
        device.state == State::WriteSegs,
        data.len() > 0,
        ({
            let phdr = device.phdrs->0[device.cur_phdr as int];
            &&& is_loaded(phdr)
            &&& device.seg_pos <= phdr.p_filesz <= device.seg_pos + 0x200000
            &&& device.seg_pos > 0 ==> pos == phdr.p_offset + device.seg_pos
        }),
    ensures
        ({
            let phdr = device.phdrs->0[device.cur_phdr as int];
            &&& device.after_read(data) == (FwCfgView {
                cur_phdr: device.cur_phdr + 1,
                seg_pos: 0,
                ..device
            })
            &&& device.copy(data, file, pos).0 == file.subrange(
                phdr.p_offset + device.seg_pos,
                phdr.p_offset + phdr.p_filesz,
            )
        }),
{
    reveal(FwCfgView::after_read);
    reveal(FwCfgView::copy);
    assert(device.read_step(0, data) == device.segment_step(data));
}

proof fn chunk_reads(
    device: FwCfgView,
    phdr: ProgramHeader,
    n: nat,
    data: Seq<u8>,
    file: Seq<u8>,
    pos: int,
)
    requires
        starts_segment(device, phdr, data, file),
        n < chunks(phdr.p_filesz),
    ensures
        device.after_reads(n, data) == (FwCfgView { seg_pos: n * 0x200000, ..device }),
        ({
            let start = phdr.p_offset as int;
            let (bytes, at) = device.copied(n, data, file, pos);
            &&& bytes == file.subrange(start, start + n * 0x200000)
            &&& n > 0 ==> at == start + n * 0x200000
        }),
    decreases n,
{
    if n > 0 {
        let m = (n - 1) as nat;
        chunk_reads(device, phdr, m, data, file, pos);
        let before = device.after_reads(m, data);
        let start = phdr.p_offset as int;
        let at = start + m * 0x200000;
        full_chunk_read(before, data, file, device.copied(m, data, file, pos).1);
        assert(file.subrange(start, at) + file.subrange(at, at + 0x200000) =~= file.subrange(
            start,
            start + n * 0x200000,
        ));
    }
}

/// A read that does not end a segment.
proof fn full_chunk_read(device: FwCfgView, data: Seq<u8>, file: Seq<u8>, pos: int)
    requires
        device.phdrs matches Some(p) && device.cur_phdr < p.len(),
        device.cmd == Some(Command::SegData),
        device.state == State::WriteSegs,
        data.len() > 0,
        ({
            let phdr = device.phdrs->0[device.cur_phdr as int];
            &&& is_loaded(phdr)
            &&& device.seg_pos + 0x200000 < phdr.p_filesz
            &&& device.seg_pos > 0 ==> pos == phdr.p_offset + device.seg_pos
        }),
    ensures
        ({
            let at = device.phdrs->0[device.cur_phdr as int].p_offset + device.seg_pos;
            &&& device.after_read(data) == (FwCfgView {
                seg_pos: device.seg_pos + 0x200000,
                ..device
            })
            &&& device.copy(data, file, pos) == (file.subrange(at, at + 0x200000), at + 0x200000)
        }),
{
    reveal(FwCfgView::after_read);
    reveal(FwCfgView::copy);
    assert(device.read_step(0, data) == device.segment_step(data));
}

/// `next_loaded` finds the first program header that has something to load, and no bytes and no
/// reads belong to those that it passes over.
proof fn passed_over(phdrs: Seq<ProgramHeader>, i: nat, file: Seq<u8>)
    ensures
        ({
            let next = next_loaded(phdrs, i);
            &&& next <= phdrs.len()
            &&& next >= i || next == phdrs.len()
            &&& next < phdrs.len() ==> is_loaded(phdrs[next as int])
            &&& forall|j: int| i <= j < next ==> !is_loaded(#[trigger] phdrs[j])
            &&& next_loaded(phdrs, next) == next
            &&& loading_reads(phdrs, i) == loading_reads(phdrs, next)
            &&& loaded_bytes(phdrs, i, file) == loaded_bytes(phdrs, next, file)
        }),
    decreases phdrs.len() - i,
{
    if i < phdrs.len() && !is_loaded(phdrs[i as int]) {
        passed_over(phdrs, i + 1, file);
    }
}

/// Program headers that have nothing to load are passed over, however many there are in a row: the
/// reads copy the segment of the first that has something to load as if it had been the current
/// one.
pub proof fn empty_segments_are_passed_over(
    device: FwCfgView,
    n: nat,
    data: Seq<u8>,
    file: Seq<u8>,
    pos: int,
)
    requires
        device.phdrs matches Some(p) && device.segment() < p.len(),
        device.cmd == Some(Command::SegData),
        device.state == State::WriteSegs,
        data.len() > 0,
        n > 0,
    ensures
        ({
            let follower = FwCfgView { cur_phdr: device.segment(), ..device };
            &&& is_loaded(device.phdrs->0[device.segment() as int])
            &&& device.can_serve(0, data.len()) == follower.can_serve(0, data.len())
            &&& device.copied(n, data, file, pos) == follower.copied(n, data, file, pos)
            &&& device.after_reads(n, data) == follower.after_reads(n, data)
        }),
    decreases n,
{
    let follower = FwCfgView { cur_phdr: device.segment(), ..device };
    passed_over(device.phdrs->0, device.cur_phdr, file);
    if n > 1 {
        empty_segments_are_passed_over(device, (n - 1) as nat, data, file, pos);
    } else {
        assert(device.after_reads(0, data) == device);
        assert(follower.after_reads(0, data) == follower);
        same_read(device, data, file, pos);
        assert(device.copied(0, data, file, pos) == follower.copied(0, data, file, pos));
    }
}

proof fn same_read(device: FwCfgView, data: Seq<u8>, file: Seq<u8>, pos: int)
    requires
        device.phdrs matches Some(p) && device.segment() < p.len(),
        device.cmd == Some(Command::SegData),
        device.state == State::WriteSegs,
        data.len() > 0,
    ensures
        ({
            let follower = FwCfgView { cur_phdr: device.segment(), ..device };
            &&& device.can_serve(0, data.len()) == follower.can_serve(0, data.len())
            &&& device.copy(data, file, pos) == follower.copy(data, file, pos)
            &&& device.after_read(data) == follower.after_read(data)
        }),
{
    let follower = FwCfgView { cur_phdr: device.segment(), ..device };
    passed_over(device.phdrs->0, device.cur_phdr, file);
    reveal(FwCfgView::after_read);
    reveal(FwCfgView::copy);
    assert(device.read_step(0, data) == device.segment_step(data));
    assert(follower.read_step(0, data) == follower.segment_step(data));
}

/// A read of segment data copies nothing but bytes of a segment that is to be loaded, one whose turn
/// has not passed: what is left of it, as far as the data region has room.
pub proof fn only_loadable_data_is_handed_out(device: FwCfgView, data: Seq<u8>)
    requires
        device.phdrs is Some,
        device.cmd == Some(Command::SegData),
        device.state == State::WriteSegs,
        data.len() > 0,
        device.can_serve(0, data.len()),
    ensures
        device.read_step(0, data).served matches Served::File { seek, len } ==> {
            let phdrs = device.phdrs->0;
            let i = device.segment();
            &&& device.cur_phdr <= i < phdrs.len()
            &&& is_loaded(phdrs[i as int])
            &&& device.seg_pos + len <= phdrs[i as int].p_filesz
            &&& seek matches Some(at) ==> at == phdrs[i as int].p_offset && device.seg_pos == 0
        },
{
    passed_over(device.phdrs->0, device.cur_phdr, Seq::empty());
    assert(device.read_step(0, data) == device.segment_step(data));
}

/// The bytes of the segments that are to be loaded, from the one of the program header `i` on, one
/// after the other.
pub open spec fn loaded_bytes(phdrs: Seq<ProgramHeader>, i: nat, file: Seq<u8>) -> Seq<u8>
    decreases phdrs.len() - i,
{
    if i >= phdrs.len() {
        Seq::empty()
    } else if phdrs[i as int].p_filesz > 0 && (phdrs[i as int].p_type == 1 || phdrs[i as int].p_type
        == 2 || phdrs[i as int].p_type == 7) {
        let phdr = phdrs[i as int];
        file.subrange(phdr.p_offset as int, phdr.p_offset + phdr.p_filesz) + loaded_bytes(
            phdrs,
            i + 1,
            file,
        )
    } else {
        loaded_bytes(phdrs, i + 1, file)
    }
}

/// The number of reads that the segments take that are to be loaded, from the one of the program
/// header `i` on.
pub open spec fn loading_reads(phdrs: Seq<ProgramHeader>, i: nat) -> nat
    decreases phdrs.len() - i,
{
    if i >= phdrs.len() {
        0
    } else if phdrs[i as int].p_filesz > 0 && (phdrs[i as int].p_type == 1 || phdrs[i as int].p_type
        == 2 || phdrs[i as int].p_type == 7) {
        chunks(phdrs[i as int].p_filesz) + loading_reads(phdrs, i + 1)
    } else {
        loading_reads(phdrs, i + 1)
    }
}

/// Whether the segments that are to be loaded, from the one of the program header `i` on, stand in
/// the kernel file.
pub open spec fn loadable_from(phdrs: Seq<ProgramHeader>, i: nat, file: Seq<u8>) -> bool {
    forall|j: int|
        i <= j < phdrs.len() && (#[trigger] phdrs[j]).p_filesz > 0 && (phdrs[j].p_type == 1
            || phdrs[j].p_type == 2 || phdrs[j].p_type == 7) ==> phdrs[j].p_offset
            + phdrs[j].p_filesz <= file.len()
}

/// The firmware gets the kernel whole: the reads of segments copy every segment that is to be
/// loaded, in the order of the program headers, byte for byte, and nothing else, wherever the
/// kernel file was left before, and each of these reads can be served.
pub proof fn kernel_is_handed_out_whole(device: FwCfgView, data: Seq<u8>, file: Seq<u8>, pos: int)
    requires
        device.phdrs is Some,
        device.cmd == Some(Command::SegData),
        device.state == State::WriteSegs,
        device.seg_pos == 0,
        data.len() > 0,
        loadable_from(device.phdrs->0, device.cur_phdr, file),
    ensures
        ({
            let phdrs = device.phdrs->0;
            let n = loading_reads(phdrs, device.cur_phdr);
            &&& forall|i: nat|
                i < n ==> (#[trigger] device.after_reads(i, data)).can_serve(0, data.len())
            &&& device.copied(n, data, file, pos).0 == loaded_bytes(phdrs, device.cur_phdr, file)
        }),
    decreases device.phdrs->0.len() - device.cur_phdr,
{
    let phdrs = device.phdrs->0;
    let segment = device.segment();
    passed_over(phdrs, device.cur_phdr, file);
    if segment < phdrs.len() {
        let phdr = phdrs[segment as int];
        let follower = FwCfgView { cur_phdr: segment, ..device };
        let next = FwCfgView { cur_phdr: segment + 1, ..device };
        let first = chunks(phdr.p_filesz);
        let rest = loading_reads(phdrs, segment + 1);
        assert(first > 0);
        let left = follower.copied(first, data, file, pos).1;
        kernel_is_handed_out_whole(next, data, file, left);
        segment_is_handed_out_whole(follower, phdr, data, file, pos);
        copies_add_up(follower, first, rest, data, file, pos);
        empty_segments_are_passed_over(device, first + rest, data, file, pos);
        assert forall|i: nat| i < first + rest implies (#[trigger] device.after_reads(
            i,
            data,
        )).can_serve(0, data.len()) by {
            if i > 0 {
                empty_segments_are_passed_over(device, i, data, file, pos);
            }
            assert(follower.after_reads(0, data) == follower);
            if i >= first {
                let j = (i - first) as nat;
                states_add_up(follower, first, j, data);
                assert(next.after_reads(j, data).can_serve(0, data.len()));
            } else {
                assert(follower.after_reads(i, data).can_serve(0, data.len()));
            }
        }
    }
}

/// Reads that follow each other leave the device as they do together.
proof fn states_add_up(device: FwCfgView, m: nat, n: nat, data: Seq<u8>)
    ensures
        device.after_reads(m + n, data) == device.after_reads(m, data).after_reads(n, data),
    decreases n,
{
    if n > 0 {
        states_add_up(device, m, (n - 1) as nat, data);
    }
}

/// Reads that follow each other copy what they copy together.
proof fn copies_add_up(
    device: FwCfgView,
    m: nat,
    n: nat,
    data: Seq<u8>,
    file: Seq<u8>,
    pos: int,
)
    ensures
        device.after_reads(m + n, data) == device.after_reads(m, data).after_reads(n, data),
        ({
            let first = device.copied(m, data, file, pos);
            let then = device.after_reads(m, data).copied(n, data, file, first.1);
            device.copied(m + n, data, file, pos) == (first.0 + then.0, then.1)
        }),
    decreases n,
{
    states_add_up(device, m, n, data);
    let after = device.after_reads(m, data);
    let first = device.copied(m, data, file, pos);
    if n > 0 {
        let k = (n - 1) as nat;
        copies_add_up(device, m, k, data, file, pos);
        let part = after.copied(k, data, file, first.1);
        let last = device.after_reads(m + k, data).copy(data, file, part.1);
        assert(device.copied(m + n, data, file, pos) == (first.0 + part.0 + last.0, last.1));
        assert(after.copied(n, data, file, first.1) == (part.0 + last.0, last.1));
        assert(first.0 + part.0 + last.0 =~= first.0 + (part.0 + last.0));
    } else {
        assert(first.0 + after.copied(0, data, file, first.1).0 =~= first.0);
    }
}

/// What a read puts in the data region always fits in it.
pub proof fn reads_stay_in_the_data_region(device: FwCfgView, offset: u64, data: Seq<u8>)
    requires
        device.can_serve(offset, data.len()),
    ensures
        match device.read_step(offset, data).served {
            Served::Nothing => true,
            Served::Bytes(b) => b.len() <= DATA_REGION_SIZE,
            Served::File { len, .. } => len <= DATA_REGION_SIZE,
        },
{
    if device.ehdr is Some {
        elf::header_encoding_len(device.ehdr->0);
    }
    if device.phdrs is Some {
        elf::program_header_encoding_len(device.phdrs->0[device.cur_phdr as int]);
    }
}

/// The firmware knows the commands by these numbers.
pub proof fn commands_have_numbers(cmd: Command)
    ensures
        cmd.code() == 0 <==> cmd == Command::KernelType,
        cmd.code() == 1 <==> cmd == Command::BzImageLen,
        cmd.code() == 2 <==> cmd == Command::BzimageData,
        cmd.code() == 3 <==> cmd == Command::ElfHdr,
        cmd.code() == 4 <==> cmd == Command::PhdrData,
        cmd.code() == 5 <==> cmd == Command::SegData,
{
}

/// What a read is served with is put in the data region, at 14 MiB, and nowhere else.
pub proof fn reads_are_served_in_the_data_region(step: ReadStep, action: ReadAction)
    requires
        step.is_done_by(action),
    ensures
        match action {
            ReadAction::Nothing => step.served == Served::Nothing,
            ReadAction::Write(w) => w.address.0 == 0xe00000 && step.served == Served::Bytes(
                w.bytes@,
            ),
            ReadAction::Copy { seek, len, to } => to.0 == 0xe00000 && step.served == (Served::File {
                seek,
                len: len as nat,
            }),
        },
{
}

/// A read out of its turn is always allowed, hands out nothing and changes nothing: one at another
/// place, one of no bytes, and one after another command than the one whose turn it is.
pub proof fn reads_out_of_turn_change_nothing(device: FwCfgView, offset: u64, data: Seq<u8>)
    requires
        ({
            ||| offset != 0
            ||| data.len() == 0
            ||| device.cmd is None
            ||| device.cmd == Some(Command::BzImageLen)
            ||| device.cmd == Some(Command::BzimageData)
            ||| device.cmd == Some(Command::KernelType) && device.state != State::WriteKernelType
            ||| device.cmd == Some(Command::ElfHdr) && device.state != State::WriteElfHdr
            ||| device.cmd == Some(Command::PhdrData) && device.state != State::WritePhdrs
            ||| device.cmd == Some(Command::SegData) && device.state != State::WriteSegs
        }),
    ensures
        device.can_serve(offset, data.len()),
        device.read_step(offset, data) == (ReadStep {
            next: device,
            data,
            served: Served::Nothing,
        }),
{
}

/// A segment that is to be loaded, is needed for dynamic linking or holds thread-local storage, and
/// that has bytes in the kernel file, is handed out whole when its turn has come, whatever its
/// permissions, addresses and alignment are: the reads that follow copy exactly its bytes, in chunks
/// of 2 MiB and a last one with the rest, wherever the kernel file was left before. Each of these
/// reads can be served. The next program header has its turn then.
pub proof fn loadable_segment_is_handed_out_whole(
    device: FwCfgView,
    data: Seq<u8>,
    file: Seq<u8>,
    pos: int,
)
    requires
        device.phdrs matches Some(p) && device.cur_phdr < p.len(),
        device.cmd == Some(Command::SegData),
        device.state == State::WriteSegs,
        device.seg_pos == 0,
        data.len() > 0,
        ({
            let phdr = device.phdrs->0[device.cur_phdr as int];
            &&& phdr.p_filesz > 0
            &&& phdr.p_type == 1 || phdr.p_type == 2 || phdr.p_type == 7
            &&& phdr.p_offset + phdr.p_filesz <= file.len()
        }),
    ensures
        ({
            let phdr = device.phdrs->0[device.cur_phdr as int];
            let n = ((phdr.p_filesz + 0x1fffff) / 0x200000) as nat;
            let start = phdr.p_offset as int;
            &&& n > 0
            &&& forall|i: nat|
                i < n ==> (#[trigger] device.after_reads(i, data)).can_serve(0, data.len())
            &&& device.copied(n, data, file, pos).0 == file.subrange(start, start + phdr.p_filesz)
            &&& device.after_reads(n, data) == (FwCfgView {
                cur_phdr: device.cur_phdr + 1,
                ..device
            })
        }),
{
    let phdr = device.phdrs->0[device.cur_phdr as int];
    segment_is_handed_out_whole(device, phdr, data, file, pos);
}

/// A program header of another type, or of a segment without bytes in the kernel file, is passed
/// over: a read does what it does when the next program header has its turn, and hands out nothing
/// where there is no next one.
pub proof fn other_program_headers_are_passed_over(device: FwCfgView, data: Seq<u8>)
    requires
        device.phdrs matches Some(p) && device.cur_phdr < p.len(),
        device.cmd == Some(Command::SegData),
        device.state == State::WriteSegs,
        data.len() > 0,
        ({
            let phdr = device.phdrs->0[device.cur_phdr as int];
            phdr.p_filesz == 0 || (phdr.p_type != 1 && phdr.p_type != 2 && phdr.p_type != 7)
        }),
    ensures
        ({
            let next = FwCfgView { cur_phdr: device.cur_phdr + 1, ..device };
            if next.cur_phdr < device.phdrs->0.len() {
                &&& device.can_serve(0, data.len()) == next.can_serve(0, data.len())
                &&& device.read_step(0, data) == next.read_step(0, data)
            } else {
                &&& device.can_serve(0, data.len())
                &&& device.read_step(0, data) == (ReadStep { next, data, served: Served::Nothing })
            }
        }),
{
    let next = FwCfgView { cur_phdr: device.cur_phdr + 1, ..device };
    assert(device.segment() == next.segment());
    assert(device.read_step(0, data) == device.segment_step(data));
    assert(next.read_step(0, data) == next.segment_step(data));
}

/// One read after the other does the same to two devices if the first of them does.
proof fn same_reads(a: FwCfgView, b: FwCfgView, n: nat, data: Seq<u8>, file: Seq<u8>, pos: int)
    requires
        a.read_step(0, data) == b.read_step(0, data),
        n > 0,
    ensures
        a.after_reads(n, data) == b.after_reads(n, data),
        a.copied(n, data, file, pos) == b.copied(n, data, file, pos),
    decreases n,
{
    reveal(FwCfgView::after_read);
    reveal(FwCfgView::copy);
    if n > 1 {
        same_reads(a, b, (n - 1) as nat, data, file, pos);
    } else {
        assert(a.after_reads(0, data) == a);
        assert(b.after_reads(0, data) == b);
        assert(a.copied(0, data, file, pos) == b.copied(0, data, file, pos));
    }
}

/// No segment that is to be handed out is left out: for each of them, from the current program header
/// on, there is a number of reads after which the reads that follow copy exactly its bytes.
pub proof fn every_loadable_segment_is_handed_out(
    device: FwCfgView,
    j: int,
    data: Seq<u8>,
    file: Seq<u8>,
    pos: int,
)
    requires
        device.phdrs is Some,
        device.cmd == Some(Command::SegData),
        device.state == State::WriteSegs,
        device.seg_pos == 0,
        data.len() > 0,
        device.cur_phdr <= j < device.phdrs->0.len(),
        forall|i: int|
            0 <= i < device.phdrs->0.len() ==> (#[trigger] device.phdrs->0[i]).p_offset
                + device.phdrs->0[i].p_filesz <= file.len(),
        ({
            let phdr = device.phdrs->0[j];
            &&& phdr.p_filesz > 0
            &&& phdr.p_type == 1 || phdr.p_type == 2 || phdr.p_type == 7
        }),
    ensures
        exists|n: nat|
            {
                let phdr = device.phdrs->0[j];
                let reads = ((phdr.p_filesz + 0x1fffff) / 0x200000) as nat;
                let start = phdr.p_offset as int;
                (#[trigger] device.after_reads(n, data)).copied(reads, data, file, pos).0
                    == file.subrange(start, start + phdr.p_filesz)
            },
    decreases j - device.cur_phdr,
{
    let phdrs = device.phdrs->0;
    let phdr = phdrs[j];
    let reads = ((phdr.p_filesz + 0x1fffff) / 0x200000) as nat;
    let bytes = file.subrange(phdr.p_offset as int, phdr.p_offset + phdr.p_filesz);
    let cur = phdrs[device.cur_phdr as int];
    if device.cur_phdr == j {
        loadable_segment_is_handed_out_whole(device, data, file, pos);
        assert(device.after_reads(0, data) == device);
    } else {
        let next = FwCfgView { cur_phdr: device.cur_phdr + 1, ..device };
        every_loadable_segment_is_handed_out(next, j, data, file, pos);
        let m = choose|m: nat|
            (#[trigger] next.after_reads(m, data)).copied(reads, data, file, pos).0 == bytes;
        if cur.p_filesz > 0 && (cur.p_type == 1 || cur.p_type == 2 || cur.p_type == 7) {
            let first = ((cur.p_filesz + 0x1fffff) / 0x200000) as nat;
            loadable_segment_is_handed_out_whole(device, data, file, pos);
            states_add_up(device, first, m, data);
            assert(device.after_reads(first + m, data).copied(reads, data, file, pos).0 == bytes);
        } else {
            other_program_headers_are_passed_over(device, data);
            if m > 0 {
                same_reads(device, next, m, data, file, pos);
                assert(device.after_reads(m, data).copied(reads, data, file, pos).0 == bytes);
            } else {
                assert(reads > 0);
                same_reads(device, next, reads, data, file, pos);
                assert(device.after_reads(0, data) == device);
                assert(next.after_reads(0, data) == next);
                assert(device.after_reads(0, data).copied(reads, data, file, pos).0 == bytes);
            }
        }
    }
}

/// Nothing but bytes of segments is handed out: what a read copies belongs to a segment of one of the
/// three types whose turn has not passed, no more of it than is left and than 2 MiB. The first chunk
/// is sought where the segment starts, and no other is sought.
pub proof fn only_bytes_of_segments_are_handed_out(device: FwCfgView, data: Seq<u8>)
    requires
        device.phdrs is Some,
        device.cmd == Some(Command::SegData),
        device.state == State::WriteSegs,
        data.len() > 0,
        device.can_serve(0, data.len()),
    ensures
        device.read_step(0, data).served !is Bytes,
        device.read_step(0, data).served matches Served::File { seek, len } ==> exists|i: int|
            {
                &&& device.cur_phdr <= i < device.phdrs->0.len()
                &&& (#[trigger] device.phdrs->0[i]).p_filesz > 0
                &&& device.phdrs->0[i].p_type == 1 || device.phdrs->0[i].p_type == 2
                    || device.phdrs->0[i].p_type == 7
                &&& device.seg_pos + len <= device.phdrs->0[i].p_filesz
                &&& len <= 0x200000
                &&& device.seg_pos == 0 ==> seek == Some(device.phdrs->0[i].p_offset)
                &&& device.seg_pos > 0 ==> seek is None
            },
{
    only_loadable_data_is_handed_out(device, data);
    passed_over(device.phdrs->0, device.cur_phdr, Seq::empty());
    assert(device.read_step(0, data) == device.segment_step(data));
    if device.segment() < device.phdrs->0.len() {
        assert(device.phdrs->0[device.segment() as int].p_filesz > 0);
    }
}

/// A kernel file is booted directly exactly if the 64 bytes at its start, zeros taken for what is
/// missing of them, are the header of a little-endian ELF file whose program headers have 56 bytes and
/// do not stand in the header itself.
pub proof fn header_is_accepted_by_its_bytes(read: Seq<u8>)
    requires
        read.len() <= 64,
    ensures
        ({
            let b = bytes::padded(read, 64);
            let magic = b[0] == 0x7f && b[1] == 0x45 && b[2] == 0x4c && b[3] == 0x46;
            let r = boot_header_of(true, Some(read));
            &&& r is Ok <==> magic && b[5] == 1 && bytes::de16(b, 54) == 56 && bytes::de64(b, 32)
                >= 64
            &&& r matches Ok(h) ==> h.encode() == b
            &&& r == Err::<ElfHeader, Error>(Error::InvalidElfMagicNumber) <==> !magic
            &&& r == Err::<ElfHeader, Error>(Error::BigEndianElfOnLittle) <==> magic && b[5] != 1
            &&& r == Err::<ElfHeader, Error>(Error::InvalidProgramHeaderSize) <==> magic && b[5] == 1
                && bytes::de16(b, 54) != 56
            &&& r == Err::<ElfHeader, Error>(Error::InvalidProgramHeaderOffset) <==> magic && b[5]
                == 1 && bytes::de16(b, 54) == 56 && bytes::de64(b, 32) < 64
            &&& boot_header_of(false, Some(read)) == Err::<ElfHeader, Error>(Error::SeekKernelStart)
            &&& boot_header_of(false, None) == Err::<ElfHeader, Error>(Error::SeekKernelStart)
            &&& boot_header_of(true, None) == Err::<ElfHeader, Error>(
                Error::ReadKernelDataStruct("Failed to read ELF header"),
            )
        }),
{
    let b = bytes::padded(read, 64);
    let h = ElfHeader::decode(b);
    bytes::padding_adds_zeros_behind(read, 64);
    elf::header_is_read_field_by_field(b);
    elf::header_encode_after_decode(b);
    assert(h.e_ident@[0] == b[0] && h.e_ident@[1] == b[1] && h.e_ident@[2] == b[2] && h.e_ident@[3]
        == b[3] && h.e_ident@[5] == b[5]);
    boot_protocol::kernel_is_booted_unless_its_header_forbids_it(h, 64);
}

/// The program headers of a kernel file are found if their place is and all of them can be read. Each
/// has in its fields the numbers that stand at their places in what was read for it, zeros taken for
/// what is missing.
pub proof fn program_headers_are_found_by_their_bytes(reads: Seq<Option<Seq<u8>>>, i: int)
    requires
        0 <= i < reads.len(),
        reads[i] matches Some(b) ==> b.len() <= 56,
    ensures
        program_headers_of(false, reads) == Err::<Seq<ProgramHeader>, Error>(
            Error::SeekProgramHeader,
        ),
        reads[i] is None ==> program_headers_of(true, reads) == Err::<Seq<ProgramHeader>, Error>(
            Error::ReadKernelDataStruct("Failed to read ELF program header"),
        ),
        (forall|j: int| 0 <= j < reads.len() ==> (#[trigger] reads[j]) is Some)
            ==> program_headers_of(true, reads) is Ok,
        program_headers_of(true, reads) matches Ok(phdrs) ==> {
            let b = bytes::padded(reads[i]->0, 56);
            &&& phdrs.len() == reads.len()
            &&& phdrs[i].p_type == bytes::de32(b, 0)
            &&& phdrs[i].p_flags == bytes::de32(b, 4)
            &&& phdrs[i].p_offset == bytes::de64(b, 8)
            &&& phdrs[i].p_vaddr == bytes::de64(b, 16)
            &&& phdrs[i].p_paddr == bytes::de64(b, 24)
            &&& phdrs[i].p_filesz == bytes::de64(b, 32)
            &&& phdrs[i].p_memsz == bytes::de64(b, 40)
            &&& phdrs[i].p_align == bytes::de64(b, 48)
        },
{
    if reads[i] is Some {
        let b = bytes::padded(reads[i]->0, 56);
        bytes::padding_adds_zeros_behind(reads[i]->0, 56);
        elf::program_header_is_read_field_by_field(b);
    }
}

/// The set-up of a direct boot first reads 64 bytes at the start of the kernel file, and then as many
/// program headers of 56 bytes as the header says, from where it says on. It is finished when they
/// are read, and nothing else of the device has changed. A refusal changes nothing.
pub proof fn direct_boot_is_set_up_step_by_step(
    device: FwCfgView,
    sought: bool,
    read: Option<Vec<u8>>,
    ehdr: ElfHeader,
    reads: Vec<Option<Vec<u8>>>,
)
    requires
        device.kernel_type == KernelType::Direct,
    ensures
        device.setup_step(KernelEvent::Begin) == (
            device,
            Ok::<KernelAction, Error>(
                KernelAction::ReadHeader(KernelReads { position: 0, count: 1, len: 64 }),
            ),
        ),
        ({
            let (next, r) = device.setup_step(KernelEvent::HeaderRead { sought, read });
            let header = boot_header_of(
                sought,
                match read {
                    Some(b) => Some(b@),
                    None => None,
                },
            );
            &&& next == device
            &&& header matches Err(e) ==> r == Err::<KernelAction, Error>(e)
            &&& header matches Ok(h) ==> (r matches Ok(KernelAction::ReadProgramHeaders {
                ehdr: found,
                reads: place,
            }) && found == h && place.position == h.e_phoff && place.count == h.e_phnum && place.len
                == 56)
        }),
        ({
            let (next, r) = device.setup_step(
                KernelEvent::ProgramHeadersRead { ehdr, sought, reads },
            );
            match program_headers_of(sought, read_views(reads@)) {
                Ok(phdrs) => r == Ok::<KernelAction, Error>(KernelAction::Finished) && next == (
                FwCfgView { ehdr: Some(ehdr), phdrs: Some(phdrs), ..device }),
                Err(e) => r == Err::<KernelAction, Error>(e) && next == device,
            }
        }),
{
}

/// The set-up of a bzImage finds the length of the kernel file, which is where its end is, and leaves
/// the file at its start. It is finished then, and nothing else of the device has changed.
pub proof fn bzimage_is_set_up_by_its_length(
    device: FwCfgView,
    start: bool,
    end: Option<u64>,
    again: bool,
)
    requires
        device.kernel_type == KernelType::BzImage,
    ensures
        device.setup_step(KernelEvent::Begin) == (
            device,
            Ok::<KernelAction, Error>(KernelAction::FindLength),
        ),
        ({
            let (next, r) = device.setup_step(KernelEvent::LengthFound { start, end, again });
            &&& start && end is Some && again <==> r == Ok::<KernelAction, Error>(
                KernelAction::Finished,
            )
            &&& !start || (end is Some && !again) ==> r == Err::<KernelAction, Error>(
                Error::SeekKernelStart,
            )
            &&& start && end is None ==> r == Err::<KernelAction, Error>(Error::SeekKernelImage)
            &&& start ==> (end matches Some(len) ==> next == (FwCfgView {
                kernel_len: len,
                ..device
            }))
            &&& !start || end is None ==> next == device
        }),
{
}

/// The set-up can be told of everything that can happen when the kernel file is read as it asks: up to
/// 64 bytes of the header, and up to 56 bytes of each program header, all of them or as many as there
/// were up to the first that could not be read.
pub proof fn set_up_can_be_told_what_was_read(
    sought: bool,
    read: Option<Vec<u8>>,
    ehdr: ElfHeader,
    reads: Vec<Option<Vec<u8>>>,
    bytes: Seq<u8>,
)
    requires
        read matches Some(b) ==> b@.len() <= 64,
        boot_header_of(true, Some(bytes)) == Ok::<ElfHeader, Error>(ehdr),
        reads@.len() == ehdr.e_phnum || (0 < reads@.len() < ehdr.e_phnum && reads@.last() is None),
        forall|i: int|
            0 <= i < reads@.len() ==> ((#[trigger] reads@[i]) matches Some(b) ==> b@.len() <= 56),
    ensures
        can_be_told(KernelEvent::Begin),
        can_be_told(KernelEvent::HeaderRead { sought, read }),
        can_be_told(KernelEvent::ProgramHeadersRead { ehdr, sought, reads }),
        forall|start: bool, end: Option<u64>, again: bool|
            #[trigger] can_be_told(KernelEvent::LengthFound { start, end, again }),
{
}

/// The guest gives a command by writing its number, one byte, at the start of the device; the device
/// takes it in any state, and nothing else of it changes. Another byte, or a write elsewhere, changes
/// nothing.
pub proof fn commands_are_given_by_number(device: FwCfgView, offset: u64, data: Seq<u8>, cmd: Command)
    ensures
        offset == 0 && data.len() == 1 && data[0] == cmd.code() ==> device.commanded(offset, data) == (
        FwCfgView { cmd: Some(cmd), ..device }),
        offset == 0 && data.len() == 1 && data[0] >= 6 ==> device.commanded(offset, data) == device,
        offset != 0 || data.len() != 1 ==> device.commanded(offset, data) == device,
{
}

} // verus!
