use sev_boot::arch::x86_64::sev::{MeasureEvent, Sev, SevReply, SnpInitEvent};
use sev_boot::boot_protocol::get_kernel_type;
use sev_boot::devices::pseudo::fw_cfg::{
    Command, Error, FwCfg, KernelAction, KernelEvent, KernelType, ReadAction, FW_CFG_REG,
};
use sev_boot::elf::{ElfHeader, ProgramHeader};
use sev_boot::memory::GuestAddress;
use sev_boot::time::TimestampUs;

const REGION: GuestAddress = GuestAddress(0xe00000);

fn header(phnum: u16) -> ElfHeader {
    ElfHeader {
        e_ident: [0x7f, 0x45, 0x4c, 0x46, 2, 1, 1, 0, 0, 0, 0, 0, 0, 0, 0, 0],
        e_type: 2,
        e_machine: 62,
        e_version: 1,
        e_entry: 0x1000000,
        e_phoff: 64,
        e_shoff: 0x1122334455,
        e_flags: 7,
        e_ehsize: 64,
        e_phentsize: 56,
        e_phnum: phnum,
        e_shentsize: 64,
        e_shnum: 9,
        e_shstrndx: 8,
    }
}

fn program_header(p_type: u32, p_offset: u64, p_filesz: u64) -> ProgramHeader {
    ProgramHeader {
        p_type,
        p_flags: 5,
        p_offset,
        p_vaddr: 0x1000,
        p_paddr: 0x2000,
        p_filesz,
        p_memsz: 0x3000,
        p_align: 0x1000,
    }
}

fn device(phdrs: &[ProgramHeader]) -> FwCfg {
    let ehdr = FwCfg::boot_header(true, Some(&header(phdrs.len() as u16).to_bytes())).unwrap();
    let reads: Vec<Option<Vec<u8>>> = phdrs.iter().map(|p| Some(p.to_bytes())).collect();
    let mut device = FwCfg::new(KernelType::Direct);
    device.setup_direct_boot(ehdr, true, &reads).unwrap();
    device
}

fn ask(device: &mut FwCfg, code: u8) -> ReadAction {
    device.write(0, &[code]);
    let mut data = [0x55u8];
    assert!(device.can_read(0, 1));
    let action = device.read(0, &mut data);
    assert_eq!(data, [0x55]);
    action
}

/// Asks for the type of the kernel.
fn told(device: &mut FwCfg) -> u8 {
    device.write(0, &[0]);
    let mut data = [0x55u8];
    assert!(device.can_read(0, 1));
    assert!(matches!(device.read(0, &mut data), ReadAction::Nothing));
    data[0]
}

fn written(action: ReadAction) -> Vec<u8> {
    match action {
        ReadAction::Write(w) => {
            assert_eq!(w.address, REGION);
            w.bytes
        },
        other => panic!("{:?}", other),
    }
}

fn copied(action: ReadAction) -> (Option<u64>, u64) {
    match action {
        ReadAction::Copy { seek, len, to } => {
            assert_eq!(to, REGION);
            (seek, len)
        },
        other => panic!("{:?}", other),
    }
}

#[test]
fn headers_survive_their_encoding() {
    let h = header(3);
    let bytes = h.to_bytes();
    assert_eq!(bytes.len(), 64);
    assert_eq!(bytes[16..20], [2, 0, 62, 0]);
    assert_eq!(bytes[40..48], [0x55, 0x44, 0x33, 0x22, 0x11, 0, 0, 0]);
    assert_eq!(ElfHeader::from_bytes(&bytes), h);
    let p = program_header(1, 2, 3);
    let bytes = p.to_bytes();
    assert_eq!(bytes.len(), 56);
    assert_eq!(bytes[0..16], [1, 0, 0, 0, 5, 0, 0, 0, 2, 0, 0, 0, 0, 0, 0, 0]);
    assert_eq!(ProgramHeader::from_bytes(&bytes), p);
}

#[test]
fn encodings_survive_their_headers() {
    let bytes: Vec<u8> = (0..64).map(|i| (i * 37 + 11) as u8).collect();
    assert_eq!(ElfHeader::from_bytes(&bytes).to_bytes(), bytes);
    assert_eq!(ProgramHeader::from_bytes(&bytes[0..56]).to_bytes(), bytes[0..56]);
}

#[test]
fn headers_are_handed_out_one_by_one() {
    let phdrs = [program_header(1, 0x100, 8), program_header(6, 0x40, 8)];
    let mut device = device(&phdrs);
    assert!(device.is_bootable());
    assert_eq!(device.kernel_type(), KernelType::Direct);
    assert!(matches!(ask(&mut device, 3), ReadAction::Nothing));
    assert_eq!(told(&mut device), 1);
    assert!(matches!(ask(&mut device, 0), ReadAction::Nothing));
    assert!(matches!(ask(&mut device, 4), ReadAction::Nothing));
    assert_eq!(written(ask(&mut device, 3)), header(2).to_bytes());
    assert!(matches!(ask(&mut device, 5), ReadAction::Nothing));
    assert_eq!(written(ask(&mut device, 4)), phdrs[0].to_bytes());
    assert_eq!(written(ask(&mut device, 4)), phdrs[1].to_bytes());
    assert!(matches!(ask(&mut device, 4), ReadAction::Nothing));
    assert_eq!(copied(ask(&mut device, 5)), (Some(0x100), 8));
    assert!(matches!(ask(&mut device, 5), ReadAction::Nothing));
    device.write(0, &[5]);
    assert!(!device.can_read(0, 1));
}

#[test]
fn segments_are_copied_in_chunks() {
    let phdrs = [
        program_header(6, 0x10, 9),
        program_header(3, 0x10, 9),
        program_header(4, 0x10, 9),
        program_header(1, 0x1000, 0x400001),
        program_header(2, 0x20, 5),
        program_header(7, 0x30, 6),
        program_header(1, 0x40, 0),
    ];
    let mut device = device(&phdrs);
    told(&mut device);
    ask(&mut device, 3);
    for _ in 0..7 {
        ask(&mut device, 4);
    }
    assert_eq!(copied(ask(&mut device, 5)), (Some(0x1000), 0x200000));
    assert_eq!(copied(ask(&mut device, 5)), (None, 0x200000));
    assert_eq!(copied(ask(&mut device, 5)), (None, 1));
    assert_eq!(copied(ask(&mut device, 5)), (Some(0x20), 5));
    assert_eq!(copied(ask(&mut device, 5)), (Some(0x30), 6));
    assert!(matches!(ask(&mut device, 5), ReadAction::Nothing));
}

#[test]
fn header_is_checked() {
    let mut bytes = header(1).to_bytes();
    assert_eq!(FwCfg::boot_header(false, None), Err(Error::SeekKernelStart));
    let unread = FwCfg::boot_header(true, None).unwrap_err();
    assert_eq!(unread.message(), "Failed to read ELF header");
    assert_eq!(FwCfg::boot_header(true, Some(&[])), Err(Error::InvalidElfMagicNumber));
    assert_eq!(FwCfg::boot_header(true, Some(&bytes[0..5])), Err(Error::BigEndianElfOnLittle));
    assert_eq!(FwCfg::boot_header(true, Some(&bytes[0..32])), Err(Error::InvalidProgramHeaderSize));
    // What is missing of the header is taken to be zero.
    let short = FwCfg::boot_header(true, Some(&bytes[0..56])).unwrap();
    assert_eq!((short.e_phnum, short.e_phentsize), (0, 56));
    bytes[32] = 63;
    let r = FwCfg::boot_header(true, Some(&bytes));
    assert_eq!(r, Err(Error::InvalidProgramHeaderOffset));
    bytes[5] = 2;
    assert_eq!(FwCfg::boot_header(true, Some(&bytes)), Err(Error::BigEndianElfOnLittle));
    bytes[0] = 0;
    assert_eq!(FwCfg::boot_header(true, Some(&bytes)), Err(Error::InvalidElfMagicNumber));
}

#[test]
fn program_headers_that_cannot_be_read_are_refused() {
    let mut device = FwCfg::new(KernelType::Direct);
    let r = device.setup_direct_boot(header(1), false, &[None]);
    assert_eq!(r, Err(Error::SeekProgramHeader));
    let good = Some(program_header(1, 2, 3).to_bytes());
    let r = device.setup_direct_boot(header(3), true, &[good, None]);
    assert_eq!(r.unwrap_err().message(), "Failed to read ELF program header");
    assert!(!device.is_bootable());
    assert_eq!(device.setup_direct_boot(header(0), true, &[]), Ok(()));
    assert!(!device.is_bootable());
    let r = device.setup_direct_boot(header(1), true, &[Some(vec![1, 0, 0, 0])]);
    assert_eq!(r, Ok(()));
    assert!(device.is_bootable());
}

#[test]
fn headers_are_read_where_they_stand() {
    let read = FwCfg::header_read();
    assert_eq!((read.position, read.count, read.len), (0, 1, 64));
    let mut ehdr = header(3);
    ehdr.e_phoff = 0x1234;
    let reads = FwCfg::program_header_reads(&ehdr);
    assert_eq!((reads.position, reads.count, reads.len), (0x1234, 3, 56));
}

/// A kernel file whose program headers do not follow the ELF header directly.
fn kernel_file(phdrs: usize) -> Vec<u8> {
    let mut ehdr = header(phdrs as u16);
    ehdr.e_phoff = 100;
    let mut file = ehdr.to_bytes();
    while file.len() < 100 + 56 * phdrs + 9 {
        file.push((file.len() % 251) as u8);
    }
    file
}

#[test]
fn direct_boot_is_set_up_step_by_step() {
    let file = kernel_file(3);
    let mut device = FwCfg::new(KernelType::Direct);
    let reads = match device.setup(KernelEvent::Begin) {
        Ok(KernelAction::ReadHeader(reads)) => reads,
        other => panic!("{:?}", other),
    };
    assert_eq!((reads.position, reads.count, reads.len), (0, 1, 64));
    let read = Some(file[0..64].to_vec());
    let (ehdr, reads) = match device.setup(KernelEvent::HeaderRead { sought: true, read }) {
        Ok(KernelAction::ReadProgramHeaders { ehdr, reads }) => (ehdr, reads),
        other => panic!("{:?}", other),
    };
    assert_eq!((reads.position, reads.count, reads.len), (100, 3, 56));
    assert!(!device.is_bootable());
    let reads = (0..3).map(|i| Some(file[100 + 56 * i..156 + 56 * i].to_vec())).collect();
    let r = device.setup(KernelEvent::ProgramHeadersRead { ehdr, sought: true, reads });
    assert_eq!(r, Ok(KernelAction::Finished));
    assert!(device.is_bootable());
    // What is handed out is what stands in the file.
    assert_eq!(told(&mut device), 1);
    assert_eq!(written(ask(&mut device, 3)), file[0..64]);
    for i in 0..3 {
        assert_eq!(written(ask(&mut device, 4)), file[100 + 56 * i..156 + 56 * i]);
    }
    assert!(matches!(ask(&mut device, 4), ReadAction::Nothing));
}

#[test]
fn set_up_stops_at_what_cannot_be_read() {
    let mut device = FwCfg::new(KernelType::Direct);
    let r = device.setup(KernelEvent::HeaderRead { sought: false, read: None });
    assert_eq!(r, Err(Error::SeekKernelStart));
    let r = device.setup(KernelEvent::HeaderRead { sought: true, read: None });
    assert_eq!(r.unwrap_err().message(), "Failed to read ELF header");
    let r = device.setup(KernelEvent::HeaderRead { sought: true, read: Some(vec![0; 64]) });
    assert_eq!(r, Err(Error::InvalidElfMagicNumber));
    let ehdr = header(2);
    let reads = vec![None];
    let r = device.setup(KernelEvent::ProgramHeadersRead { ehdr, sought: false, reads });
    assert_eq!(r, Err(Error::SeekProgramHeader));
    let reads = vec![None];
    let r = device.setup(KernelEvent::ProgramHeadersRead { ehdr, sought: true, reads });
    assert_eq!(r.unwrap_err().message(), "Failed to read ELF program header");
    assert!(!device.is_bootable());
}

#[test]
fn bzimage_is_set_up_by_its_length() {
    let mut device = FwCfg::new(KernelType::BzImage);
    assert!(device.is_bootable());
    assert_eq!(device.setup(KernelEvent::Begin), Ok(KernelAction::FindLength));
    let r = device.setup(KernelEvent::LengthFound { start: true, end: None, again: true });
    assert_eq!(r, Err(Error::SeekKernelImage));
    let r = device.setup(KernelEvent::LengthFound { start: true, end: Some(9), again: true });
    assert_eq!(r, Ok(KernelAction::Finished));
    assert!(device.is_bootable());
    assert_eq!(told(&mut device), 0);
}

#[test]
fn length_of_a_bzimage_is_found_by_seeking() {
    let mut device = FwCfg::new(KernelType::BzImage);
    assert_eq!(device.get_bzimage_size(false, None, false), Err(Error::SeekKernelStart));
    assert_eq!(device.get_bzimage_size(true, None, false), Err(Error::SeekKernelImage));
    assert_eq!(device.get_bzimage_size(true, Some(5), false), Err(Error::SeekKernelStart));
    assert_eq!(device.get_bzimage_size(true, Some(5), true), Ok(()));
    assert_eq!(told(&mut device), 0);
    for code in 0..6 {
        assert!(matches!(ask(&mut device, code), ReadAction::Nothing));
    }
}

#[test]
fn packing_is_told_by_the_setup_header() {
    let mut window = vec![0u8; 123];
    assert_eq!(get_kernel_type(&window), KernelType::Direct);
    window[17..21].copy_from_slice(&[0x48, 0x64, 0x72, 0x53]);
    assert_eq!(get_kernel_type(&window), KernelType::BzImage);
    assert_eq!(get_kernel_type(&window[0..21]), KernelType::BzImage);
    assert_eq!(get_kernel_type(&window[0..20]), KernelType::Direct);
    assert_eq!(get_kernel_type(&[]), KernelType::Direct);
}

#[test]
fn other_accesses_are_passed_over() {
    let mut device = device(&[program_header(1, 0, 1)]);
    device.write(4, &[3, 3]);
    device.write(0, &[]);
    device.write(0, &[6]);
    let mut data = [1u8, 2];
    assert!(matches!(device.read(0, &mut data), ReadAction::Nothing));
    assert_eq!(told(&mut device), 1);
    device.write(0, &[3]);
    assert!(matches!(device.read(1, &mut data), ReadAction::Nothing));
    assert!(matches!(device.read(0, &mut []), ReadAction::Nothing));
    assert!(matches!(device.read(0, &mut data), ReadAction::Write(_)));
    assert_eq!(data, [1, 2]);
    assert_eq!(FW_CFG_REG, 0x81);
}

#[test]
fn file_device_commands_have_numbers() {
    for code in 0..6u8 {
        assert_eq!(Command::try_from(code).unwrap().into(), code as u32);
    }
    assert_eq!(Command::try_from(5), Ok(Command::SegData));
    assert_eq!(Command::try_from(6), Err(Error::InvalidCommand));
}

#[test]
fn hashes_are_measured_if_the_guest_is_launched_with_sev() {
    let device = FwCfg::new(KernelType::BzImage);
    let placement = device.add_kernel_hashes(false, &mut None);
    assert_eq!((placement.kernel, placement.len), (GuestAddress(0xfffe0), 32));
    let start = TimestampUs { time_us: 0, cputime_us: 0 };
    let mut sev = Some(Sev::new(true, start, 0, 0));
    let placement = device.add_kernel_hashes(true, &mut sev);
    assert_eq!(placement.initrd, Some(GuestAddress(0xfffc0)));
    let mut sev = sev.unwrap();
    sev.snp_init(SnpInitEvent::Initialized(SevReply::Done)).unwrap();
    sev.snp_init(SnpInitEvent::Started(SevReply::Done)).unwrap();
    assert_eq!(sev.next_measured(), Some(GuestAddress(0xfffc0)));
    assert!(sev.measure_regions(MeasureEvent::Begin, Some(0)).is_ok());
    assert_eq!(sev.next_measured(), None);
}
