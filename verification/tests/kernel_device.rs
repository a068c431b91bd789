use sev_boot::elf::{ElfHeader, ProgramHeader, Rela, Sym};
use sev_boot::elf_file::ElfImage;
use sev_boot::memory::{GuestAddress, MemoryRegion};
use sev_boot::time::TimestampUs;
use sev_boot::vmm::arch::x86_64::sev::{MeasureEvent, SevLaunch, SevStarted};
use sev_boot::vmm::devices::pseudo::fw_cfg::{Command, Error, FwCfg, KernelType, NewError};
use sev_boot::vmm::vmm_config::sev_config::SevConfig;

const REGION: u64 = 0xe00000;
const REGION_LEN: usize = 0x200000;

fn le16(out: &mut Vec<u8>, x: u16) {
    out.extend_from_slice(&x.to_le_bytes());
}

fn le32(out: &mut Vec<u8>, x: u32) {
    out.extend_from_slice(&x.to_le_bytes());
}

fn le64(out: &mut Vec<u8>, x: u64) {
    out.extend_from_slice(&x.to_le_bytes());
}

fn phdr(out: &mut Vec<u8>, p_type: u32, offset: u64, filesz: u64) {
    le32(out, p_type);
    le32(out, 5);
    le64(out, offset);
    le64(out, offset);
    le64(out, offset);
    le64(out, filesz);
    le64(out, filesz);
    le64(out, 0x1000);
}

fn ehdr(out: &mut Vec<u8>, phnum: u16, phoff: u64) {
    out.extend_from_slice(&[0x7f, 0x45, 0x4c, 0x46, 2, 1, 1, 0, 0, 0, 0, 0, 0, 0, 0, 0]);
    le16(out, 3);
    le16(out, 62);
    le32(out, 1);
    le64(out, 0x1234);
    le64(out, phoff);
    le64(out, 0);
    le32(out, 0);
    le16(out, 64);
    le16(out, 56);
    le16(out, phnum);
    le16(out, 64);
    le16(out, 0);
    le16(out, 0);
}

/// An ELF file with a loadable segment, a dynamic section, two symbols and two relocations.
fn dynamic_kernel() -> Vec<u8> {
    let mut f: Vec<u8> = Vec::new();
    ehdr(&mut f, 2, 0x40);
    phdr(&mut f, 1, 0, 0x198);
    phdr(&mut f, 2, 0xb0, 0x80);
    for (tag, value) in [(5, 0x190), (10, 8), (6, 0x130), (11, 24), (7, 0x160), (8, 48), (9, 24), (0, 0)] {
        le64(&mut f, tag);
        le64(&mut f, value);
    }
    assert_eq!(f.len(), 0x130);
    f.extend_from_slice(&[0u8; 24]);
    le32(&mut f, 1);
    f.extend_from_slice(&[0x12, 3]);
    le16(&mut f, 0xfff1);
    le64(&mut f, 0x1122334455667788);
    le64(&mut f, 9);
    le64(&mut f, 0x2000);
    le64(&mut f, (1 << 32) | 6);
    le64(&mut f, 0x10);
    le64(&mut f, 0x2008);
    le64(&mut f, 8);
    f.extend_from_slice(&(-2i64).to_le_bytes());
    f.extend_from_slice(b"\0abcdef\0");
    assert_eq!(f.len(), 0x198);
    f
}

/// An ELF file whose first `data` bytes after the headers are counted up, as one segment.
fn plain_kernel(data: usize) -> Vec<u8> {
    let mut f: Vec<u8> = Vec::new();
    ehdr(&mut f, 1, 0x40);
    phdr(&mut f, 1, 0x78, data as u64);
    for i in 0..data {
        f.push((i % 251) as u8);
    }
    f
}

fn started() -> SevStarted {
    let config = SevConfig::default();
    SevLaunch::new(config, TimestampUs { time_us: 1, cputime_us: 2 }).snp_launch_start()
}

fn ask(device: &mut FwCfg, code: u8) -> Option<(u64, Vec<u8>)> {
    device.write(0x81, 0, &[code]);
    let mut data = [0xaau8];
    assert!(device.can_read(0, 1));
    let written = device.read(0x81, 0, &mut data);
    assert_eq!(data, [0xaa]);
    written.map(|w| (w.address.0, w.bytes))
}

/// Asks for the type of the kernel.
fn told(device: &mut FwCfg) -> u8 {
    device.write(0x81, 0, &[0]);
    let mut data = [0xaau8];
    assert!(device.can_read(0, 1));
    assert!(device.read(0x81, 0, &mut data).is_none());
    data[0]
}

#[test]
fn kernel_is_handed_out_piece_by_piece() {
    let file = dynamic_kernel();
    let (mut device, _) = FwCfg::new(file.clone(), false, None).unwrap();
    assert_eq!(device.kernel_type(), KernelType::Direct);
    // Everything but the type of the kernel is asked for too early.
    assert_eq!(ask(&mut device, 3), None);
    assert_eq!(told(&mut device), 1);
    assert_eq!(ask(&mut device, 0), None);
    assert_eq!(ask(&mut device, 5), None);
    assert_eq!(ask(&mut device, 4), None);
    assert_eq!(ask(&mut device, 3), Some((REGION, file[0..0x40].to_vec())));
    assert_eq!(ask(&mut device, 3), None);
    assert_eq!(ask(&mut device, 4), Some((REGION, file[0x40..0x78].to_vec())));
    assert_eq!(ask(&mut device, 4), Some((REGION, file[0x78..0xb0].to_vec())));
    assert_eq!(ask(&mut device, 4), None);
    let mut table = Vec::new();
    le64(&mut table, 2);
    table.extend_from_slice(&file[0x130..0x160]);
    le64(&mut table, 2);
    table.extend_from_slice(&file[0x160..0x190]);
    assert_eq!(ask(&mut device, 6), Some((REGION, table)));
    assert_eq!(ask(&mut device, 5), Some((REGION, file.clone())));
    // The dynamic section is not loaded by itself, and nothing follows it.
    assert_eq!(ask(&mut device, 5), None);
    device.write(0x81, 0, &[5]);
    assert!(!device.can_read(0, 1));
}

#[test]
fn segment_comes_in_chunks_of_the_data_region() {
    let len = 2 * REGION_LEN + 5;
    let file = plain_kernel(len);
    let (mut device, _) = FwCfg::new(file.clone(), false, None).unwrap();
    told(&mut device);
    ask(&mut device, 3);
    ask(&mut device, 4);
    let mut got: Vec<u8> = Vec::new();
    for expected in [REGION_LEN, REGION_LEN, 5] {
        let (address, bytes) = ask(&mut device, 5).unwrap();
        assert_eq!(address, REGION);
        assert_eq!(bytes.len(), expected);
        got.extend_from_slice(&bytes);
    }
    assert_eq!(got, file[0x78..].to_vec());
    device.write(0x81, 0, &[5]);
    assert!(!device.can_read(0, 1));
}

#[test]
fn segment_beyond_the_file_is_not_served() {
    let mut file = plain_kernel(16);
    file.truncate(0x80);
    let (mut device, _) = FwCfg::new(file, false, None).unwrap();
    told(&mut device);
    ask(&mut device, 3);
    ask(&mut device, 4);
    device.write(0x81, 0, &[5]);
    assert!(!device.can_read(0, 1));
}

#[test]
fn bzimage_is_told_by_its_magic() {
    let mut file = vec![0u8; 0x206];
    file[0x202..0x206].copy_from_slice(&[0x48, 0x64, 0x72, 0x53]);
    let (mut device, _) = FwCfg::new(file.clone(), false, None).unwrap();
    assert_eq!(device.kernel_type(), KernelType::BzImage);
    assert_eq!(told(&mut device), 0);
    for code in 0..6 {
        assert_eq!(ask(&mut device, code), None);
    }
    assert_eq!(ask(&mut device, 6), Some((REGION, vec![0u8; 16])));
    file.truncate(0x205);
    assert_eq!(FwCfg::new(file, false, None).err(), Some(NewError::NotElf));
}

#[test]
fn reads_and_writes_elsewhere_are_passed_over() {
    let (mut device, _) = FwCfg::new(plain_kernel(1), false, None).unwrap();
    device.write(0x81, 1, &[3, 3, 3]);
    device.write(0x81, 0, &[]);
    device.write(0x81, 0, &[8]);
    let mut data = [1u8, 2];
    assert!(device.read(0x81, 0, &mut data).is_none());
    device.write(0x81, 0, &[0]);
    assert!(!device.can_read(0, 2));
    assert_eq!(told(&mut device), 1);
    device.write(0x81, 0, &[3]);
    assert!(device.read(0x81, 4, &mut data).is_none());
    assert!(device.read(0x81, 0, &mut []).is_none());
    assert_eq!(data, [1, 2]);
    assert!(device.read(0x81, 0, &mut data).is_some());
    device.write(0x81, 0, &[7]);
    assert!(!device.can_read(0, 1));
}

#[test]
fn segments_that_are_not_loaded_are_passed_over() {
    let mut f: Vec<u8> = Vec::new();
    ehdr(&mut f, 7, 0x40);
    phdr(&mut f, 6, 0x1c8, 2);
    phdr(&mut f, 3, 0x1c8, 1);
    phdr(&mut f, 1, 0x1c9, 2);
    phdr(&mut f, 1, 0x1c8, 0);
    phdr(&mut f, 4, 0x1cb, 3);
    phdr(&mut f, 1, 0x1cd, 1);
    phdr(&mut f, 4, 0x1cb, 3);
    assert_eq!(f.len(), 0x1c8);
    f.extend_from_slice(&[1, 2, 3, 4, 5, 6]);
    let (mut device, _) = FwCfg::new(f, false, None).unwrap();
    told(&mut device);
    ask(&mut device, 3);
    for _ in 0..7 {
        assert!(ask(&mut device, 4).is_some());
    }
    assert_eq!(ask(&mut device, 5), Some((REGION, vec![2, 3])));
    assert_eq!(ask(&mut device, 5), Some((REGION, vec![6])));
    assert_eq!(ask(&mut device, 5), None);
    device.write(0x81, 0, &[5]);
    assert!(!device.can_read(0, 1));
}

#[test]
fn kernels_that_cannot_be_booted_are_refused() {
    assert_eq!(FwCfg::new(vec![1, 2, 3], false, None).err(), Some(NewError::NotElf));
    let mut none: Vec<u8> = Vec::new();
    ehdr(&mut none, 0, 0x40);
    assert_eq!(FwCfg::new(none, false, None).err(), Some(NewError::NoProgramHeaders));
    let mut near = plain_kernel(1);
    near[32] = 0x37;
    near[56] = 0;
    assert_eq!(
        FwCfg::new(near, false, None).err(),
        Some(NewError::Setup(Error::InvalidProgramHeaderOffset))
    );
    let mut entries = plain_kernel(1);
    entries[54] = 57;
    assert_eq!(
        FwCfg::new(entries, false, None).err(),
        Some(NewError::Setup(Error::InvalidProgramHeaderSize))
    );
}

fn image(e_ident: [u8; 16]) -> ElfImage {
    ElfImage {
        header: ElfHeader {
            e_ident,
            e_type: 2,
            e_machine: 62,
            e_version: 1,
            e_entry: 0,
            e_phoff: 56,
            e_shoff: 0,
            e_flags: 0,
            e_ehsize: 64,
            e_phentsize: 56,
            e_phnum: 1,
            e_shentsize: 0,
            e_shnum: 0,
            e_shstrndx: 0,
        },
        program_headers: vec![ProgramHeader {
            p_type: 1,
            p_flags: 0,
            p_offset: 0,
            p_vaddr: 0,
            p_paddr: 0,
            p_filesz: 2,
            p_memsz: 0,
            p_align: 0,
        }],
        relas: vec![Rela { r_offset: 1, r_info: 2, r_addend: -3 }],
        dyn_syms: vec![Sym {
            st_name: 1,
            st_info: 2,
            st_other: 3,
            st_shndx: 4,
            st_value: 5,
            st_size: 6,
        }],
    }
}

#[test]
fn header_is_checked_before_it_is_taken_over() {
    let good = [0x7f, 0x45, 0x4c, 0x46, 2, 1, 1, 0, 0, 0, 0, 0, 0, 0, 0, 0];
    let kernel = vec![9u8, 8];
    let (mut device, _) = FwCfg::with_image(kernel.clone(), Some(image(good)), false, None).unwrap();
    let (_, rela) = ask(&mut device, 6).unwrap();
    assert_eq!(rela.len(), 8 + 24 + 8 + 24);
    assert_eq!(rela[8..16], [1, 0, 0, 0, 2, 3, 4, 0]);
    assert_eq!(rela[56..64], (-3i64).to_le_bytes());
    let mut bad = good;
    bad[3] = 0x47;
    assert_eq!(
        FwCfg::with_image(kernel.clone(), Some(image(bad)), false, None).err(),
        Some(NewError::Setup(Error::InvalidElfMagicNumber))
    );
    let mut big = good;
    big[5] = 2;
    assert_eq!(
        FwCfg::with_image(kernel.clone(), Some(image(big)), false, None).err(),
        Some(NewError::Setup(Error::BigEndianElfOnLittle))
    );
    let r = device.setup_direct_boot(image(big));
    assert_eq!(r, Err(Error::BigEndianElfOnLittle));
    assert_eq!(FwCfg::with_image(kernel, None, false, None).err(), Some(NewError::NotElf));
}

#[test]
fn hashes_are_measured_below_the_firmware() {
    let mut sev = started();
    let (_, one) = FwCfg::new(plain_kernel(1), false, Some(&mut sev)).unwrap();
    assert_eq!((one.kernel, one.initrd, one.len), (GuestAddress(0xfffe0), None, 32));
    let (_, two) = FwCfg::new(plain_kernel(1), true, Some(&mut sev)).unwrap();
    assert_eq!(two.kernel, GuestAddress(0xfffe0));
    assert_eq!((two.initrd, two.len), (Some(GuestAddress(0xfffc0)), 64));
    assert!(FwCfg::new(vec![], true, Some(&mut sev)).is_err());
    for _ in 0..2 {
        let update = sev.measure_regions(MeasureEvent::Updated(Ok(()))).unwrap().unwrap();
        assert_eq!((update.guest_addr, update.len), (GuestAddress(0xff000), 0x1000));
    }
    assert!(sev.measure_regions(MeasureEvent::Begin).unwrap().is_none());
    let region = MemoryRegion::new(two.first(), two.len);
    assert_eq!(region, MemoryRegion { start: GuestAddress(0xff000), len: 0x1000 });
}

#[test]
fn commands_have_numbers() {
    for code in 0..8u8 {
        let command = Command::try_from(code).unwrap();
        assert_eq!(command.into(), code as u32);
    }
    assert_eq!(Command::try_from(6), Ok(Command::ElfRela));
    assert_eq!(Command::try_from(8), Err(Error::InvalidCommand));
    assert_eq!(KernelType::BzImage.value(), 0);
    assert_eq!(KernelType::Direct.value(), 1);
}

#[test]
fn errors_have_messages() {
    assert_eq!(Error::BigEndianElfOnLittle.message(), "Unsupported ELF File byte order");
    assert_eq!(Error::InvalidElfMagicNumber.message(), "Invalid ELF magic number");
    assert_eq!(Error::InvalidProgramHeaderSize.message(), "Invalid ELF program header size");
    assert_eq!(Error::InvalidProgramHeaderOffset.message(), "Invalid ELF program header offset");
    assert_eq!(Error::ReadKernelDataStruct("what").message(), "what");
    assert_eq!(
        Error::SeekKernelStart.message(),
        "Failed to seek to file offset as pointed by the ELF program header"
    );
    assert_eq!(Error::SeekKernelImage.message(), "Failed to seek to offset of kernel image");
    assert_eq!(Error::SeekProgramHeader.message(), "Failed to seek to ELF program header");
    assert_eq!(Error::InvalidCommand.message(), "Invalid command");
}
