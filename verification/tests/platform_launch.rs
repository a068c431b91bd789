use sev_boot::arch::x86_64::sev::{
    CpuidAction, CpuidEvent, DataUpdate, Gap, MeasureAction, MeasureEvent, MeasurementEvent, Sev,
    SevCommand, SevError, SevInitEvent, SevReply, SnpInitEvent, SnpUpdate, State,
};
use sev_boot::cpuid;
use sev_boot::layout::PageType;
use sev_boot::memory::{E820Entry, GuestAddress, InitrdConfig, MemoryAttributes};
use sev_boot::time::TimestampUs;

fn guest(snp: bool, policy: u32) -> Sev {
    Sev::new(snp, TimestampUs { time_us: 1, cputime_us: 2 }, policy, 0xfff3)
}

fn failed(fw_error: u32, errno: i32) -> SevReply {
    SevReply::Failed { fw_error, errno }
}

fn started_snp() -> Sev {
    let mut sev = guest(true, 0);
    sev.snp_init(SnpInitEvent::Begin).unwrap();
    sev.snp_init(SnpInitEvent::Initialized(SevReply::Done)).unwrap();
    sev.snp_init(SnpInitEvent::Started(SevReply::Done)).unwrap();
    sev
}

fn started_sev(policy: u32) -> Sev {
    let mut sev = guest(false, policy);
    sev.sev_init(SevInitEvent::Begin).unwrap();
    sev.sev_init(SevInitEvent::Initialized { session: None, dh_cert: None }).unwrap();
    sev.sev_init(SevInitEvent::Started { handle: 7 }).unwrap();
    sev
}

#[test]
fn new_guest_is_uninitialized() {
    let sev = guest(true, 4);
    assert_eq!(sev.state(), State::UnInit);
    assert!(sev.snp && sev.es);
    assert_eq!(sev.cbitpos, 0x33);
    assert_eq!(sev.timestamp(), TimestampUs { time_us: 1, cputime_us: 2 });
    assert!(!guest(true, 3).es);
}

#[test]
fn snp_guest_is_started_in_order() {
    let mut sev = guest(true, 5);
    let r = sev.snp_init(SnpInitEvent::Begin);
    assert_eq!(r, Ok(Some(SevCommand::SnpInit { flags: 0 })));
    assert_eq!(sev.state(), State::UnInit);
    let r = sev.snp_init(SnpInitEvent::Initialized(SevReply::Done));
    assert_eq!(r, Ok(Some(SevCommand::SnpLaunchStart { policy: 0xb0000 })));
    assert_eq!(sev.state(), State::Init);
    let r = sev.snp_init(SnpInitEvent::Begin);
    assert_eq!(r, Err(SevError::InvalidPlatformState));
    let r = sev.snp_init(SnpInitEvent::Started(failed(7, 5)));
    assert_eq!(r, Err(SevError::PolicyFailure));
    assert_eq!(sev.state(), State::Init);
    assert_eq!(sev.snp_init(SnpInitEvent::Started(SevReply::Done)), Ok(None));
    assert_eq!(sev.state(), State::LaunchUpdate);
}

#[test]
fn failure_of_a_command_is_told_by_the_firmware_or_the_system() {
    let mut sev = guest(true, 0);
    let r = sev.snp_init(SnpInitEvent::Initialized(failed(0, 22)));
    assert_eq!(r, Err(SevError::Errno(22)));
    assert_eq!(sev.state(), State::UnInit);
    assert_eq!(Sev::sev_ioctl(SevReply::Done), Ok(()));
    assert_eq!(Sev::sev_ioctl(failed(0x1f, 5)), Err(SevError::RbModeExited));
    assert_eq!(Sev::sev_ioctl(failed(0x12, 5)), Err(SevError::InvalidErrorCode));
    assert_eq!(SevError::from(0x26), SevError::RmpInitFailed);
    assert_eq!(SevError::from(0), SevError::InvalidErrorCode);
}

#[test]
fn sev_guest_is_started_measured_and_finished_in_order() {
    let mut sev = guest(false, 5);
    assert_eq!(sev.sev_init(SevInitEvent::Begin), Ok(Some(SevCommand::SevEsInit)));
    let event = SevInitEvent::Initialized { session: Some(300), dh_cert: Some(70000) };
    assert_eq!(
        sev.sev_init(event),
        Ok(Some(SevCommand::LaunchStart {
            handle: 0,
            guest_policy: 5,
            session_len: 300,
            dh_len: 70000,
        }))
    );
    assert_eq!(sev.state(), State::Init);
    assert_eq!(sev.sev_init(SevInitEvent::Begin), Err(SevError::InvalidPlatformState));
    let r = sev.get_launch_measurement(MeasurementEvent::Begin);
    assert_eq!(r, Err(SevError::InvalidPlatformState));
    assert_eq!(sev.launch_update_vmsa(), Err(SevError::InvalidPlatformState));
    assert_eq!(sev.sev_init(SevInitEvent::Started { handle: 9 }), Ok(None));
    assert_eq!(sev.launch_update_vmsa(), Ok(Some(SevCommand::LaunchUpdateVmsa)));
    let (_, r) = sev.sev_launch_finish();
    assert_eq!(r, Err(SevError::InvalidPlatformState));
    let r = sev.get_launch_measurement(MeasurementEvent::Begin);
    assert_eq!(r, Ok(Some(SevCommand::LaunchMeasure { len: 48 })));
    assert_eq!(sev.state(), State::LaunchUpdate);
    assert_eq!(sev.get_launch_measurement(MeasurementEvent::Measured([6u8; 48])), Ok(None));
    assert_eq!(sev.state(), State::LaunchSecret);
    let (_, r) = sev.sev_launch_finish();
    assert_eq!(r, Ok(SevCommand::LaunchFinish { handle: 9 }));
    sev.sev_launch_finished();
    assert_eq!(sev.state(), State::Running);
}

#[test]
fn launch_is_started_on_an_initialized_platform_only() {
    let mut sev = guest(false, 5);
    assert_eq!(sev.sev_launch_start(Some(1), None), Err(SevError::InvalidPlatformState));
    assert_eq!(sev.snp_launch_start(), Err(SevError::InvalidPlatformState));
    sev.sev_init(SevInitEvent::Initialized { session: None, dh_cert: None }).unwrap();
    let (handle, guest_policy, session_len, dh_len) = (0, 5, 1, 0);
    assert_eq!(
        sev.sev_launch_start(Some(1), None),
        Ok(SevCommand::LaunchStart { handle, guest_policy, session_len, dh_len })
    );
    assert_eq!(sev.snp_launch_start(), Ok(SevCommand::SnpLaunchStart { policy: 0xb0000 }));
    sev.sev_init(SevInitEvent::Started { handle: 9 }).unwrap();
    assert_eq!(sev.sev_launch_start(None, None), Err(SevError::InvalidPlatformState));
    let page = GuestAddress(0x1000);
    assert!(sev.snp_launch_update(page, 0x1000, Some(0x7000), PageType::Normal).is_ok());
    let unstarted = guest(true, 0).snp_launch_update(page, 0x1000, None, PageType::Normal);
    assert_eq!(unstarted, Err(SevError::InvalidPlatformState));
}

#[test]
fn guest_without_encrypted_state_has_no_save_areas() {
    let mut sev = guest(false, 0);
    assert_eq!(sev.launch_update_vmsa(), Ok(None));
    assert_eq!(sev.sev_init(SevInitEvent::Begin), Ok(Some(SevCommand::SevInit)));
}

#[test]
fn secrets_page_is_added_to_an_snp_guest() {
    assert_eq!(started_sev(0).snp_insert_secrets_page(None), Ok(None));
    let r = guest(true, 0).snp_insert_secrets_page(None);
    assert_eq!(r, Err(SevError::InvalidPlatformState));
    let update = started_snp().snp_insert_secrets_page(Some(0x7f0000000123)).unwrap().unwrap();
    assert_eq!(
        update,
        SnpUpdate {
            attributes: MemoryAttributes { address: 0x3200000, size: 0x2000, attributes: 0, flags: 0 },
            command: SevCommand::SnpLaunchUpdate {
                start_gfn: 0x3200,
                uaddr: 0x7f0000000123,
                len: 0x1000,
                page_type: PageType::Secrets.code(),
            },
        }
    );
}

#[test]
fn cpuid_page_of_an_snp_guest_is_tried_twice() {
    let sev = started_snp();
    match sev.snp_insert_cpuid_page(CpuidEvent::Begin, &[], Some(0x5000)) {
        CpuidAction::Insert { page, update } => {
            assert_eq!(page.address, GuestAddress(0x1000));
            assert_eq!(page.bytes, cpuid::cpuid_page(&[]));
            let size = update.attributes.size;
            assert_eq!((update.attributes.address, size), (0x1000, 0x1000));
            match sev.snp_insert_cpuid_page(CpuidEvent::Inserted(failed(1, 1)), &[], Some(0x5000)) {
                CpuidAction::Retry(again) => assert_eq!(again, update),
                other => panic!("{:?}", other),
            }
        },
        other => panic!("{:?}", other),
    }
    let done = CpuidEvent::Inserted(SevReply::Done);
    assert!(matches!(sev.snp_insert_cpuid_page(done, &[], Some(0)), CpuidAction::Finished));
    let retried = sev.snp_insert_cpuid_page(CpuidEvent::Retried, &[], Some(0));
    assert!(matches!(retried, CpuidAction::Finished));
    let none = started_sev(0).snp_insert_cpuid_page(CpuidEvent::Begin, &[], None);
    assert!(matches!(none, CpuidAction::Finished));
}

#[test]
fn data_is_encrypted_in_blocks() {
    let sev = started_sev(0);
    assert!(sev.can_update_data(GuestAddress(0x1000), 0x15, 0x9003));
    assert_eq!(
        sev.launch_update_data(GuestAddress(0x1000), 0x15, 0x9003),
        Ok(DataUpdate {
            before: Some(Gap { start: GuestAddress(0xffd), len: 3 }),
            after: Some(Gap { start: GuestAddress(0x1015), len: 8 }),
            command: SevCommand::LaunchUpdateData { uaddr: 0x9000, len: 0x20 },
        })
    );
    assert_eq!(
        sev.launch_update_data(GuestAddress(0), 0x10, 0x9000),
        Ok(DataUpdate {
            before: None,
            after: None,
            command: SevCommand::LaunchUpdateData { uaddr: 0x9000, len: 0x10 },
        })
    );
    let update = sev.launch_update_data(GuestAddress(0x1000), 0x15, 0x9003).unwrap();
    let fills = update.fills();
    assert_eq!(fills.len(), 2);
    assert_eq!((fills[0].address, fills[0].bytes.clone()), (GuestAddress(0xffd), vec![0u8; 3]));
    assert_eq!((fills[1].address, fills[1].bytes.clone()), (GuestAddress(0x1015), vec![0u8; 8]));
    let whole = sev.launch_update_data(GuestAddress(0), 0x10, 0x9000).unwrap();
    assert!(whole.fills().is_empty());
    assert!(!sev.can_update_data(GuestAddress(2), 1, 0x9003));
    assert!(!sev.can_update_data(GuestAddress(0x1000), 0xfffffff1, 0));
    let r = guest(false, 0).launch_update_data(GuestAddress(2), 1, 0x9003);
    assert_eq!(r, Err(SevError::InvalidPlatformState));
}

#[test]
fn snp_regions_are_added_from_the_last_on() {
    let mut sev = started_snp();
    sev.load_firmware(0x234).unwrap();
    sev.add_measured_region(GuestAddress(0xfffe0), 32);
    assert_eq!(sev.next_measured(), Some(GuestAddress(0xfffe0)));
    assert!(sev.can_measure_next(Some(0x10fe0)));
    let r = sev.measure_regions(MeasureEvent::Begin, Some(0x10fe0)).unwrap();
    let command = SevCommand::SnpLaunchUpdate {
        start_gfn: 0xff,
        uaddr: 0x10fe0,
        len: 32,
        page_type: 1,
    };
    let attributes = MemoryAttributes { address: 0xff000, size: 0x1000, attributes: 0, flags: 0 };
    assert_eq!(r, MeasureAction::SnpUpdate(SnpUpdate { attributes, command }));
    assert_eq!(sev.next_measured(), Some(GuestAddress(0x100000)));
    let r = sev.measure_regions(MeasureEvent::Updated(failed(0x19, 1)), None);
    assert_eq!(r, Err(SevError::InvalidPageSize));
    let r = sev.measure_regions(MeasureEvent::Updated(SevReply::Done), Some(0x20000));
    assert!(matches!(r, Ok(MeasureAction::SnpUpdate(_))));
    assert_eq!(sev.next_measured(), None);
    let r = sev.measure_regions(MeasureEvent::Updated(SevReply::Done), None);
    assert_eq!(r, Ok(MeasureAction::Finished));
}

#[test]
fn regions_of_a_guest_that_is_not_started_are_refused() {
    let mut snp = guest(true, 0);
    snp.add_measured_region(GuestAddress(0), 16);
    assert_eq!(snp.next_measured(), None);
    let r = snp.measure_regions(MeasureEvent::Begin, None);
    assert_eq!(r, Err(SevError::InvalidPlatformState));
    let r = snp.measure_regions(MeasureEvent::Begin, None);
    assert_eq!(r, Ok(MeasureAction::Finished));
    let mut sev = guest(false, 0);
    sev.add_measured_region(GuestAddress(0), 16);
    assert_eq!(sev.next_measured(), Some(GuestAddress(0)));
    assert!(!sev.can_measure_next(None));
    let r = sev.measure_regions(MeasureEvent::Begin, Some(64));
    assert_eq!(r, Err(SevError::InvalidPlatformState));
}

#[test]
fn sev_regions_are_encrypted() {
    let mut sev = started_sev(0);
    sev.add_measured_region(GuestAddress(0x2000), 0x20);
    let r = sev.measure_regions(MeasureEvent::Begin, Some(0x7000)).unwrap();
    let command = SevCommand::LaunchUpdateData { uaddr: 0x7000, len: 0x20 };
    assert_eq!(r, MeasureAction::Update(DataUpdate { before: None, after: None, command }));
    sev.add_measured_region(GuestAddress(0), 1 << 32);
    assert!(!sev.can_measure_next(Some(0)));
}

#[test]
fn memory_is_registered_when_the_launch_is_finished() {
    let map = [
        E820Entry { addr: 0, size: 0x1001 },
        E820Entry { addr: 0x100000, size: 0x2000 },
    ];
    let mut sev = started_snp();
    sev.add_ram_regions(&map, 2);
    sev.add_shared_region(GuestAddress(0x1000), 1);
    assert!(sev.can_register());
    let request = sev.snp_launch_finish();
    assert_eq!(request.command, SevCommand::SnpLaunchFinish);
    assert_eq!(
        request.attributes,
        [
            MemoryAttributes { address: 0x100000, size: 0x2000, attributes: 8, flags: 0 },
            MemoryAttributes { address: 0, size: 0x2000, attributes: 8, flags: 0 },
            MemoryAttributes { address: 0x1000, size: 0x1000, attributes: 0, flags: 0 },
        ]
    );
    assert!(sev.snp_launch_finish().attributes.is_empty());
    assert_eq!(sev.state(), State::LaunchUpdate);
    // Without SNP there is no private memory to register.
    let mut sev = started_sev(0);
    sev.add_ram_regions(&map, 1);
    sev.add_shared_region(GuestAddress(0x1000), 1);
    let (attributes, _) = sev.sev_launch_finish();
    assert_eq!(attributes.len(), 1);
    assert_eq!(attributes[0].attributes, 0);
    sev.add_ram_regions(&[E820Entry { addr: 0, size: u64::MAX }], 1);
    assert!(!sev.can_register());
}

#[test]
fn kernel_and_ramdisk_are_shared_by_an_snp_guest() {
    let initrd = Some(InitrdConfig { address: GuestAddress(0x800000), size: 0x10 });
    let mut sev = started_snp();
    assert_eq!(sev.load_kernel_and_initrd(true, 0x777, &initrd), Ok(0x777));
    let shared: Vec<(u64, u64)> =
        sev.register_shared_regions().iter().map(|a| (a.address, a.size)).collect();
    assert_eq!(
        shared,
        [(0x600000, 0x200000), (0x3000000, 0x200000), (0x2000000, 0x1000000)]
    );
    assert_eq!(sev.load_kernel_and_initrd(false, 0x777, &None), Ok(0));
    let shared: Vec<(u64, u64)> =
        sev.register_shared_regions().iter().map(|a| (a.address, a.size)).collect();
    assert_eq!(shared, [(0xc00000, 0x200000), (0xe00000, 0x200000)]);
    let mut sev = started_sev(0);
    assert_eq!(sev.load_kernel_and_initrd(true, 5, &initrd), Ok(5));
    assert!(sev.register_shared_regions().is_empty());
}

#[test]
fn page_state_of_a_running_guest_changes() {
    let mut block = vec![0u8; 0xffe];
    block[0x808..0x810].copy_from_slice(&((1u64 << 52) | (4 << 12)).to_le_bytes());
    let exit = Sev::handle_vmgexit(0x2000, &block);
    let private = MemoryAttributes { address: 0x4000, size: 0x1000, attributes: 8, flags: 0 };
    assert_eq!(exit.changes, [private]);
    assert_eq!(exit.reply.address, GuestAddress(0x2800));
    assert_eq!(exit.reply.bytes[0..2], [1, 0]);
    assert_eq!(Sev::set_page_state(4, 0x1000, true), private);
}

#[test]
fn every_error_of_the_firmware_has_its_number() {
    let known = [
        (0x01, SevError::InvalidPlatformState),
        (0x02, SevError::InvalidGuestState),
        (0x03, SevError::InvalidConfig),
        (0x04, SevError::InvalidLength),
        (0x05, SevError::AlreadyOwned),
        (0x06, SevError::InvalidCertificate),
        (0x07, SevError::PolicyFailure),
        (0x08, SevError::Inactive),
        (0x09, SevError::InvalidAddress),
        (0x0a, SevError::BadSignature),
        (0x0b, SevError::BadMeasurement),
        (0x0c, SevError::AsidOwned),
        (0x0d, SevError::InvalidAsid),
        (0x0e, SevError::WBINVDRequired),
        (0x0f, SevError::DfFlushRequired),
        (0x10, SevError::InvalidGuest),
        (0x11, SevError::InvalidCommand),
        (0x13, SevError::HwerrorPlatform),
        (0x14, SevError::HwerrorUnsafe),
        (0x15, SevError::Unsupported),
        (0x16, SevError::InvalidParam),
        (0x17, SevError::ResourceLimit),
        (0x18, SevError::SecureDataInvalid),
        (0x1f, SevError::RbModeExited),
        (0x19, SevError::InvalidPageSize),
        (0x1a, SevError::InvalidPageState),
        (0x1b, SevError::InvalidMDataEntry),
        (0x1c, SevError::InvalidPageOwner),
        (0x1d, SevError::AeadOverflow),
        (0x20, SevError::RmpInitRequired),
        (0x21, SevError::BadSvn),
        (0x22, SevError::BadVersion),
        (0x23, SevError::ShutdownRequired),
        (0x24, SevError::UpdateFailed),
        (0x25, SevError::RestoreRequired),
        (0x26, SevError::RmpInitFailed),
        (0x27, SevError::InvalidKey),
    ];
    for (code, error) in known {
        assert_eq!(SevError::from(code), error);
    }
    for code in 0..0x100u32 {
        let is_known = known.iter().any(|(c, _)| *c == code);
        assert_eq!(SevError::from(code) == SevError::InvalidErrorCode, !is_known);
    }
}
