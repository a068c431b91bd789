use sev_boot::cpuid::{self, CpuidEntry};
use sev_boot::layout::PageType;
use sev_boot::memory::{E820Entry, GuestAddress, InitrdConfig, MemoryAttributes};
use sev_boot::time::TimestampUs;
use sev_boot::vmm::arch::x86_64::sev::{
    firmware_answer, InitAction, InitEvent, LaunchUpdate, MeasureEvent, SetupAction, SetupEvent,
    Sev, SevError, SevLaunch, SevStarted,
};
use sev_boot::vmm::vmm_config::sev_config::SevConfig;

fn config() -> SevConfig {
    SevConfig {
        firmware_path: String::from("/firmware"),
        kernel_hash_path: String::from("/kernel"),
        initrd_hash_path: None,
        policy: 3,
    }
}

fn start() -> TimestampUs {
    TimestampUs { time_us: 5, cputime_us: 6 }
}

fn launch() -> SevLaunch {
    SevLaunch::new(config(), start())
}

fn started() -> SevStarted {
    launch().snp_launch_start()
}

fn refused(code: u32) -> Result<(), sev::error::FirmwareError> {
    Err(sev::error::FirmwareError::UnknownSevError(code))
}

fn is_refusal(e: &SevError, code: u32) -> bool {
    matches!(e, SevError::FirmwareError(sev::error::FirmwareError::UnknownSevError(c)) if *c == code)
}

#[test]
fn guest_is_started_in_order() {
    let launch = launch();
    let steps = [
        (InitEvent::Begin, InitAction::EnableHypercallExit { mask: 0x1000 }),
        (InitEvent::HypercallExitEnabled, InitAction::OpenFirmware),
        (InitEvent::FirmwareOpened(true), InitAction::ResetPlatform),
        (InitEvent::PlatformReset, InitAction::CreateLauncher),
        (InitEvent::LauncherCreated(Ok(())), InitAction::Start { policy: 0xb0000 }),
        (InitEvent::Started(Ok(())), InitAction::Finished),
    ];
    for (event, action) in steps {
        assert_eq!(launch.snp_init(event).unwrap(), action);
    }
    let guest = launch.snp_launch_start();
    assert_eq!(guest.timestamp(), start());
    assert_eq!(*guest.config(), config());
}

#[test]
fn refusals_of_the_platform_are_passed_on() {
    let launch = launch();
    let e = launch.snp_init(InitEvent::FirmwareOpened(false)).unwrap_err();
    assert!(matches!(e, SevError::FailedToOpenFirmware));
    let e = launch.snp_init(InitEvent::LauncherCreated(refused(7))).unwrap_err();
    assert!(is_refusal(&e, 7));
    let e = launch.snp_init(InitEvent::Started(refused(8))).unwrap_err();
    assert!(is_refusal(&e, 8));
    assert!(firmware_answer(Ok(())).is_ok());
    assert!(is_refusal(&firmware_answer(refused(9)).unwrap_err(), 9));
}

#[test]
fn platform_errors_have_numbers() {
    let known = [
        (0x01, "InvalidPlatformState"),
        (0x02, "InvalidGuestState"),
        (0x03, "InvalidConfig"),
        (0x04, "InvalidLength"),
        (0x05, "AlreadyOwned"),
        (0x06, "InvalidCertificate"),
        (0x07, "PolicyFailure"),
        (0x08, "Inactive"),
        (0x09, "InvalidAddress"),
        (0x0a, "BadSignature"),
        (0x0b, "BadMeasurement"),
        (0x0c, "AsidOwned"),
        (0x0d, "InvalidAsid"),
        (0x0e, "WBINVDRequired"),
        (0x0f, "DfFlushRequired"),
        (0x10, "InvalidGuest"),
        (0x11, "InvalidCommand"),
        (0x13, "HwerrorPlatform"),
        (0x14, "HwerrorUnsafe"),
        (0x15, "Unsupported"),
        (0x16, "InvalidParam"),
        (0x17, "ResourceLimit"),
        (0x18, "SecureDataInvalid"),
        (0x1f, "RbModeExited"),
        (0x19, "InvalidPageSize"),
        (0x1a, "InvalidPageState"),
        (0x1b, "InvalidMDataEntry"),
        (0x1c, "InvalidPageOwner"),
        (0x1d, "AeadOverflow"),
        (0x20, "RmpInitRequired"),
        (0x21, "BadSvn"),
        (0x22, "BadVersion"),
        (0x23, "ShutdownRequired"),
        (0x24, "UpdateFailed"),
        (0x25, "RestoreRequired"),
        (0x26, "RmpInitFailed"),
        (0x27, "InvalidKey"),
    ];
    for (code, name) in known {
        assert_eq!(format!("{:?}", SevError::from(code)), name);
    }
    for code in 0..0x100u32 {
        let is_known = known.iter().any(|(c, _)| *c == code);
        assert_eq!(matches!(SevError::from(code), SevError::InvalidErrorCode), !is_known);
    }
    let passed_on = SevError::from(sev::error::FirmwareError::UnknownSevError(6));
    assert!(is_refusal(&passed_on, 6));
}

#[test]
fn guest_is_set_up_step_by_step() {
    let mut guest = started();
    let cpuid = [CpuidEntry { function: 1, index: 0, eax: 2, ebx: 3, ecx: 4, edx: 5 }];
    let initrd = Some(InitrdConfig { address: GuestAddress(0x4000000), size: 0x1000 });
    let r = guest.init_firmware_and_kernel(SetupEvent::Begin, &cpuid, &initrd).unwrap();
    assert!(matches!(r, SetupAction::LoadFirmware { address } if address == GuestAddress(0x100000)));
    let r = guest.init_firmware_and_kernel(SetupEvent::FirmwareLoaded(0x1801), &cpuid, &initrd);
    match r.unwrap() {
        SetupAction::InsertCpuid(insertion) => {
            assert_eq!(insertion.page.address, GuestAddress(0x1000));
            assert_eq!(insertion.page.bytes, cpuid::cpuid_page(&cpuid));
            assert_eq!(
                insertion.update,
                LaunchUpdate {
                    guest_addr: GuestAddress(0x1000),
                    gfn: 1,
                    gpa: 0x1000,
                    len: 0x1000,
                    page_type: PageType::Cpuid,
                }
            );
        },
        other => panic!("{:?}", other),
    }
    let r = guest.init_firmware_and_kernel(SetupEvent::CpuidInserted(Ok(())), &cpuid, &initrd);
    match r.unwrap() {
        SetupAction::InsertSecrets(update) => {
            assert_eq!((update.gpa, update.len), (0x3200000, 0x1000));
            assert_eq!(update.gfn, 0x3200);
            assert_eq!(update.page_type, PageType::Secrets);
        },
        other => panic!("{:?}", other),
    }
    let r = guest.init_firmware_and_kernel(SetupEvent::SecretsInserted(Ok(())), &cpuid, &initrd);
    assert!(matches!(r.unwrap(), SetupAction::Finished));
    let shared = guest.register_shared_regions();
    let expected = [(0x3e00000, 0x200000), (0xc00000, 0x200000), (0xe00000, 0x200000)];
    assert_eq!(shared.len(), 3);
    for (attributes, (address, size)) in shared.iter().zip(expected) {
        assert_eq!(*attributes, MemoryAttributes { address, size, attributes: 0, flags: 0 });
    }
    let update = guest.measure_regions(MeasureEvent::Begin).unwrap().unwrap();
    assert_eq!((update.gfn, update.len, update.page_type), (0x100, 0x2000, PageType::Normal));
    assert!(guest.measure_regions(MeasureEvent::Updated(Ok(()))).unwrap().is_none());
}

#[test]
fn cpuid_page_is_tried_twice() {
    let mut guest = started();
    let event = SetupEvent::CpuidInserted(refused(1));
    match guest.init_firmware_and_kernel(event, &[], &None).unwrap() {
        SetupAction::RetryCpuid(update) => assert_eq!(update.gpa, 0x1000),
        other => panic!("{:?}", other),
    }
    let event = SetupEvent::CpuidRetried(Ok(()));
    let r = guest.init_firmware_and_kernel(event, &[], &None);
    assert!(matches!(r.unwrap(), SetupAction::InsertSecrets(_)));
    let event = SetupEvent::CpuidRetried(refused(2));
    let e = guest.init_firmware_and_kernel(event, &[], &None).unwrap_err();
    assert!(is_refusal(&e, 2));
    let event = SetupEvent::SecretsInserted(refused(3));
    let e = guest.init_firmware_and_kernel(event, &[], &None).unwrap_err();
    assert!(is_refusal(&e, 3));
    assert!(guest.register_shared_regions().is_empty());
}

#[test]
fn refused_cpuid_page_is_asked_for_once_more() {
    let guest = started();
    let insertion = guest.snp_insert_cpuid_page(&[]);
    let again = guest.cpuid_page_reply(false, refused(1)).unwrap();
    assert_eq!(again, Some(insertion.update));
    assert!(is_refusal(&guest.cpuid_page_reply(true, refused(2)).unwrap_err(), 2));
    assert_eq!(guest.cpuid_page_reply(false, Ok(())).unwrap(), None);
    assert_eq!(guest.cpuid_page_reply(true, Ok(())).unwrap(), None);
}

#[test]
fn regions_are_measured_from_the_last_on() {
    let mut guest = started();
    guest.add_measured_region(GuestAddress(0x1000), 1);
    guest.add_measured_region(GuestAddress(0x5800), 0x1000);
    assert!(guest.can_measure_next());
    let update = guest.measure_regions(MeasureEvent::Begin).unwrap().unwrap();
    assert_eq!((update.guest_addr, update.gfn), (GuestAddress(0x5000), 5));
    assert_eq!((update.gpa, update.len), (0x5000, 0x2000));
    let update = guest.measure_regions(MeasureEvent::Updated(Ok(()))).unwrap().unwrap();
    assert_eq!((update.gpa, update.len), (0x1000, 0x1000));
    assert!(guest.measure_regions(MeasureEvent::Updated(Ok(()))).unwrap().is_none());
    assert!(guest.measure_regions(MeasureEvent::Begin).unwrap().is_none());
    guest.add_measured_region(GuestAddress(0x1000), 1);
    let e = guest.measure_regions(MeasureEvent::Updated(refused(4))).unwrap_err();
    assert!(is_refusal(&e, 4));
    assert!(guest.measure_regions(MeasureEvent::Begin).unwrap().is_some());
    guest.add_measured_region(GuestAddress(0), 1 << 32);
    assert!(!guest.can_measure_next());
}

#[test]
fn shared_memory_is_registered_after_private_memory() {
    let mut guest = started();
    let map = [
        E820Entry { addr: 0, size: 0x9fc00 },
        E820Entry { addr: 0x100000, size: 0x8000000 },
        E820Entry { addr: 0xf0000000, size: 1 },
    ];
    guest.add_ram_regions(&map, 2);
    guest.add_shared_region(GuestAddress(0x200010), 0x10);
    let request = guest.snp_launch_finish();
    assert_eq!(
        request.attributes,
        [
            MemoryAttributes { address: 0x100000, size: 0x8000000, attributes: 8, flags: 0 },
            MemoryAttributes { address: 0, size: 0xa0000, attributes: 8, flags: 0 },
            MemoryAttributes { address: 0x200000, size: 0x1000, attributes: 0, flags: 0 },
        ]
    );
    assert_eq!(request.host_data, [0u8; 32]);
    assert!(guest.register_ram_regions().is_empty());
    let launched = guest.launch_finished(Ok(())).unwrap();
    assert_eq!(launched.original_config, config());
    let e = started().launch_finished(refused(5)).unwrap_err();
    assert!(is_refusal(&e, 5));
}

#[test]
fn running_guest_changes_its_pages() {
    let guest: Sev = started().launch_finished(Ok(())).unwrap();
    let private = guest.exit_set_page_state(GuestAddress(0x5678), 3, 0x10);
    assert_eq!(
        private,
        MemoryAttributes { address: 0x5000, size: 0x3000, attributes: 8, flags: 0 }
    );
    let shared = guest.exit_set_page_state(GuestAddress(0x200000), 512, 1);
    assert_eq!(
        shared,
        MemoryAttributes { address: 0x200000, size: 0x200000, attributes: 0, flags: 0 }
    );
    let mut block = vec![0u8; 0xffe];
    block[0x800] = 1;
    block[0x810] = 0xee;
    let reply = Sev::handle_vmgexit(0x1000, &block);
    assert_eq!(reply.address, GuestAddress(0x1800));
    assert_eq!(reply.bytes, block[0x800..0xff0].to_vec());
}
