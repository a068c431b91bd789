//! The launch of an SNP guest: what is asked of the platform, in which order, and which guest
//! memory is measured, shared or private.
//!
//! The platform is reached by the caller: a step of the launch says what to do next and is told
//! what came of it.

use vstd::prelude::*;

use crate::cpuid::{self, CpuidEntry};
use crate::ghcb;
use crate::layout::{
    PageType, CPUID_PAGE_ADDR, CPUID_PAGE_LEN, FIRMWARE_ADDR, GHCB_ADDR_ELF, KERNEL_BOUNCE_BUFFER,
    KERNEL_BOUNCE_BUFFER_LEN, SECRETS_PAGE_ADDR, SECRETS_PAGE_LEN,
};
use crate::memory::{
    self, E820Entry, GuestAddress, GuestWrite, InitrdConfig, MemoryAttributes, MemoryRegion,
    MEMORY_ATTRIBUTE_PRIVATE, PAGE_SIZE, PAGE_SIZE_2MB,
};
use crate::time::TimestampUs;
use crate::vmm::vmm_config::sev_config::SevConfig;

pub use crate::platform::{Error, State};

verus! {

/// SEV platform errors
#[derive(Debug)]
pub enum SevError {
    /// The device of the SEV firmware cannot be opened
    FailedToOpenFirmware,
    /// The platform state is invalid for this command
    InvalidPlatformState,
    /// The guest state is invalid for this command
    InvalidGuestState,
    /// The platform configuration is invalid
    InvalidConfig,
    /// A memory buffer is too small
    InvalidLength,
    /// The platform is already owned
    AlreadyOwned,
    /// The certificate is invalid
    InvalidCertificate,
    /// Request is not allowed by guest policy
    PolicyFailure,
    /// The guest is inactive
    Inactive,
    /// The address provided is inactive
    InvalidAddress,
    /// The provided signature is invalid
    BadSignature,
    /// The provided measurement is invalid
    BadMeasurement,
    /// The ASID is already owned
    AsidOwned,
    /// The ASID is invalid
    InvalidAsid,
    /// WBINVD instruction required
    WBINVDRequired,
    /// DF_FLUSH invocation required
    DfFlushRequired,
    /// The guest handle is invalid
    InvalidGuest,
    /// The command issued is invalid
    InvalidCommand,
    /// A hardware condition has occurred affecting the platform. It is safe to re-allocate parameter buffers
    HwerrorPlatform,
    /// A hardware condition has occurred affecting the platform. Re-allocating parameter buffers is not safe
    HwerrorUnsafe,
    /// Feature is unsupported
    Unsupported,
    /// A parameter is invalid
    InvalidParam,
    /// The SEV FW has run out of a resource necessary to complete the command
    ResourceLimit,
    /// The part-specific SEV data failed integrity checks
    SecureDataInvalid,
    /// A mailbox mode command was sent while the SEV FW was in Ring Buffer mode.
    RbModeExited,
    /// The RMP page size is incorrect
    InvalidPageSize,
    /// The RMP page state is incorrect
    InvalidPageState,
    /// The metadata entry is invalid
    InvalidMDataEntry,
    /// The page ownership is incorrect
    InvalidPageOwner,
    /// The AEAD algorithm would have overflowed
    AeadOverflow,
    /// The RMP must be reinitialized
    RmpInitRequired,
    /// SVN of provided image is lower than the committed SVN
    BadSvn,
    /// Firmware version anti-rollback
    BadVersion,
    /// An invocation of SNP_SHUTDOWN is required to complete this action
    ShutdownRequired,
    /// Update of the firmware internal state or a guest context page has failed
    UpdateFailed,
    /// Installation of the committed firmware image required
    RestoreRequired,
    /// The RMP initialization failed
    RmpInitFailed,
    /// The key requested is invalid, not present, or not allowed
    InvalidKey,
    /// The error code returned by the SEV device is not valid
    InvalidErrorCode,
    /// Other error code
    Errno(i32),
    /// The SEV firmware has failed
    FirmwareError(::sev::error::FirmwareError),
}

/// SEV result return type
pub type SevResult<T> = std::result::Result<T, SevError>;

impl SevError {
    /// The error with the number `code`.
    pub open spec fn of_code(code: u32) -> SevError {
        match code {
            0x01 => SevError::InvalidPlatformState,
            0x02 => SevError::InvalidGuestState,
            0x03 => SevError::InvalidConfig,
            0x04 => SevError::InvalidLength,
            0x05 => SevError::AlreadyOwned,
            0x06 => SevError::InvalidCertificate,
            0x07 => SevError::PolicyFailure,
            0x08 => SevError::Inactive,
            0x09 => SevError::InvalidAddress,
            0x0a => SevError::BadSignature,
            0x0b => SevError::BadMeasurement,
            0x0c => SevError::AsidOwned,
            0x0d => SevError::InvalidAsid,
            0x0e => SevError::WBINVDRequired,
            0x0f => SevError::DfFlushRequired,
            0x10 => SevError::InvalidGuest,
            0x11 => SevError::InvalidCommand,
            0x13 => SevError::HwerrorPlatform,
            0x14 => SevError::HwerrorUnsafe,
            0x15 => SevError::Unsupported,
            0x16 => SevError::InvalidParam,
            0x17 => SevError::ResourceLimit,
            0x18 => SevError::SecureDataInvalid,
            0x1f => SevError::RbModeExited,
            0x19 => SevError::InvalidPageSize,
            0x1a => SevError::InvalidPageState,
            0x1b => SevError::InvalidMDataEntry,
            0x1c => SevError::InvalidPageOwner,
            0x1d => SevError::AeadOverflow,
            0x20 => SevError::RmpInitRequired,
            0x21 => SevError::BadSvn,
            0x22 => SevError::BadVersion,
            0x23 => SevError::ShutdownRequired,
            0x24 => SevError::UpdateFailed,
            0x25 => SevError::RestoreRequired,
            0x26 => SevError::RmpInitFailed,
            0x27 => SevError::InvalidKey,
            _ => SevError::InvalidErrorCode,
        }
    }
}

impl From<u32> for SevError {
    fn from(code: u32) -> (e: SevError) {
        match code {
            0x01 => SevError::InvalidPlatformState,
            0x02 => SevError::InvalidGuestState,
            0x03 => SevError::InvalidConfig,
            0x04 => SevError::InvalidLength,
            0x05 => SevError::AlreadyOwned,
            0x06 => SevError::InvalidCertificate,
            0x07 => SevError::PolicyFailure,
            0x08 => SevError::Inactive,
            0x09 => SevError::InvalidAddress,
            0x0a => SevError::BadSignature,
            0x0b => SevError::BadMeasurement,
            0x0c => SevError::AsidOwned,
            0x0d => SevError::InvalidAsid,
            0x0e => SevError::WBINVDRequired,
            0x0f => SevError::DfFlushRequired,
            0x10 => SevError::InvalidGuest,
            0x11 => SevError::InvalidCommand,
            0x13 => SevError::HwerrorPlatform,
            0x14 => SevError::HwerrorUnsafe,
            0x15 => SevError::Unsupported,
            0x16 => SevError::InvalidParam,
            0x17 => SevError::ResourceLimit,
            0x18 => SevError::SecureDataInvalid,
            0x1f => SevError::RbModeExited,
            0x19 => SevError::InvalidPageSize,
            0x1a => SevError::InvalidPageState,
            0x1b => SevError::InvalidMDataEntry,
            0x1c => SevError::InvalidPageOwner,
            0x1d => SevError::AeadOverflow,
            0x20 => SevError::RmpInitRequired,
            0x21 => SevError::BadSvn,
            0x22 => SevError::BadVersion,
            0x23 => SevError::ShutdownRequired,
            0x24 => SevError::UpdateFailed,
            0x25 => SevError::RestoreRequired,
            0x26 => SevError::RmpInitFailed,
            0x27 => SevError::InvalidKey,
            _ => SevError::InvalidErrorCode,
        }
    }
}

impl vstd::std_specs::convert::FromSpecImpl<u32> for SevError {
    open spec fn obeys_from_spec() -> bool {
        true
    }

    open spec fn from_spec(code: u32) -> SevError {
        SevError::of_code(code)
    }
}

impl From<::sev::error::FirmwareError> for SevError {
    fn from(value: ::sev::error::FirmwareError) -> (e: SevError) {
        SevError::FirmwareError(value)
    }
}

impl vstd::std_specs::convert::FromSpecImpl<::sev::error::FirmwareError> for SevError {
    open spec fn obeys_from_spec() -> bool {
        true
    }

    open spec fn from_spec(value: ::sev::error::FirmwareError) -> SevError {
        SevError::FirmwareError(value)
    }
}

/// Every number that stands for an error stands for one of its own.
pub proof fn error_codes_are_distinct(a: u32, b: u32)
    requires
        SevError::of_code(a) != SevError::InvalidErrorCode,
        SevError::of_code(a) == SevError::of_code(b),
    ensures
        a == b,
{
}

/// What came of a request to the SEV firmware.
pub type FirmwareReply = std::result::Result<(), ::sev::error::FirmwareError>;

/// The answer to the caller for what came of a request to the SEV firmware.
pub open spec fn answer(reply: FirmwareReply) -> SevResult<()> {
    match reply {
        Ok(()) => Ok(()),
        Err(e) => Err(SevError::FirmwareError(e)),
    }
}

/// The answer to the caller for what came of a request to the SEV firmware.
pub fn firmware_answer(reply: FirmwareReply) -> (r: SevResult<()>)
    ensures
        r == answer(reply),
{
    match reply {
        Ok(()) => Ok(()),
        Err(e) => Err(SevError::from(e)),
    }
}

/// The policy of a guest in the form that the firmware takes: bits 16 and 19 say whether
/// simultaneous multithreading and debugging are allowed, bit 17 is always set, all others are not.
pub open spec fn policy_bits(debug_allowed: bool, smt_allowed: bool) -> int {
    0x20000 + (if smt_allowed {
        0x10000int
    } else {
        0
    }) + (if debug_allowed {
        0x80000int
    } else {
        0
    })
}

/// The default `sev::firmware::guest::GuestPolicy`, with `set_debug_allowed` and `set_smt_allowed`
/// called on it, as a number: its reserved bit is set by the conversion, and no other bit than
/// those for debugging and multithreading is.
#[verifier::external_body]
fn guest_policy(debug_allowed: bool, smt_allowed: bool) -> (policy: u64)
    ensures
        policy == policy_bits(debug_allowed, smt_allowed),
{
    let mut policy = ::sev::firmware::guest::GuestPolicy::default();
    policy.set_debug_allowed(debug_allowed);
    policy.set_smt_allowed(smt_allowed);
    u64::from(policy)
}

/// The launch of a guest that has not been started on the platform.
#[derive(Debug)]
pub struct SevLaunch {
    config: SevConfig,
    timestamp: TimestampUs,
}

/// What a step of the start of a guest was told.
#[derive(Debug)]
pub enum InitEvent {
    /// The launch begins
    Begin,
    /// Hypercalls of the guest are forwarded
    HypercallExitEnabled,
    /// The device of the firmware was opened, or could not be
    FirmwareOpened(bool),
    /// The platform was reset
    PlatformReset,
    /// The guest was created on the platform, or was refused
    LauncherCreated(FirmwareReply),
    /// The launch was started on the platform, or was refused
    Started(FirmwareReply),
}

/// What is to be done next to start a guest.
#[derive(Clone, Copy, Debug, PartialEq, Eq, Structural)]
pub enum InitAction {
    /// Have the hypercalls in the mask forwarded
    EnableHypercallExit { mask: u64 },
    /// Open the device of the firmware
    OpenFirmware,
    /// Reset the platform
    ResetPlatform,
    /// Create the guest on the platform
    CreateLauncher,
    /// Start the launch with a policy, and no workarounds for the guest
    Start { policy: u64 },
    /// The guest is started
    Finished,
}

/// The hypercalls that are forwarded: the one with which a guest changes the state of its pages.
pub const MAP_GPA_RANGE_MASK: u64 = 0x1000;

/// What follows on `event` when a guest is started.
pub open spec fn init_step(event: InitEvent) -> SevResult<InitAction> {
    match event {
        InitEvent::Begin => Ok(InitAction::EnableHypercallExit { mask: MAP_GPA_RANGE_MASK }),
        InitEvent::HypercallExitEnabled => Ok(InitAction::OpenFirmware),
        InitEvent::FirmwareOpened(true) => Ok(InitAction::ResetPlatform),
        InitEvent::FirmwareOpened(false) => Err(SevError::FailedToOpenFirmware),
        InitEvent::PlatformReset => Ok(InitAction::CreateLauncher),
        InitEvent::LauncherCreated(Ok(())) => Ok(
            InitAction::Start { policy: policy_bits(true, true) as u64 },
        ),
        InitEvent::LauncherCreated(Err(e)) => Err(SevError::FirmwareError(e)),
        InitEvent::Started(Ok(())) => Ok(InitAction::Finished),
        InitEvent::Started(Err(e)) => Err(SevError::FirmwareError(e)),
    }
}

impl SevLaunch {
    pub closed spec fn settings(self) -> SevConfig {
        self.config
    }

    pub closed spec fn began(self) -> TimestampUs {
        self.timestamp
    }

    /// The launch of a guest with the settings `config`, which began at `timestamp`.
    pub fn new(config: SevConfig, timestamp: TimestampUs) -> (launch: SevLaunch)
        ensures
            launch.settings() == config,
            launch.began() == timestamp,
    {
        SevLaunch { config, timestamp }
    }

    /// Initialize SEV-SNP platform, step by step: what is to be done next.
    pub fn snp_init(&self, event: InitEvent) -> (r: SevResult<InitAction>)
        ensures
            r == init_step(event),
    {
        match event {
            InitEvent::Begin => Ok(InitAction::EnableHypercallExit { mask: MAP_GPA_RANGE_MASK }),
            InitEvent::HypercallExitEnabled => Ok(InitAction::OpenFirmware),
            InitEvent::FirmwareOpened(opened) => if opened {
                Ok(InitAction::ResetPlatform)
            } else {
                Err(SevError::FailedToOpenFirmware)
            },
            InitEvent::PlatformReset => Ok(InitAction::CreateLauncher),
            InitEvent::LauncherCreated(reply) => match reply {
                Ok(()) => Ok(InitAction::Start { policy: guest_policy(true, true) }),
                Err(e) => Err(SevError::from(e)),
            },
            InitEvent::Started(reply) => match reply {
                Ok(()) => Ok(InitAction::Finished),
                Err(e) => Err(SevError::from(e)),
            },
        }
    }

    /// The guest once the launch was started on the platform.
    pub fn snp_launch_start(self) -> (started: SevStarted)
        ensures
            started@ == (SevStartedView {
                config: self.settings(),
                timestamp: self.began(),
                measured_regions: Seq::empty(),
                shared_regions: Seq::empty(),
                ram_regions: Seq::empty(),
            }),
    {
        SevStarted {
            config: self.config,
            timestamp: self.timestamp,
            measured_regions: Vec::new(),
            shared_regions: Vec::new(),
            ram_regions: Vec::new(),
        }
    }
}

/// A guest that is being launched.
#[derive(Debug)]
pub struct SevStarted {
    config: SevConfig,
    timestamp: TimestampUs,
    measured_regions: Vec<MemoryRegion>,
    shared_regions: Vec<MemoryRegion>,
    ram_regions: Vec<MemoryRegion>,
}

/// What is known of a guest that is being launched.
#[verifier::ext_equal]
pub struct SevStartedView {
    pub config: SevConfig,
    pub timestamp: TimestampUs,
    /// Regions to pre-encrypt
    pub measured_regions: Seq<MemoryRegion>,
    /// Regions that should be marked shared in the RMP
    pub shared_regions: Seq<MemoryRegion>,
    /// Regions that should be marked private in the RMP
    pub ram_regions: Seq<MemoryRegion>,
}

impl View for SevStarted {
    type V = SevStartedView;

    closed spec fn view(&self) -> SevStartedView {
        SevStartedView {
            config: self.config,
            timestamp: self.timestamp,
            measured_regions: self.measured_regions@,
            shared_regions: self.shared_regions@,
            ram_regions: self.ram_regions@,
        }
    }
}

/// Whether all of `regions` consist of whole pages.
pub open spec fn all_page_aligned(regions: Seq<MemoryRegion>) -> bool {
    forall|i: int| 0 <= i < regions.len() ==> (#[trigger] regions[i]).is_page_aligned()
}

/// Pages to add to a guest.
#[derive(Clone, Copy, Debug, PartialEq, Eq, Structural)]
pub struct LaunchUpdate {
    /// Where the contents are found
    pub guest_addr: GuestAddress,
    /// The number of the first page
    pub gfn: u64,
    /// The address of the first page
    pub gpa: u64,
    pub len: u32,
    pub page_type: PageType,
}

/// The request to add `len` bytes at `guest_addr`.
pub open spec fn update_of(guest_addr: GuestAddress, len: u32, page_type: PageType) -> LaunchUpdate {
    LaunchUpdate {
        guest_addr,
        gfn: (guest_addr.0 as int / PAGE_SIZE as int) as u64,
        gpa: guest_addr.0,
        len,
        page_type,
    }
}

impl SevStartedView {
    /// What is promised of the guest at all times: every region consists of whole pages.
    pub open spec fn inv(self) -> bool {
        &&& all_page_aligned(self.measured_regions)
        &&& all_page_aligned(self.shared_regions)
        &&& all_page_aligned(self.ram_regions)
    }

    /// The guest with one more region to pre-encrypt.
    pub open spec fn measuring(self, start: GuestAddress, len: u64) -> SevStartedView {
        SevStartedView {
            measured_regions: self.measured_regions.push(MemoryRegion::page_aligned(start, len)),
            ..self
        }
    }

    /// The guest with one more shared region.
    pub open spec fn sharing(self, start: GuestAddress, len: u64) -> SevStartedView {
        SevStartedView {
            shared_regions: self.shared_regions.push(MemoryRegion::page_aligned(start, len)),
            ..self
        }
    }
}

impl SevStarted {
    /// Add pre-encrypted region
    pub fn add_measured_region(&mut self, start: GuestAddress, len: u64)
        requires
            MemoryRegion::page_aligned_fits(start, len),
        ensures
            final(self)@ == old(self)@.measuring(start, len),
            old(self)@.inv() ==> final(self)@.inv(),
    {
        self.measured_regions.push(MemoryRegion::new(start, len));
    }

    /// Add region that should be marked shared in the RMP
    pub fn add_shared_region(&mut self, start: GuestAddress, len: u64)
        requires
            MemoryRegion::page_aligned_fits(start, len),
        ensures
            final(self)@ == old(self)@.sharing(start, len),
            old(self)@.inv() ==> final(self)@.inv(),
    {
        self.shared_regions.push(MemoryRegion::new(start, len));
    }

    /// Insert region of guest pages into guest physical memory
    fn snp_launch_update(&self, guest_addr: GuestAddress, len: u32, page_type: PageType) -> (update:
        LaunchUpdate)
        requires
            guest_addr.0 % PAGE_SIZE == 0,
            len as u64 % PAGE_SIZE == 0,
        ensures
            update == update_of(guest_addr, len, page_type),
    {
        proof {
            memory::page_size_is_power_of_two();
        }
        //extract guest frame number
        let gpa: u64 = memory::align_down(guest_addr.0, PAGE_SIZE);
        let gfn: u64 = gpa >> 12;
        assert(gpa >> 12 == gpa / 0x1000) by (bit_vector);
        assert((gpa >> 12) << 12 == gpa - gpa % 0x1000) by (bit_vector);
        LaunchUpdate { guest_addr, gfn, gpa: gfn << 12, len, page_type }
    }

    /// Insert secrets page
    pub fn snp_insert_secrets_page(&self) -> (update: LaunchUpdate)
        ensures
            update == update_of(
                GuestAddress(SECRETS_PAGE_ADDR),
                SECRETS_PAGE_LEN,
                PageType::Secrets,
            ),
    {
        self.snp_launch_update(GuestAddress(SECRETS_PAGE_ADDR), SECRETS_PAGE_LEN, PageType::Secrets)
    }
}

/// The CPUID page and the request to add it.
#[derive(Debug)]
pub struct CpuidInsertion {
    /// What is written to guest memory first
    pub page: GuestWrite,
    pub update: LaunchUpdate,
}

/// The request to add the CPUID page.
pub open spec fn cpuid_update() -> LaunchUpdate {
    update_of(GuestAddress(CPUID_PAGE_ADDR), CPUID_PAGE_LEN, PageType::Cpuid)
}

/// What follows on the reply to the request to add the CPUID page: the page, in which the platform
/// has corrected the values, is tried a second time if it is refused, and only the second refusal is
/// passed on.
pub open spec fn cpuid_answer(second_attempt: bool, reply: FirmwareReply) -> SevResult<
    Option<LaunchUpdate>,
> {
    match reply {
        Ok(()) => Ok(None),
        Err(e) => if second_attempt {
            Err(SevError::FirmwareError(e))
        } else {
            Ok(Some(cpuid_update()))
        },
    }
}

/// The request to add the secrets page.
pub open spec fn secrets_update() -> LaunchUpdate {
    update_of(GuestAddress(SECRETS_PAGE_ADDR), SECRETS_PAGE_LEN, PageType::Secrets)
}

/// The request to add a region that is measured.
pub open spec fn region_update(region: MemoryRegion) -> LaunchUpdate {
    update_of(region.start, region.len as u32, PageType::Normal)
}

/// What a step of the measurement was told.
#[derive(Debug)]
pub enum MeasureEvent {
    /// The measurement begins
    Begin,
    /// The last region was added, or was refused
    Updated(FirmwareReply),
}

/// What follows on `event` when `regions` are still to be measured: the last of them is added next,
/// or there is nothing left to do; unless the region before was refused.
pub open spec fn measure_step(regions: Seq<MemoryRegion>, event: MeasureEvent) -> SevResult<
    Option<LaunchUpdate>,
> {
    match event {
        MeasureEvent::Updated(Err(e)) => Err(SevError::FirmwareError(e)),
        _ => Ok(
            if regions.len() == 0 {
                None
            } else {
                Some(region_update(regions.last()))
            },
        ),
    }
}

/// What is left of `regions` after such a step.
pub open spec fn measure_rest(regions: Seq<MemoryRegion>, event: MeasureEvent) -> Seq<MemoryRegion> {
    match event {
        MeasureEvent::Updated(Err(e)) => regions,
        _ => if regions.len() == 0 {
            regions
        } else {
            regions.drop_last()
        },
    }
}

/// The regions of the first `count` entries of a memory map.
pub open spec fn map_regions(entries: Seq<E820Entry>, count: nat) -> Seq<MemoryRegion> {
    Seq::new(
        count,
        |i: int| MemoryRegion::page_aligned(GuestAddress(entries[i].addr), entries[i].size),
    )
}

/// What is to be done to finish a launch.
#[derive(Debug)]
pub struct FinishRequest {
    /// The memory attributes to set first, in this order
    pub attributes: Vec<MemoryAttributes>,
    /// What the platform is told of the guest when the launch is then finished
    pub host_data: [u8; 32],
}

impl SevStartedView {
    /// The attributes for all of the guest's memory, private memory first.
    pub open spec fn all_attributes(self) -> Seq<MemoryAttributes> {
        memory::attributes_of(self.ram_regions, MEMORY_ATTRIBUTE_PRIVATE) + memory::attributes_of(
            self.shared_regions,
            0,
        )
    }

    /// The guest without regions that are still to be registered.
    pub open spec fn all_registered(self) -> SevStartedView {
        SevStartedView { ram_regions: Seq::empty(), shared_regions: Seq::empty(), ..self }
    }

    /// The guest when the pages that it shares for its boot have been added.
    pub open spec fn sharing_boot_regions(self) -> SevStartedView {
        self.sharing(GuestAddress(KERNEL_BOUNCE_BUFFER), KERNEL_BOUNCE_BUFFER_LEN).sharing(
            GuestAddress(GHCB_ADDR_ELF),
            PAGE_SIZE_2MB,
        )
    }

    /// The guest when the plain text of its ramdisk, if it has one, has been added to what it
    /// shares.
    pub open spec fn sharing_initrd(self, initrd: Option<InitrdConfig>) -> SevStartedView {
        match initrd {
            Some(i) => SevStartedView {
                shared_regions: self.shared_regions.push(i.plain_text()),
                ..self
            },
            None => self,
        }
    }
}

impl SevStarted {
    /// Insert CPUID page: what is written and the request to make. `cpuid_page_reply` says what
    /// follows on the reply.
    pub fn snp_insert_cpuid_page(&self, entries: &[CpuidEntry]) -> (insertion: CpuidInsertion)
        ensures
            insertion.page@ == (GuestAddress(CPUID_PAGE_ADDR), cpuid::page(entries@)),
            insertion.update == cpuid_update(),
    {
        CpuidInsertion {
            page: GuestWrite {
                address: GuestAddress(CPUID_PAGE_ADDR),
                bytes: cpuid::cpuid_page(entries),
            },
            update: self.snp_launch_update(
                GuestAddress(CPUID_PAGE_ADDR),
                CPUID_PAGE_LEN,
                PageType::Cpuid,
            ),
        }
    }

    /// What follows on the reply to the request to add the CPUID page: the request to make again,
    /// `None` if the page is there, or the refusal.
    pub fn cpuid_page_reply(&self, second_attempt: bool, reply: FirmwareReply) -> (r: SevResult<
        Option<LaunchUpdate>,
    >)
        ensures
            r == cpuid_answer(second_attempt, reply),
    {
        match reply {
            Ok(()) => Ok(None),
            Err(e) => {
                if second_attempt {
                    return Err(SevError::from(e));
                }
                // the platform has filtered the entries, and they are encrypted again here
                Ok(
                    Some(
                        self.snp_launch_update(
                            GuestAddress(CPUID_PAGE_ADDR),
                            CPUID_PAGE_LEN,
                            PageType::Cpuid,
                        ),
                    ),
                )
            },
        }
    }

    /// Whether the region that is measured next, if there is one, has a length that fits.
    pub fn can_measure_next(&self) -> (ok: bool)
        ensures
            ok == (self@.measured_regions.len() > 0 ==> self@.measured_regions.last().len
                <= u32::MAX),
    {
        self.measured_regions.len() == 0 || self.measured_regions[self.measured_regions.len()
            - 1].len <= u32::MAX as u64
    }

    /// Call LAUNCH_UPDATE on all regions, step by step: the region to add next, or `None` when all
    /// have been added.
    pub fn measure_regions(&mut self, event: MeasureEvent) -> (r: SevResult<Option<LaunchUpdate>>)
        requires
            old(self)@.inv(),
            measure_step(old(self)@.measured_regions, event) matches Ok(Some(u)) ==> old(
                self,
            )@.measured_regions.last().len <= u32::MAX,
        ensures
            r == measure_step(old(self)@.measured_regions, event),
            final(self)@ == (SevStartedView {
                measured_regions: measure_rest(old(self)@.measured_regions, event),
                ..old(self)@
            }),
            final(self)@.inv(),
    {
        match event {
            MeasureEvent::Updated(Err(e)) => {
                return Err(SevError::from(e));
            },
            _ => {},
        }
        match self.measured_regions.pop() {
            None => Ok(None),
            Some(region) => {
                assert(old(self)@.measured_regions.last() == region);
                Ok(Some(self.snp_launch_update(region.start, region.len as u32, PageType::Normal)))
            },
        }
    }

    /// Add ram regions to be marked private in RMP
    pub fn add_ram_regions(&mut self, entries: &[E820Entry], count: usize)
        requires
            count <= entries@.len(),
            forall|i: int|
                0 <= i < count ==> MemoryRegion::page_aligned_fits(
                    GuestAddress((#[trigger] entries@[i]).addr),
                    entries@[i].size,
                ),
        ensures
            final(self)@ == (SevStartedView {
                ram_regions: old(self)@.ram_regions + map_regions(entries@, count as nat),
                ..old(self)@
            }),
            old(self)@.inv() ==> final(self)@.inv(),
    {
        let mut i: usize = 0;
        while i < count
            invariant
                i <= count <= entries@.len(),
                forall|i: int|
                    0 <= i < count ==> MemoryRegion::page_aligned_fits(
                        GuestAddress((#[trigger] entries@[i]).addr),
                        entries@[i].size,
                    ),
                self@ == (SevStartedView {
                    ram_regions: old(self)@.ram_regions + map_regions(entries@, i as nat),
                    ..old(self)@
                }),
                old(self)@.inv() ==> self@.inv(),
            decreases count - i,
        {
            let entry: E820Entry = entries[i];
            self.ram_regions.push(MemoryRegion::new(GuestAddress(entry.addr), entry.size));
            i += 1;
            assert(self@.ram_regions =~= old(self)@.ram_regions + map_regions(entries@, i as nat));
        }
        assert(self@.ram_regions =~= old(self)@.ram_regions + map_regions(entries@, count as nat));
    }

    /// Register ram regions for snp: the attributes to set, in this order.
    pub fn register_ram_regions(&mut self) -> (out: Vec<MemoryAttributes>)
        requires
            old(self)@.inv(),
        ensures
            out@ == memory::attributes_of(old(self)@.ram_regions, MEMORY_ATTRIBUTE_PRIVATE),
            final(self)@ == (SevStartedView { ram_regions: Seq::empty(), ..old(self)@ }),
            final(self)@.inv(),
    {
        let mut out: Vec<MemoryAttributes> = Vec::new();
        let ghost all = self@.ram_regions;
        while self.ram_regions.len() > 0
            invariant
                all_page_aligned(all),
                self@.ram_regions.len() <= all.len(),
                self@ == (SevStartedView { ram_regions: self@.ram_regions, ..old(self)@ }),
                self@.ram_regions == all.take(self@.ram_regions.len() as int),
                out@ == memory::attributes_of(all, MEMORY_ATTRIBUTE_PRIVATE).take(
                    all.len() - self@.ram_regions.len(),
                ),
            decreases self@.ram_regions.len(),
        {
            proof {
                memory::page_size_is_power_of_two();
            }
            match self.ram_regions.pop() {
                Some(e) => {
                    out.push(
                        MemoryAttributes {
                            address: e.start.0,
                            size: memory::align_up(e.len, PAGE_SIZE),
                            attributes: MEMORY_ATTRIBUTE_PRIVATE,
                            flags: 0,
                        },
                    );
                },
                None => {},
            }
            assert(out@ =~= memory::attributes_of(all, MEMORY_ATTRIBUTE_PRIVATE).take(
                all.len() - self@.ram_regions.len(),
            ));
        }
        out
    }

    /// Register shared regions for snp: the attributes to set, in this order.
    pub fn register_shared_regions(&mut self) -> (out: Vec<MemoryAttributes>)
        requires
            old(self)@.inv(),
        ensures
            out@ == memory::attributes_of(old(self)@.shared_regions, 0),
            final(self)@ == (SevStartedView { shared_regions: Seq::empty(), ..old(self)@ }),
            final(self)@.inv(),
    {
        memory::drain_regions(&mut self.shared_regions, 0)
    }

    /// Finish SNP launch sequence: what is to be done.
    pub fn snp_launch_finish(&mut self) -> (request: FinishRequest)
        requires
            old(self)@.inv(),
        ensures
            request.attributes@ == old(self)@.all_attributes(),
            forall|i: int|
                0 <= i < request.attributes@.len() ==> (#[trigger] request.attributes@[i]).attributes
                    == (if i < old(self)@.ram_regions.len() {
                    8u64
                } else {
                    0
                }),
            request.host_data@ == Seq::new(32, |i: int| 0u8),
            final(self)@ == old(self)@.all_registered(),
            final(self)@.inv(),
    {
        // everything should be pre-encrypted by now so we can register memory
        let mut attributes: Vec<MemoryAttributes> = self.register_ram_regions();
        // register the shared regions after registering ram because they probably overlap
        let mut shared: Vec<MemoryAttributes> = self.register_shared_regions();
        attributes.append(&mut shared);
        let host_data: [u8; 32] = [0u8; 32];
        assert(host_data@ =~= Seq::new(32, |i: int| 0u8));
        FinishRequest { attributes, host_data }
    }

    /// The guest once the launch was finished on the platform, or was refused.
    pub fn launch_finished(self, reply: FirmwareReply) -> (r: SevResult<Sev>)
        ensures
            match reply {
                Ok(()) => r is Ok && r->Ok_0.original_config == self@.config,
                Err(e) => r == Err::<Sev, SevError>(SevError::FirmwareError(e)),
            },
    {
        match reply {
            Ok(()) => Ok(Sev { original_config: self.config }),
            Err(e) => Err(SevError::from(e)),
        }
    }

    /// Shares what the firmware and the kernel need to be shared.
    pub fn prepare_shared_regions(&mut self)
        ensures
            final(self)@ == old(self)@.sharing_boot_regions(),
            old(self)@.inv() ==> final(self)@.inv(),
    {
        // set the plain text bounce buffer for kernel elf data shared
        self.add_shared_region(GuestAddress(KERNEL_BOUNCE_BUFFER), KERNEL_BOUNCE_BUFFER_LEN);
        self.add_shared_region(GuestAddress(GHCB_ADDR_ELF), PAGE_SIZE_2MB);
    }

    /// Shares the plain text of the ramdisk, if there is one.
    pub fn share_initrd(&mut self, initrd: &Option<InitrdConfig>) -> (r: SevResult<()>)
        requires
            initrd matches Some(i) ==> i.has_room(),
        ensures
            r is Ok,
            final(self)@ == old(self)@.sharing_initrd(*initrd),
            old(self)@.inv() ==> final(self)@.inv(),
    {
        if let Some(initrd) = initrd {
            //plain text initrd will be just before its final resting place
            let region: MemoryRegion = initrd.plain_text_region();
            proof {
                memory::plain_text_is_page_aligned(*initrd);
            }
            self.add_shared_region(region.start, region.len);
        }
        Ok(())
    }

    /// Load SEV firmware: `len` bytes of it stand at their place in guest memory.
    pub fn load_firmware(&mut self, len: u64) -> (r: SevResult<()>)
        requires
            MemoryRegion::page_aligned_fits(GuestAddress(FIRMWARE_ADDR), len),
        ensures
            r is Ok,
            final(self)@ == old(self)@.measuring(GuestAddress(FIRMWARE_ADDR), len),
            old(self)@.inv() ==> final(self)@.inv(),
    {
        self.add_measured_region(GuestAddress(FIRMWARE_ADDR), len);
        Ok(())
    }
}

/// A guest that has been launched.
#[derive(Debug, Clone)]
pub struct Sev {
    pub original_config: SevConfig,
}

/// What a step of the set-up of a guest was told.
#[derive(Debug)]
pub enum SetupEvent {
    /// The set-up begins
    Begin,
    /// So many bytes of firmware stand at their place in guest memory
    FirmwareLoaded(u64),
    /// The CPUID page was added, or was refused
    CpuidInserted(FirmwareReply),
    /// The CPUID page was added at the second attempt, or was refused again
    CpuidRetried(FirmwareReply),
    /// The secrets page was added, or was refused
    SecretsInserted(FirmwareReply),
}

/// What is to be done next to set up a guest.
#[derive(Debug)]
pub enum SetupAction {
    /// Put the firmware in guest memory
    LoadFirmware { address: GuestAddress },
    /// Write the CPUID page and add it
    InsertCpuid(CpuidInsertion),
    /// Add the CPUID page, in which the platform has corrected the values
    RetryCpuid(LaunchUpdate),
    /// Add the secrets page
    InsertSecrets(LaunchUpdate),
    /// The guest is set up
    Finished,
}

impl SevStartedView {
    /// What the step does that is told `event`, to the guest and as an answer. The CPUID page is
    /// tried a second time if it is refused; what is refused otherwise ends the set-up.
    pub open spec fn setup_step(
        self,
        event: SetupEvent,
        cpuid: Seq<CpuidEntry>,
        initrd: Option<InitrdConfig>,
        next: SevStartedView,
        r: SevResult<SetupAction>,
    ) -> bool {
        match event {
            SetupEvent::Begin => next == self && (r matches Ok(SetupAction::LoadFirmware { address })
                && address == GuestAddress(FIRMWARE_ADDR)),
            SetupEvent::FirmwareLoaded(len) => next == self.measuring(
                GuestAddress(FIRMWARE_ADDR),
                len,
            ) && (r matches Ok(SetupAction::InsertCpuid(i)) && i.update == cpuid_update() && i.page@
                == (GuestAddress(CPUID_PAGE_ADDR), cpuid::page(cpuid))),
            SetupEvent::CpuidInserted(Err(_)) => next == self && r == Ok::<SetupAction, SevError>(
                SetupAction::RetryCpuid(cpuid_update()),
            ),
            SetupEvent::CpuidInserted(Ok(())) | SetupEvent::CpuidRetried(Ok(())) => next == self && r
                == Ok::<SetupAction, SevError>(SetupAction::InsertSecrets(secrets_update())),
            SetupEvent::SecretsInserted(Ok(())) => next == self.sharing_boot_regions().sharing_initrd(
                initrd,
            ) && r == Ok::<SetupAction, SevError>(SetupAction::Finished),
            SetupEvent::CpuidRetried(Err(e)) | SetupEvent::SecretsInserted(Err(e)) => next == self
                && r == Err::<SetupAction, SevError>(SevError::FirmwareError(e)),
        }
    }
}

impl SevStarted {
    /// Sets the guest up with firmware and what it needs to fetch its kernel, step by step: what is
    /// to be done next.
    pub fn init_firmware_and_kernel(
        &mut self,
        event: SetupEvent,
        cpuid: &[CpuidEntry],
        initrd: &Option<InitrdConfig>,
    ) -> (r: SevResult<SetupAction>)
        requires
            event matches SetupEvent::FirmwareLoaded(len) ==> MemoryRegion::page_aligned_fits(
                GuestAddress(FIRMWARE_ADDR),
                len,
            ),
            event matches SetupEvent::SecretsInserted(Ok(_)) ==> (initrd matches Some(i)
                ==> i.has_room()),
        ensures
            old(self)@.setup_step(event, cpuid@, *initrd, final(self)@, r),
            old(self)@.inv() ==> final(self)@.inv(),
    {
        match event {
            SetupEvent::Begin => Ok(
                SetupAction::LoadFirmware { address: GuestAddress(FIRMWARE_ADDR) },
            ),
            SetupEvent::FirmwareLoaded(len) => {
                match self.load_firmware(len) {
                    Ok(()) => Ok(SetupAction::InsertCpuid(self.snp_insert_cpuid_page(cpuid))),
                    Err(e) => Err(e),
                }
            },
            SetupEvent::CpuidInserted(reply) => match self.cpuid_page_reply(false, reply) {
                Ok(None) => Ok(SetupAction::InsertSecrets(self.snp_insert_secrets_page())),
                Ok(Some(update)) => Ok(SetupAction::RetryCpuid(update)),
                Err(e) => Err(e),
            },
            SetupEvent::CpuidRetried(reply) => match self.cpuid_page_reply(true, reply) {
                Ok(None) => Ok(SetupAction::InsertSecrets(self.snp_insert_secrets_page())),
                Ok(Some(update)) => Ok(SetupAction::RetryCpuid(update)),
                Err(e) => Err(e),
            },
            SetupEvent::SecretsInserted(reply) => match reply {
                Ok(()) => {
                    self.prepare_shared_regions();
                    match self.share_initrd(initrd) {
                        Ok(()) => Ok(SetupAction::Finished),
                        Err(e) => Err(e),
                    }
                },
                Err(e) => Err(SevError::from(e)),
            },
        }
    }

    /// The settings of the guest.
    pub fn config(&self) -> (c: &SevConfig)
        ensures
            *c == self@.config,
    {
        &self.config
    }

    /// When the launch began.
    pub fn timestamp(&self) -> (t: TimestampUs)
        ensures
            t == self@.timestamp,
    {
        self.timestamp
    }
}

/// What the guest asks for with the flags of a page state change: whether the pages become private
/// is bit 4.
pub open spec fn asks_private(flags: u64) -> bool {
    flags / 16 % 2 == 1
}

/// Whether the flags of a page state change claim two page sizes at once, in bits 0 and 1.
pub open spec fn claims_two_sizes(flags: u64) -> bool {
    flags % 4 == 3
}

/// What the memory attributes are to be for `n_pages` small pages at `gpa`.
pub open spec fn exit_page_state(gpa: GuestAddress, n_pages: u64, flags: u64) -> MemoryAttributes {
    MemoryAttributes {
        address: memory::floor_to(gpa.0 as int, PAGE_SIZE as int) as u64,
        size: (n_pages * PAGE_SIZE) as u64,
        attributes: if asks_private(flags) {
            MEMORY_ATTRIBUTE_PRIVATE
        } else {
            0
        },
        flags: 0,
    }
}

impl Sev {
    /// Answers a guest that shares its block at `ghcb_msr` and asks for no page state change there:
    /// what is to be written back.
    pub fn handle_vmgexit(ghcb_msr: u64, block: &[u8]) -> (reply: GuestWrite)
        requires
            block@.len() == ghcb::GHCB_LEN,
            ghcb::entries_in_range(ghcb::shared_buffer(block@)),
            ghcb::requested(ghcb::shared_buffer(block@)).len() == 0,
            ghcb_msr + ghcb::GHCB_SHARED_BUF_OFFSET <= u64::MAX,
        ensures
            reply@ == (
                GuestAddress((ghcb_msr + ghcb::GHCB_SHARED_BUF_OFFSET) as u64),
                ghcb::shared_buffer(block@),
            ),
            reply.address.0 == ghcb_msr + 0x800,
            reply.bytes@ == block@.subrange(0x800, 0xff0),
    {
        let exit = ghcb::handle_vmgexit(ghcb_msr, block);
        exit.reply
    }

    /// Changes the state of `n_pages` small pages at `gpa`: the attributes to set.
    pub fn exit_set_page_state(&self, gpa: GuestAddress, n_pages: u64, flags: u64) -> (attrs:
        MemoryAttributes)
        requires
            !claims_two_sizes(flags),
            n_pages * PAGE_SIZE <= u64::MAX,
        ensures
            attrs == exit_page_state(gpa, n_pages, flags),
            attrs.address % 0x1000 == 0,
            attrs.address <= gpa.0 < attrs.address + 0x1000,
            attrs.size == n_pages * 0x1000,
            attrs.attributes == (if flags & 0x10 != 0 {
                8u64
            } else {
                0
            }),
    {
        proof {
            memory::page_size_is_power_of_two();
        }
        assert((flags & 0x10 != 0) == (flags / 16 % 2 == 1)) by (bit_vector);
        let is_private: bool = flags & 0x10 != 0;
        // a large page is counted as 512 small ones
        let address: u64 = memory::align_down(gpa.0, PAGE_SIZE);
        MemoryAttributes {
            attributes: if is_private {
                MEMORY_ATTRIBUTE_PRIVATE
            } else {
                0
            },
            address,
            size: n_pages * PAGE_SIZE,
            flags: 0,
        }
    }
}

/// The requests that a measurement of `regions` makes when none of them is refused.
pub open spec fn measure_run(regions: Seq<MemoryRegion>) -> Seq<LaunchUpdate>
    decreases regions.len(),
{
    match measure_step(regions, MeasureEvent::Updated(Ok(()))) {
        Ok(Some(update)) => seq![update] + measure_run(
            measure_rest(regions, MeasureEvent::Updated(Ok(()))),
        ),
        _ => Seq::empty(),
    }
}

/// Every region is measured exactly once, and the one that was added last is measured first.
pub proof fn every_region_is_measured(regions: Seq<MemoryRegion>)
    ensures
        measure_run(regions) == Seq::new(
            regions.len(),
            |i: int| region_update(regions[regions.len() - 1 - i]),
        ),
    decreases regions.len(),
{
    let all = Seq::new(regions.len(), |i: int| region_update(regions[regions.len() - 1 - i]));
    if regions.len() > 0 {
        let rest = regions.drop_last();
        every_region_is_measured(rest);
        assert(measure_run(regions) =~= all);
    } else {
        assert(measure_run(regions) =~= all);
    }
}

/// The firmware knows its errors by these numbers, and no error by any other number.
pub proof fn errors_have_their_numbers(code: u32)
    ensures
        code == 0x01 <==> SevError::of_code(code) == SevError::InvalidPlatformState,
        code == 0x02 <==> SevError::of_code(code) == SevError::InvalidGuestState,
        code == 0x03 <==> SevError::of_code(code) == SevError::InvalidConfig,
        code == 0x04 <==> SevError::of_code(code) == SevError::InvalidLength,
        code == 0x05 <==> SevError::of_code(code) == SevError::AlreadyOwned,
        code == 0x06 <==> SevError::of_code(code) == SevError::InvalidCertificate,
        code == 0x07 <==> SevError::of_code(code) == SevError::PolicyFailure,
        code == 0x08 <==> SevError::of_code(code) == SevError::Inactive,
        code == 0x09 <==> SevError::of_code(code) == SevError::InvalidAddress,
        code == 0x0a <==> SevError::of_code(code) == SevError::BadSignature,
        code == 0x0b <==> SevError::of_code(code) == SevError::BadMeasurement,
        code == 0x0c <==> SevError::of_code(code) == SevError::AsidOwned,
        code == 0x0d <==> SevError::of_code(code) == SevError::InvalidAsid,
        code == 0x0e <==> SevError::of_code(code) == SevError::WBINVDRequired,
        code == 0x0f <==> SevError::of_code(code) == SevError::DfFlushRequired,
        code == 0x10 <==> SevError::of_code(code) == SevError::InvalidGuest,
        code == 0x11 <==> SevError::of_code(code) == SevError::InvalidCommand,
        code == 0x13 <==> SevError::of_code(code) == SevError::HwerrorPlatform,
        code == 0x14 <==> SevError::of_code(code) == SevError::HwerrorUnsafe,
        code == 0x15 <==> SevError::of_code(code) == SevError::Unsupported,
        code == 0x16 <==> SevError::of_code(code) == SevError::InvalidParam,
        code == 0x17 <==> SevError::of_code(code) == SevError::ResourceLimit,
        code == 0x18 <==> SevError::of_code(code) == SevError::SecureDataInvalid,
        code == 0x19 <==> SevError::of_code(code) == SevError::InvalidPageSize,
        code == 0x1a <==> SevError::of_code(code) == SevError::InvalidPageState,
        code == 0x1b <==> SevError::of_code(code) == SevError::InvalidMDataEntry,
        code == 0x1c <==> SevError::of_code(code) == SevError::InvalidPageOwner,
        code == 0x1d <==> SevError::of_code(code) == SevError::AeadOverflow,
        code == 0x1f <==> SevError::of_code(code) == SevError::RbModeExited,
        code == 0x20 <==> SevError::of_code(code) == SevError::RmpInitRequired,
        code == 0x21 <==> SevError::of_code(code) == SevError::BadSvn,
        code == 0x22 <==> SevError::of_code(code) == SevError::BadVersion,
        code == 0x23 <==> SevError::of_code(code) == SevError::ShutdownRequired,
        code == 0x24 <==> SevError::of_code(code) == SevError::UpdateFailed,
        code == 0x25 <==> SevError::of_code(code) == SevError::RestoreRequired,
        code == 0x26 <==> SevError::of_code(code) == SevError::RmpInitFailed,
        code == 0x27 <==> SevError::of_code(code) == SevError::InvalidKey,
        code == 0 || code == 0x12 || code == 0x1e || code > 0x27 <==> SevError::of_code(code)
            == SevError::InvalidErrorCode,
{
}


/// Success of the firmware is passed on as success, and an error as that error.
pub proof fn replies_are_passed_on(reply: FirmwareReply)
    ensures
        reply is Ok <==> answer(reply) is Ok,
        reply matches Err(e) ==> answer(reply) == Err::<(), SevError>(SevError::FirmwareError(e)),
{
}

/// A policy allows multithreading in bit 16 and debugging in bit 19, has bit 17 set, and no other.
pub proof fn policy_says_what_is_allowed(debug_allowed: bool, smt_allowed: bool)
    ensures
        debug_allowed && smt_allowed ==> policy_bits(debug_allowed, smt_allowed) == 0xb0000,
        debug_allowed && !smt_allowed ==> policy_bits(debug_allowed, smt_allowed) == 0xa0000,
        !debug_allowed && smt_allowed ==> policy_bits(debug_allowed, smt_allowed) == 0x30000,
        !debug_allowed && !smt_allowed ==> policy_bits(debug_allowed, smt_allowed) == 0x20000,
{
}

/// What follows on what when a guest is started, as long as nothing is refused: hypercalls that map
/// memory are forwarded, the device of the firmware is opened, the platform is reset, the guest is
/// created, and its launch is started with a policy that allows multithreading and debugging. The
/// first refusal ends the start with the error.
pub proof fn guest_is_started_step_by_step(reply: FirmwareReply)
    ensures
        init_step(InitEvent::Begin) == Ok::<InitAction, SevError>(
            InitAction::EnableHypercallExit { mask: 1u64 << 12 },
        ),
        init_step(InitEvent::HypercallExitEnabled) == Ok::<InitAction, SevError>(
            InitAction::OpenFirmware,
        ),
        init_step(InitEvent::FirmwareOpened(true)) == Ok::<InitAction, SevError>(
            InitAction::ResetPlatform,
        ),
        init_step(InitEvent::FirmwareOpened(false)) == Err::<InitAction, SevError>(
            SevError::FailedToOpenFirmware,
        ),
        init_step(InitEvent::PlatformReset) == Ok::<InitAction, SevError>(
            InitAction::CreateLauncher,
        ),
        reply is Ok ==> init_step(InitEvent::LauncherCreated(reply)) == Ok::<InitAction, SevError>(
            InitAction::Start { policy: 0xb0000 },
        ),
        reply is Ok ==> init_step(InitEvent::Started(reply)) == Ok::<InitAction, SevError>(
            InitAction::Finished,
        ),
        reply matches Err(e) ==> {
            let refusal = Err::<InitAction, SevError>(SevError::FirmwareError(e));
            &&& init_step(InitEvent::LauncherCreated(reply)) == refusal
            &&& init_step(InitEvent::Started(reply)) == refusal
        },
{
    assert(1u64 << 12 == 0x1000) by (bit_vector);
}

/// The request to add pages is for exactly the bytes that are asked for: the contents that the guest
/// has there, all of them, from the page on in which they start, and with the page type that is asked
/// for.
pub proof fn update_is_for_the_bytes_asked_for(
    guest_addr: GuestAddress,
    len: u32,
    page_type: PageType,
)
    ensures
        ({
            let update = update_of(guest_addr, len, page_type);
            &&& update.guest_addr == guest_addr
            &&& update.gpa == guest_addr.0
            &&& update.gfn * 0x1000 <= guest_addr.0 < (update.gfn + 1) * 0x1000
            &&& update.len == len
            &&& update.page_type == page_type
        }),
{
}

/// A measurement makes one request for each region, the region that was added last first: it is for
/// all bytes of the region, and as measured contents.
pub proof fn regions_are_measured_in_full(regions: Seq<MemoryRegion>, i: int)
    requires
        0 <= i < regions.len(),
        regions[i].len <= u32::MAX,
    ensures
        ({
            let run = measure_run(regions);
            let update = run[run.len() - 1 - i];
            let region = regions[i];
            &&& run.len() == regions.len()
            &&& update.guest_addr == region.start
            &&& update.gpa == region.start.0
            &&& update.gfn * 0x1000 <= region.start.0 < (update.gfn + 1) * 0x1000
            &&& update.len == region.len
            &&& update.page_type == PageType::Normal
        }),
{
    every_region_is_measured(regions);
    update_is_for_the_bytes_asked_for(regions[i].start, regions[i].len as u32, PageType::Normal);
}

/// A measurement goes on after a region as it began, and takes the regions away from the end of the
/// list on. It ends when none is left, or with the error at the first refusal.
pub proof fn measurement_goes_on_until_it_is_refused(
    regions: Seq<MemoryRegion>,
    e: ::sev::error::FirmwareError,
)
    ensures
        measure_step(regions, MeasureEvent::Begin) == measure_step(
            regions,
            MeasureEvent::Updated(Ok(())),
        ),
        measure_rest(regions, MeasureEvent::Begin) == measure_rest(
            regions,
            MeasureEvent::Updated(Ok(())),
        ),
        regions.len() == 0 ==> measure_step(regions, MeasureEvent::Begin) == Ok::<
            Option<LaunchUpdate>,
            SevError,
        >(None),
        regions.len() > 0 ==> measure_step(regions, MeasureEvent::Begin) matches Ok(Some(_)),
        regions.len() > 0 ==> measure_rest(regions, MeasureEvent::Begin) == regions.drop_last(),
        measure_step(regions, MeasureEvent::Updated(Err(e))) == Err::<Option<LaunchUpdate>, SevError>(
            SevError::FirmwareError(e),
        ),
        measure_rest(regions, MeasureEvent::Updated(Err(e))) == regions,
{
}

/// A region that is added to those that are measured or shared is made of the whole pages of 4 KiB
/// that its bytes touch, and nothing else that is known of the guest changes.
pub proof fn added_regions_hold_every_byte(guest: SevStartedView, start: GuestAddress, len: u64)
    requires
        start.0 % 0x1000 + len + 0xfff <= u64::MAX,
    ensures
        ({
            let measuring = guest.measuring(start, len);
            let sharing = guest.sharing(start, len);
            let region = measuring.measured_regions.last();
            &&& measuring == (SevStartedView {
                measured_regions: guest.measured_regions.push(region),
                ..guest
            })
            &&& sharing == (SevStartedView {
                shared_regions: guest.shared_regions.push(region),
                ..guest
            })
            &&& region.start.0 % 0x1000 == 0
            &&& region.len % 0x1000 == 0
            &&& region.start.0 <= start.0 < region.start.0 + 0x1000
            &&& start.0 + len <= region.start.0 + region.len < start.0 + len + 0x1000
        }),
{
    memory::touched_pages_hold_every_byte(start, len);
}

/// A guest shares for its boot the 2 MiB at 14 MiB through which a kernel is handed over and the
/// 2 MiB at 12 MiB in which its firmware puts the block that it shares with the host, behind what it
/// shared before, and then the plain text of its ramdisk, if it has one.
pub proof fn boot_memory_is_shared(guest: SevStartedView, initrd: InitrdConfig)
    requires
        initrd.size <= initrd.address.0 - initrd.address.0 % 0x200000,
    ensures
        ({
            let booting = guest.sharing_boot_regions();
            let region = booting.sharing_initrd(Some(initrd)).shared_regions.last();
            &&& booting == (SevStartedView {
                shared_regions: guest.shared_regions.push(
                    MemoryRegion { start: GuestAddress(0xe00000), len: 0x200000 },
                ).push(MemoryRegion { start: GuestAddress(0xc00000), len: 0x200000 }),
                ..guest
            })
            &&& booting.sharing_initrd(None) == booting
            &&& booting.sharing_initrd(Some(initrd)) == (SevStartedView {
                shared_regions: booting.shared_regions.push(region),
                ..guest
            })
            &&& initrd.size <= region.len < initrd.size + 0x200000
            &&& region.len % 0x200000 == 0
            &&& region.start.0 + region.len == initrd.address.0 - initrd.address.0 % 0x200000
        }),
{
    memory::plain_text_lies_right_before_the_ramdisk(initrd);
}

/// The CPUID page is one page at 0x1000. It is tried a second time if it is refused, and only the
/// second refusal is passed on.
pub proof fn cpuid_page_is_tried_twice(reply: FirmwareReply)
    ensures
        reply is Ok ==> cpuid_answer(false, reply) == Ok::<Option<LaunchUpdate>, SevError>(None),
        reply is Ok ==> cpuid_answer(true, reply) == Ok::<Option<LaunchUpdate>, SevError>(None),
        reply matches Err(e) ==> cpuid_answer(true, reply) == Err::<Option<LaunchUpdate>, SevError>(
            SevError::FirmwareError(e),
        ),
        reply is Err ==> cpuid_answer(false, reply) == Ok::<Option<LaunchUpdate>, SevError>(
            Some(
                LaunchUpdate {
                    guest_addr: GuestAddress(0x1000),
                    gfn: 1,
                    gpa: 0x1000,
                    len: 0x1000,
                    page_type: PageType::Cpuid,
                },
            ),
        ),
{
}

/// A guest is set up in this order: its firmware is put at 1 MiB and will be measured as long as it
/// is, the CPUID page is written to 0x1000 and added, once more if it was refused, the secrets page
/// at 50 MiB is added, and then what is needed for the boot is shared. A refusal of the CPUID page at
/// the second attempt, or of the secrets page, ends the set-up with the error and changes nothing.
pub proof fn guest_is_set_up_step_by_step(
    guest: SevStartedView,
    event: SetupEvent,
    cpuid: Seq<CpuidEntry>,
    initrd: Option<InitrdConfig>,
    next: SevStartedView,
    r: SevResult<SetupAction>,
)
    requires
        guest.setup_step(event, cpuid, initrd, next, r),
    ensures
        ({
            let cpuid_page = LaunchUpdate {
                guest_addr: GuestAddress(0x1000),
                gfn: 1,
                gpa: 0x1000,
                len: 0x1000,
                page_type: PageType::Cpuid,
            };
            let secrets_page = LaunchUpdate {
                guest_addr: GuestAddress(0x3200000),
                gfn: 0x3200,
                gpa: 0x3200000,
                len: 0x1000,
                page_type: PageType::Secrets,
            };
            match event {
                SetupEvent::Begin => next == guest && (r matches Ok(SetupAction::LoadFirmware {
                    address,
                }) && address.0 == 0x100000),
                SetupEvent::FirmwareLoaded(len) => {
                    &&& next.shared_regions == guest.shared_regions
                    &&& next.ram_regions == guest.ram_regions
                    &&& next.measured_regions.drop_last() == guest.measured_regions
                    &&& next.measured_regions.len() == guest.measured_regions.len() + 1
                    &&& next.measured_regions.last().start.0 == 0x100000
                    &&& len + 0xfff <= u64::MAX ==> len <= next.measured_regions.last().len < len
                        + 0x1000
                    &&& r matches Ok(SetupAction::InsertCpuid(i)) && i.update == cpuid_page
                        && i.page.address.0 == 0x1000 && i.page.bytes@ == cpuid::page(cpuid)
                },
                SetupEvent::CpuidInserted(Err(_)) => next == guest && r == Ok::<
                    SetupAction,
                    SevError,
                >(SetupAction::RetryCpuid(cpuid_page)),
                SetupEvent::CpuidInserted(Ok(())) | SetupEvent::CpuidRetried(Ok(())) => next
                    == guest && r == Ok::<SetupAction, SevError>(
                    SetupAction::InsertSecrets(secrets_page),
                ),
                SetupEvent::SecretsInserted(Ok(())) => {
                    &&& r == Ok::<SetupAction, SevError>(SetupAction::Finished)
                    &&& next == guest.sharing_boot_regions().sharing_initrd(initrd)
                },
                SetupEvent::CpuidRetried(Err(e)) | SetupEvent::SecretsInserted(Err(e)) => next
                    == guest && r == Err::<SetupAction, SevError>(SevError::FirmwareError(e)),
            }
        }),
{
    if let SetupEvent::FirmwareLoaded(len) = event {
        assert(next.measured_regions.drop_last() =~= guest.measured_regions);
    }
}

/// Every entry of the memory map that counts is a private region, made of the whole pages that its
/// bytes touch.
pub proof fn map_entries_are_private_regions(entries: Seq<E820Entry>, count: nat, i: int)
    requires
        0 <= i < count <= entries.len(),
        entries[i].addr % 0x1000 + entries[i].size + 0xfff <= u64::MAX,
    ensures
        ({
            let region = map_regions(entries, count)[i];
            let end = entries[i].addr + entries[i].size;
            &&& map_regions(entries, count).len() == count
            &&& region.start.0 % 0x1000 == 0
            &&& region.len % 0x1000 == 0
            &&& region.start.0 <= entries[i].addr < region.start.0 + 0x1000
            &&& end <= region.start.0 + region.len < end + 0x1000
        }),
{
    memory::touched_pages_hold_every_byte(GuestAddress(entries[i].addr), entries[i].size);
}

/// The flags of a page state change ask for private pages in bit 4, and may not have bits 0 and 1 set
/// at once.
pub proof fn page_state_flags_are_bits(flags: u64)
    ensures
        asks_private(flags) <==> flags & 0x10 != 0,
        claims_two_sizes(flags) <==> flags & 3 == 3,
{
    assert((flags / 16 % 2 == 1) == (flags & 0x10 != 0)) by (bit_vector);
    assert((flags % 4 == 3) == (flags & 3 == 3)) by (bit_vector);
}

/// A page state change is for as many pages of 4 KiB as the guest says, from the page on in which its
/// address lies, and makes them private if bit 4 of the flags is set and shared otherwise, whatever
/// page size the flags claim.
pub proof fn pages_get_the_state_that_is_asked_for(gpa: GuestAddress, n_pages: u64, flags: u64)
    requires
        n_pages * 0x1000 <= u64::MAX,
    ensures
        ({
            let change = exit_page_state(gpa, n_pages, flags);
            &&& change.address % 0x1000 == 0
            &&& change.address <= gpa.0 < change.address + 0x1000
            &&& change.size == n_pages * 0x1000
            &&& flags & 0x10 != 0 ==> change.attributes == 8
            &&& flags & 0x10 == 0 ==> change.attributes == 0
            &&& change.flags == 0
        }),
{
    page_state_flags_are_bits(flags);
}

/// A launch ends with the attributes for all of the guest's memory. Those of the private regions come
/// first and have the attribute 8; those of the shared regions follow and have none. Each is for
/// exactly its region. No region is left then that would be registered again.
pub proof fn every_region_is_registered(guest: SevStartedView, i: int)
    requires
        guest.inv(),
    ensures
        ({
            let set = guest.all_attributes();
            &&& set.len() == guest.ram_regions.len() + guest.shared_regions.len()
            &&& 0 <= i < guest.ram_regions.len() ==> {
                let one = set[guest.ram_regions.len() - 1 - i];
                &&& one.address == guest.ram_regions[i].start.0
                &&& one.size == guest.ram_regions[i].len
                &&& one.attributes == 8
                &&& one.flags == 0
            }
            &&& 0 <= i < guest.shared_regions.len() ==> {
                let one = set[set.len() - 1 - i];
                &&& one.address == guest.shared_regions[i].start.0
                &&& one.size == guest.shared_regions[i].len
                &&& one.attributes == 0
                &&& one.flags == 0
            }
            &&& guest.all_registered() == (SevStartedView {
                ram_regions: Seq::empty(),
                shared_regions: Seq::empty(),
                ..guest
            })
        }),
{
    if 0 <= i < guest.ram_regions.len() {
        assert(guest.ram_regions[i].is_page_aligned());
    }
    if 0 <= i < guest.shared_regions.len() {
        assert(guest.shared_regions[i].is_page_aligned());
    }
}

/// When a launch has ended, memory in a shared region is shared, and memory in a private region is
/// private where no shared region lies.
pub proof fn memory_ends_up_as_registered(guest: SevStartedView, address: int, i: int)
    requires
        guest.inv(),
    ensures
        ({
            let at = memory::attributes_at(guest.all_attributes(), address);
            &&& 0 <= i < guest.shared_regions.len() && guest.shared_regions[i].start.0 <= address
                < guest.shared_regions[i].start.0 + guest.shared_regions[i].len ==> at == Some(0u64)
            &&& 0 <= i < guest.ram_regions.len() && guest.ram_regions[i].start.0 <= address
                < guest.ram_regions[i].start.0 + guest.ram_regions[i].len && (forall|j: int|
                0 <= j < guest.shared_regions.len() ==> !(guest.shared_regions[j].start.0 <= address
                    < guest.shared_regions[j].start.0 + (#[trigger] guest.shared_regions[j]).len))
                ==> at == Some(8u64)
        }),
{
    let ram = guest.ram_regions;
    let shared = guest.shared_regions;
    assert forall|j: int| 0 <= j < ram.len() implies memory::ceil_to(
        (#[trigger] ram[j]).len as int,
        0x1000,
    ) == ram[j].len by {
        assert(ram[j].is_page_aligned());
    }
    assert forall|j: int| 0 <= j < shared.len() implies memory::ceil_to(
        (#[trigger] shared[j]).len as int,
        0x1000,
    ) == shared[j].len by {
        assert(shared[j].is_page_aligned());
    }
    if 0 <= i < shared.len() && shared[i].contains(address) {
        memory::shared_regions_win(ram, shared, address, i);
    }
    if 0 <= i < ram.len() && ram[i].contains(address) && (forall|j: int|
        0 <= j < shared.len() ==> !(shared[j].start.0 <= address < shared[j].start.0 + (
        #[trigger] shared[j]).len)) {
        memory::private_regions_stay_private(ram, shared, address, i);
    }
}

} // verus!
