//! The launch of a guest by commands to the platform: which commands are issued, in which order,
//! and which guest memory is measured, shared or private.
//!
//! The platform is reached by the caller: a step of the launch gives the command to issue next and
//! is told what came of it.

use vstd::prelude::*;

use crate::cpuid::{self, CpuidEntry};
use crate::ghcb::{self, VmgExit};
use crate::layout::{
    PageType, BZIMAGE_ADDR, BZIMAGE_MAX_LEN, CPUID_PAGE_ADDR, CPUID_PAGE_LEN, FIRMWARE_ADDR,
    GHCB_ADDR_BZIMAGE, GHCB_ADDR_ELF, KERNEL_BOUNCE_BUFFER, KERNEL_BOUNCE_BUFFER_LEN,
    MEASUREMENT_LEN, SECRETS_PAGE_ADDR, SECRETS_PAGE_LEN,
};
use crate::memory::{
    self, E820Entry, GuestAddress, GuestWrite, InitrdConfig, MemoryAttributes, MemoryRegion,
    MEMORY_ATTRIBUTE_PRIVATE, PAGE_SIZE, PAGE_SIZE_2MB,
};
use crate::time::TimestampUs;

pub use crate::platform::{Error, State};

verus! {

/// SEV platform errors
#[derive(Clone, Copy, Debug, PartialEq, Eq, Structural)]
pub enum SevError {
    /// The platform state is invalid for this command
    InvalidPlatformState,
    /// The guest state is invalid for this command
    InvalidGuestState,
    /// The platform configuration is invalid
    InvalidConfig,
    /// A memory buffer is too small
    InvalidLength,
    /// The platform is already owned
    AlreadyOwned,
    /// The certificate is invalid
    InvalidCertificate,
    /// Request is not allowed by guest policy
    PolicyFailure,
    /// The guest is inactive
    Inactive,
    /// The address provided is inactive
    InvalidAddress,
    /// The provided signature is invalid
    BadSignature,
    /// The provided measurement is invalid
    BadMeasurement,
    /// The ASID is already owned
    AsidOwned,
    /// The ASID is invalid
    InvalidAsid,
    /// WBINVD instruction required
    WBINVDRequired,
    /// DF_FLUSH invocation required
    DfFlushRequired,
    /// The guest handle is invalid
    InvalidGuest,
    /// The command issued is invalid
    InvalidCommand,
    /// A hardware condition has occurred affecting the platform. It is safe to re-allocate parameter buffers
    HwerrorPlatform,
    /// A hardware condition has occurred affecting the platform. Re-allocating parameter buffers is not safe
    HwerrorUnsafe,
    /// Feature is unsupported
    Unsupported,
    /// A parameter is invalid
    InvalidParam,
    /// The SEV FW has run out of a resource necessary to complete the command
    ResourceLimit,
    /// The part-specific SEV data failed integrity checks
    SecureDataInvalid,
    /// A mailbox mode command was sent while the SEV FW was in Ring Buffer mode.
    RbModeExited,
    /// The RMP page size is incorrect
    InvalidPageSize,
    /// The RMP page state is incorrect
    InvalidPageState,
    /// The metadata entry is invalid
    InvalidMDataEntry,
    /// The page ownership is incorrect
    InvalidPageOwner,
    /// The AEAD algorithm would have overflowed
    AeadOverflow,
    /// The RMP must be reinitialized
    RmpInitRequired,
    /// SVN of provided image is lower than the committed SVN
    BadSvn,
    /// Firmware version anti-rollback
    BadVersion,
    /// An invocation of SNP_SHUTDOWN is required to complete this action
    ShutdownRequired,
    /// Update of the firmware internal state or a guest context page has failed
    UpdateFailed,
    /// Installation of the committed firmware image required
    RestoreRequired,
    /// The RMP initialization failed
    RmpInitFailed,
    /// The key requested is invalid, not present, or not allowed
    InvalidKey,
    /// The error code returned by the SEV device is not valid
    InvalidErrorCode,
    /// Other error code
    Errno(i32),
}

/// SEV result return type
pub type SevResult<T> = std::result::Result<T, SevError>;

impl SevError {
    /// The error with the number `code`.
    pub open spec fn of_code(code: u32) -> SevError {
        match code {
            0x01 => SevError::InvalidPlatformState,
            0x02 => SevError::InvalidGuestState,
            0x03 => SevError::InvalidConfig,
            0x04 => SevError::InvalidLength,
            0x05 => SevError::AlreadyOwned,
            0x06 => SevError::InvalidCertificate,
            0x07 => SevError::PolicyFailure,
            0x08 => SevError::Inactive,
            0x09 => SevError::InvalidAddress,
            0x0a => SevError::BadSignature,
            0x0b => SevError::BadMeasurement,
            0x0c => SevError::AsidOwned,
            0x0d => SevError::InvalidAsid,
            0x0e => SevError::WBINVDRequired,
            0x0f => SevError::DfFlushRequired,
            0x10 => SevError::InvalidGuest,
            0x11 => SevError::InvalidCommand,
            0x13 => SevError::HwerrorPlatform,
            0x14 => SevError::HwerrorUnsafe,
            0x15 => SevError::Unsupported,
            0x16 => SevError::InvalidParam,
            0x17 => SevError::ResourceLimit,
            0x18 => SevError::SecureDataInvalid,
            0x1f => SevError::RbModeExited,
            0x19 => SevError::InvalidPageSize,
            0x1a => SevError::InvalidPageState,
            0x1b => SevError::InvalidMDataEntry,
            0x1c => SevError::InvalidPageOwner,
            0x1d => SevError::AeadOverflow,
            0x20 => SevError::RmpInitRequired,
            0x21 => SevError::BadSvn,
            0x22 => SevError::BadVersion,
            0x23 => SevError::ShutdownRequired,
            0x24 => SevError::UpdateFailed,
            0x25 => SevError::RestoreRequired,
            0x26 => SevError::RmpInitFailed,
            0x27 => SevError::InvalidKey,
            _ => SevError::InvalidErrorCode,
        }
    }
}

impl From<u32> for SevError {
    fn from(code: u32) -> (e: SevError) {
        match code {
            0x01 => SevError::InvalidPlatformState,
            0x02 => SevError::InvalidGuestState,
            0x03 => SevError::InvalidConfig,
            0x04 => SevError::InvalidLength,
            0x05 => SevError::AlreadyOwned,
            0x06 => SevError::InvalidCertificate,
            0x07 => SevError::PolicyFailure,
            0x08 => SevError::Inactive,
            0x09 => SevError::InvalidAddress,
            0x0a => SevError::BadSignature,
            0x0b => SevError::BadMeasurement,
            0x0c => SevError::AsidOwned,
            0x0d => SevError::InvalidAsid,
            0x0e => SevError::WBINVDRequired,
            0x0f => SevError::DfFlushRequired,
            0x10 => SevError::InvalidGuest,
            0x11 => SevError::InvalidCommand,
            0x13 => SevError::HwerrorPlatform,
            0x14 => SevError::HwerrorUnsafe,
            0x15 => SevError::Unsupported,
            0x16 => SevError::InvalidParam,
            0x17 => SevError::ResourceLimit,
            0x18 => SevError::SecureDataInvalid,
            0x1f => SevError::RbModeExited,
            0x19 => SevError::InvalidPageSize,
            0x1a => SevError::InvalidPageState,
            0x1b => SevError::InvalidMDataEntry,
            0x1c => SevError::InvalidPageOwner,
            0x1d => SevError::AeadOverflow,
            0x20 => SevError::RmpInitRequired,
            0x21 => SevError::BadSvn,
            0x22 => SevError::BadVersion,
            0x23 => SevError::ShutdownRequired,
            0x24 => SevError::UpdateFailed,
            0x25 => SevError::RestoreRequired,
            0x26 => SevError::RmpInitFailed,
            0x27 => SevError::InvalidKey,
            _ => SevError::InvalidErrorCode,
        }
    }
}

impl vstd::std_specs::convert::FromSpecImpl<u32> for SevError {
    open spec fn obeys_from_spec() -> bool {
        true
    }

    open spec fn from_spec(code: u32) -> SevError {
        SevError::of_code(code)
    }
}

/// Every number that stands for an error stands for one of its own.
pub proof fn error_codes_are_distinct(a: u32, b: u32)
    requires
        SevError::of_code(a) != SevError::InvalidErrorCode,
        SevError::of_code(a) == SevError::of_code(b),
    ensures
        a == b,
{
}

/// A command to the platform.
#[derive(Clone, Copy, Debug, PartialEq, Eq, Structural)]
pub enum SevCommand {
    /// Initialize the platform for an SNP guest
    SnpInit { flags: u64 },
    /// Initialize the platform for a SEV guest
    SevInit,
    /// Initialize the platform for a SEV-ES guest
    SevEsInit,
    /// Start the launch of an SNP guest
    SnpLaunchStart { policy: u64 },
    /// Start the launch of a SEV guest, with so many bytes of session data and of a certificate
    LaunchStart { handle: u32, guest_policy: u32, session_len: u32, dh_len: u32 },
    /// Add pages to an SNP guest
    SnpLaunchUpdate { start_gfn: u64, uaddr: u64, len: u32, page_type: u8 },
    /// Encrypt memory of a SEV guest
    LaunchUpdateData { uaddr: u64, len: u32 },
    /// Encrypt the save areas of a SEV-ES guest
    LaunchUpdateVmsa,
    /// Get the measurement of a SEV guest
    LaunchMeasure { len: u32 },
    /// Finish the launch of an SNP guest
    SnpLaunchFinish,
    /// Finish the launch of a SEV guest
    LaunchFinish { handle: u32 },
}

/// What came of a command.
#[derive(Clone, Copy, Debug, PartialEq, Eq, Structural)]
pub enum SevReply {
    /// It was carried out
    Done,
    /// It failed, with the error of the firmware, if it gave one, and that of the system
    Failed { fw_error: u32, errno: i32 },
}

/// The answer to the caller for what came of a command: the error of the firmware, if it gave one,
/// or else that of the system.
pub open spec fn answer(reply: SevReply) -> SevResult<()> {
    match reply {
        SevReply::Done => Ok(()),
        SevReply::Failed { fw_error, errno } => Err(
            if fw_error > 0 {
                SevError::of_code(fw_error)
            } else {
                SevError::Errno(errno)
            },
        ),
    }
}

/// The guest policy asks for SEV-ES in bit 2.
pub open spec fn asks_es(policy: u32) -> bool {
    policy / 4 % 2 == 1
}

/// The policy that an SNP guest is started with: multithreading (bit 16) and debugging (bit 19) are
/// allowed, and the reserved bit 17 is set.
pub const SNP_POLICY: u32 = 0xb0000;

/// A guest and how far its launch has come.
#[derive(Debug)]
pub struct Sev {
    handle: u32,
    policy: u32,
    state: State,
    measure: [u8; 48],
    timestamp: TimestampUs,
    /// SNP active
    pub snp: bool,
    /// position of the Cbit
    pub cbitpos: u32,
    /// Whether the guest policy requires SEV-ES
    pub es: bool,
    measured_regions: Vec<MemoryRegion>,
    shared_regions: Vec<MemoryRegion>,
    ram_regions: Vec<MemoryRegion>,
}

/// What is known of a guest.
#[verifier::ext_equal]
pub struct SevView {
    /// What the platform calls the guest
    pub handle: u32,
    pub policy: u32,
    pub state: State,
    /// The launch measurement
    pub measure: Seq<u8>,
    pub timestamp: TimestampUs,
    pub snp: bool,
    pub cbitpos: u32,
    pub es: bool,
    /// Regions to pre-encrypt
    pub measured_regions: Seq<MemoryRegion>,
    /// Regions that should be marked shared in the RMP
    pub shared_regions: Seq<MemoryRegion>,
    /// Regions that should be marked private in the RMP
    pub ram_regions: Seq<MemoryRegion>,
}

impl View for Sev {
    type V = SevView;

    closed spec fn view(&self) -> SevView {
        SevView {
            handle: self.handle,
            policy: self.policy,
            state: self.state,
            measure: self.measure@,
            timestamp: self.timestamp,
            snp: self.snp,
            cbitpos: self.cbitpos,
            es: self.es,
            measured_regions: self.measured_regions@,
            shared_regions: self.shared_regions@,
            ram_regions: self.ram_regions@,
        }
    }
}

/// What a step of the start of an SNP guest was told.
#[derive(Clone, Copy, Debug, PartialEq, Eq, Structural)]
pub enum SnpInitEvent {
    /// The launch begins
    Begin,
    /// What came of the command to initialize the platform
    Initialized(SevReply),
    /// What came of the command to start the launch
    Started(SevReply),
}

/// What a step of the start of a SEV guest was told.
#[derive(Clone, Copy, Debug, PartialEq, Eq, Structural)]
pub enum SevInitEvent {
    /// The launch begins
    Begin,
    /// The platform was initialized; session data and a certificate of so many bytes are there
    Initialized { session: Option<usize>, dh_cert: Option<usize> },
    /// The launch was started, and the platform calls the guest by `handle`
    Started { handle: u32 },
}

/// What a step that gets the measurement was told.
#[derive(Clone, Copy, Debug, PartialEq, Eq)]
pub enum MeasurementEvent {
    /// The measurement is asked for
    Begin,
    /// The measurement was given
    Measured([u8; 48]),
}

/// The length of a buffer as the platform is told it: its lowest 32 bits, or 0 for none.
pub open spec fn told_len(len: Option<usize>) -> u32 {
    match len {
        Some(n) => (n as int % 0x1_0000_0000) as u32,
        None => 0,
    }
}

fn len_told(len: Option<usize>) -> (n: u32)
    ensures
        n == told_len(len),
{
    match len {
        Some(n) => {
            let wide: u64 = n as u64;
            assert(wide as u32 == wide % 0x1_0000_0000) by (bit_vector);
            #[verifier::truncate]
            (wide as u32)
        },
        None => 0,
    }
}

impl SevView {
    /// A guest with the policy `policy` before its launch, on a platform that gives `cpuid_ebx` for
    /// CPUID function 0x8000001F.
    pub open spec fn fresh(snp: bool, timestamp: TimestampUs, policy: u32, cpuid_ebx: u32) -> SevView {
        SevView {
            handle: 0,
            policy,
            state: State::UnInit,
            measure: Seq::new(48, |i: int| 0u8),
            timestamp,
            snp,
            cbitpos: cpuid_ebx % 64,
            es: asks_es(policy),
            measured_regions: Seq::empty(),
            shared_regions: Seq::empty(),
            ram_regions: Seq::empty(),
        }
    }

    /// The guest with one more region to pre-encrypt.
    pub open spec fn measuring(self, start: GuestAddress, len: u64) -> SevView {
        SevView { measured_regions: self.measured_regions.push(MemoryRegion { start, len }), ..self }
    }

    /// The guest with one more shared region.
    pub open spec fn sharing(self, start: GuestAddress, len: u64) -> SevView {
        SevView { shared_regions: self.shared_regions.push(MemoryRegion { start, len }), ..self }
    }

    /// The guest when what the firmware needs to fetch the kernel, and a ramdisk, is shared.
    pub open spec fn sharing_boot(self, is_bzimage: bool, initrd: Option<InitrdConfig>) -> SevView {
        SevView {
            shared_regions: self.shared_regions + self.boot_regions(is_bzimage)
                + self.initrd_regions(initrd),
            ..self
        }
    }

    /// The command that encrypts the save areas, if the guest has any.
    pub open spec fn vmsa_command(self) -> SevResult<Option<SevCommand>> {
        if !self.es {
            Ok(None)
        } else if self.state != State::LaunchUpdate {
            Err(SevError::InvalidPlatformState)
        } else {
            Ok(Some(SevCommand::LaunchUpdateVmsa))
        }
    }

    /// What is done to insert the secrets page, which the host finds at `host_addr`, if the guest is
    /// an SNP guest.
    pub open spec fn secrets_step(self, host_addr: Option<u64>) -> SevResult<Option<SnpUpdate>> {
        if !self.snp {
            Ok(None)
        } else if self.state != State::LaunchUpdate {
            Err(SevError::InvalidPlatformState)
        } else {
            Ok(
                Some(
                    snp_update_of(
                        GuestAddress(SECRETS_PAGE_ADDR),
                        SECRETS_PAGE_LEN,
                        host_addr->0,
                        PageType::Secrets,
                    ),
                ),
            )
        }
    }

    /// The command that finishes the launch of a SEV guest.
    pub open spec fn finish_command(self) -> SevResult<SevCommand> {
        if self.state != State::LaunchSecret {
            Err(SevError::InvalidPlatformState)
        } else {
            Ok(SevCommand::LaunchFinish { handle: self.handle })
        }
    }

    /// What a step of the start of an SNP guest does, and the command to issue next, if any.
    pub open spec fn snp_init_step(self, event: SnpInitEvent) -> (
        SevView,
        SevResult<Option<SevCommand>>,
    ) {
        match event {
            SnpInitEvent::Begin => if self.state != State::UnInit {
                (self, Err(SevError::InvalidPlatformState))
            } else {
                (self, Ok(Some(SevCommand::SnpInit { flags: 0 })))
            },
            SnpInitEvent::Initialized(reply) => match answer(reply) {
                Ok(_) => (
                    SevView { state: State::Init, policy: SNP_POLICY, ..self },
                    Ok(Some(SevCommand::SnpLaunchStart { policy: SNP_POLICY as u64 })),
                ),
                Err(e) => (self, Err(e)),
            },
            SnpInitEvent::Started(reply) => match answer(reply) {
                Ok(_) => (SevView { state: State::LaunchUpdate, ..self }, Ok(None)),
                Err(e) => (self, Err(e)),
            },
        }
    }

    /// What a step of the start of a SEV guest does, and the command to issue next, if any.
    pub open spec fn sev_init_step(self, event: SevInitEvent) -> (
        SevView,
        SevResult<Option<SevCommand>>,
    ) {
        match event {
            SevInitEvent::Begin => if self.state != State::UnInit {
                (self, Err(SevError::InvalidPlatformState))
            } else {
                (
                    self,
                    Ok(
                        Some(
                            if self.es {
                                SevCommand::SevEsInit
                            } else {
                                SevCommand::SevInit
                            },
                        ),
                    ),
                )
            },
            SevInitEvent::Initialized { session, dh_cert } => (
                SevView { state: State::Init, ..self },
                Ok(
                    Some(
                        SevCommand::LaunchStart {
                            handle: 0,
                            guest_policy: self.policy,
                            session_len: told_len(session),
                            dh_len: told_len(dh_cert),
                        },
                    ),
                ),
            ),
            SevInitEvent::Started { handle } => (
                SevView { state: State::LaunchUpdate, handle, ..self },
                Ok(None),
            ),
        }
    }

    /// What a step that gets the measurement does, and the command to issue next, if any.
    pub open spec fn measurement_step(self, event: MeasurementEvent) -> (
        SevView,
        SevResult<Option<SevCommand>>,
    ) {
        match event {
            MeasurementEvent::Begin => if self.state != State::LaunchUpdate {
                (self, Err(SevError::InvalidPlatformState))
            } else {
                (self, Ok(Some(SevCommand::LaunchMeasure { len: MEASUREMENT_LEN })))
            },
            MeasurementEvent::Measured(measure) => (
                SevView { state: State::LaunchSecret, measure: measure@, ..self },
                Ok(None),
            ),
        }
    }
}

impl Sev {
    /// A guest with the policy `policy`, on a platform that gives `cpuid_ebx` for CPUID function
    /// 0x8000001F.
    pub fn new(snp: bool, timestamp: TimestampUs, policy: u32, cpuid_ebx: u32) -> (sev: Sev)
        ensures
            sev@ == SevView::fresh(snp, timestamp, policy, cpuid_ebx),
            sev@.cbitpos == cpuid_ebx & 0x3f,
            sev@.es <==> policy & 4 != 0,
    {
        assert((policy & 4 != 0) == (policy / 4 % 2 == 1)) by (bit_vector);
        assert(cpuid_ebx & 0x3f == cpuid_ebx % 64) by (bit_vector);
        let measure: [u8; 48] = [0u8; 48];
        assert(measure@ =~= Seq::new(48, |i: int| 0u8));
        Sev {
            handle: 0,
            policy,
            state: State::UnInit,
            measure,
            //Get position of the C-bit
            cbitpos: cpuid_ebx & 0x3f,
            snp,
            timestamp,
            //check if guest owner wants encrypted state
            es: policy & 4 != 0,
            measured_regions: Vec::new(),
            shared_regions: Vec::new(),
            ram_regions: Vec::new(),
        }
    }

    /// The answer to the caller for what came of a command.
    pub fn sev_ioctl(reply: SevReply) -> (r: SevResult<()>)
        ensures
            r == answer(reply),
    {
        match reply {
            SevReply::Done => Ok(()),
            SevReply::Failed { fw_error, errno } => {
                if fw_error > 0 {
                    Err(SevError::from(fw_error))
                } else {
                    Err(SevError::Errno(errno))
                }
            },
        }
    }

    /// Add pre-encrypted region
    pub fn add_measured_region(&mut self, start: GuestAddress, len: u64)
        ensures
            final(self)@ == old(self)@.measuring(start, len),
    {
        self.measured_regions.push(MemoryRegion { start, len });
    }

    /// Add region that should be marked shared in the RMP
    pub fn add_shared_region(&mut self, start: GuestAddress, len: u64)
        ensures
            final(self)@ == old(self)@.sharing(start, len),
    {
        self.shared_regions.push(MemoryRegion { start, len });
    }

    /// Initialize SEV-SNP platform, step by step: the command to issue next, or `None` when the
    /// launch is started.
    pub fn snp_init(&mut self, event: SnpInitEvent) -> (r: SevResult<Option<SevCommand>>)
        requires
            event is Initialized ==> old(self)@.state == State::UnInit,
            event is Started ==> old(self)@.state == State::Init,
        ensures
            (final(self)@, r) == old(self)@.snp_init_step(event),
    {
        match event {
            SnpInitEvent::Begin => {
                if self.state != State::UnInit {
                    return Err(SevError::InvalidPlatformState);
                }
                Ok(Some(SevCommand::SnpInit { flags: 0 }))
            },
            SnpInitEvent::Initialized(reply) => match Sev::sev_ioctl(reply) {
                Ok(()) => {
                    self.state = State::Init;
                    match self.snp_launch_start() {
                        Ok(command) => Ok(Some(command)),
                        Err(e) => Err(e),
                    }
                },
                Err(e) => Err(e),
            },
            SnpInitEvent::Started(reply) => match Sev::sev_ioctl(reply) {
                Ok(()) => {
                    self.state = State::LaunchUpdate;
                    Ok(None)
                },
                Err(e) => Err(e),
            },
        }
    }

    /// Starts the launch of an SNP guest on an initialized platform: the command to issue.
    pub fn snp_launch_start(&mut self) -> (r: SevResult<SevCommand>)
        ensures
            r == (if old(self)@.state != State::Init {
                Err::<SevCommand, SevError>(SevError::InvalidPlatformState)
            } else {
                Ok(SevCommand::SnpLaunchStart { policy: SNP_POLICY as u64 })
            }),
            final(self)@ == (if old(self)@.state != State::Init {
                old(self)@
            } else {
                SevView { policy: SNP_POLICY, ..old(self)@ }
            }),
    {
        if self.state != State::Init {
            return Err(SevError::InvalidPlatformState);
        }
        self.policy = SNP_POLICY;
        Ok(SevCommand::SnpLaunchStart { policy: SNP_POLICY as u64 })
    }

    /// Initialize SEV platform, step by step: the command to issue next, or `None` when the launch
    /// is started.
    pub fn sev_init(&mut self, event: SevInitEvent) -> (r: SevResult<Option<SevCommand>>)
        requires
            event is Initialized ==> old(self)@.state == State::UnInit,
            event is Started ==> old(self)@.state == State::Init,
        ensures
            (final(self)@, r) == old(self)@.sev_init_step(event),
    {
        match event {
            SevInitEvent::Begin => {
                if self.state != State::UnInit {
                    return Err(SevError::InvalidPlatformState);
                }
                Ok(
                    Some(
                        if self.es {
                            SevCommand::SevEsInit
                        } else {
                            SevCommand::SevInit
                        },
                    ),
                )
            },
            SevInitEvent::Initialized { session, dh_cert } => {
                self.state = State::Init;
                match self.sev_launch_start(session, dh_cert) {
                    Ok(command) => Ok(Some(command)),
                    Err(e) => Err(e),
                }
            },
            SevInitEvent::Started { handle } => {
                self.handle = handle;
                self.state = State::LaunchUpdate;
                Ok(None)
            },
        }
    }

    /// Get SEV guest handle: the command to issue, for session data and a certificate of so many
    /// bytes, on an initialized platform.
    pub fn sev_launch_start(&self, session: Option<usize>, dh_cert: Option<usize>) -> (r: SevResult<
        SevCommand,
    >)
        ensures
            r == (if self@.state != State::Init {
                Err::<SevCommand, SevError>(SevError::InvalidPlatformState)
            } else {
                Ok(
                    SevCommand::LaunchStart {
                        handle: 0,
                        guest_policy: self@.policy,
                        session_len: told_len(session),
                        dh_len: told_len(dh_cert),
                    },
                )
            }),
    {
        if self.state != State::Init {
            return Err(SevError::InvalidPlatformState);
        }
        Ok(
            SevCommand::LaunchStart {
                handle: 0,
                guest_policy: self.policy,
                session_len: len_told(session),
                dh_len: len_told(dh_cert),
            },
        )
    }

    /// Get boot measurement, step by step: the command to issue next, or `None` when it is there.
    pub fn get_launch_measurement(&mut self, event: MeasurementEvent) -> (r: SevResult<
        Option<SevCommand>,
    >)
        requires
            event is Measured ==> old(self)@.state == State::LaunchUpdate,
        ensures
            (final(self)@, r) == old(self)@.measurement_step(event),
    {
        match event {
            MeasurementEvent::Begin => {
                if self.state != State::LaunchUpdate {
                    return Err(SevError::InvalidPlatformState);
                }
                Ok(Some(SevCommand::LaunchMeasure { len: MEASUREMENT_LEN }))
            },
            MeasurementEvent::Measured(measure) => {
                self.measure = measure;
                self.state = State::LaunchSecret;
                Ok(None)
            },
        }
    }

    /// Encrypt VMSA: the command to issue, if the guest has any.
    pub fn launch_update_vmsa(&self) -> (r: SevResult<Option<SevCommand>>)
        ensures
            r == self@.vmsa_command(),
    {
        if !self.es {
            return Ok(None);
        }
        if self.state != State::LaunchUpdate {
            return Err(SevError::InvalidPlatformState);
        }
        Ok(Some(SevCommand::LaunchUpdateVmsa))
    }
}

/// Pages to add to an SNP guest: the attributes to set first, and the command to issue then.
#[derive(Clone, Copy, Debug, PartialEq, Eq, Structural)]
pub struct SnpUpdate {
    pub attributes: MemoryAttributes,
    pub command: SevCommand,
}

/// The request to add `len` bytes at `guest_addr`, which the host finds at `host_addr`. The pages
/// are marked shared before they are encrypted: as many as the bytes touch on the host.
pub open spec fn snp_update_of(
    guest_addr: GuestAddress,
    len: u32,
    host_addr: u64,
    page_type: PageType,
) -> SnpUpdate {
    SnpUpdate {
        attributes: MemoryAttributes {
            address: memory::floor_to(guest_addr.0 as int, PAGE_SIZE as int) as u64,
            size: memory::ceil_to(len + host_addr % PAGE_SIZE, PAGE_SIZE as int) as u64,
            attributes: 0,
            flags: 0,
        },
        command: SevCommand::SnpLaunchUpdate {
            start_gfn: (guest_addr.0 as int / PAGE_SIZE as int) as u64,
            uaddr: host_addr,
            len,
            page_type: page_type.number(),
        },
    }
}

/// Bytes of guest memory that are encrypted along with what was asked for.
#[derive(Clone, Copy, Debug, PartialEq, Eq, Structural)]
pub struct Gap {
    pub start: GuestAddress,
    pub len: u64,
}

impl Gap {
    /// The zeros that the bytes are filled with.
    pub open spec fn filled(self) -> (GuestAddress, Seq<u8>) {
        (self.start, Seq::new(self.len as nat, |i: int| 0u8))
    }

    /// The zeros that the bytes are filled with.
    pub fn zeros(&self) -> (w: GuestWrite)
        ensures
            w@ == self.filled(),
            w@ == (self.start, Seq::new(self.len as nat, |i: int| 0u8)),
    {
        let mut zeros: Vec<u8> = Vec::new();
        let mut n: u64 = 0;
        while n < self.len
            invariant
                n <= self.len,
                zeros@ == Seq::new(n as nat, |i: int| 0u8),
            decreases self.len - n,
        {
            zeros.push(0);
            n += 1;
            assert(zeros@ =~= Seq::new(n as nat, |i: int| 0u8));
        }
        GuestWrite { address: self.start, bytes: zeros }
    }
}

/// Memory to encrypt for a SEV guest: the bytes before and after the region that are encrypted as
/// well, and the command to issue. The zeros of both gaps are written to guest memory first, so
/// that nothing else is encrypted along with the region; the command is issued then.
#[derive(Clone, Copy, Debug, PartialEq, Eq, Structural)]
pub struct DataUpdate {
    pub before: Option<Gap>,
    pub after: Option<Gap>,
    pub command: SevCommand,
}

impl DataUpdate {
    /// What is written to guest memory before the command is issued: the zeros of both gaps.
    pub open spec fn filled(self) -> Seq<(GuestAddress, Seq<u8>)> {
        (match self.before {
            Some(gap) => seq![gap.filled()],
            None => Seq::empty(),
        }) + (match self.after {
            Some(gap) => seq![gap.filled()],
            None => Seq::empty(),
        })
    }

    /// What is written to guest memory before the command is issued: the zeros of both gaps.
    pub fn fills(&self) -> (writes: Vec<GuestWrite>)
        ensures
            writes@.len() == self.filled().len(),
            forall|i: int| 0 <= i < writes@.len() ==> (#[trigger] writes@[i])@ == self.filled()[i],
    {
        let mut writes: Vec<GuestWrite> = Vec::new();
        if let Some(gap) = self.before {
            writes.push(gap.zeros());
        }
        if let Some(gap) = self.after {
            writes.push(gap.zeros());
        }
        writes
    }
}

/// Guest memory after `writes`, where it held `memory` before.
pub open spec fn memory_after(
    memory: spec_fn(int) -> u8,
    writes: Seq<(GuestAddress, Seq<u8>)>,
) -> spec_fn(int) -> u8
    decreases writes.len(),
{
    if writes.len() == 0 {
        memory
    } else {
        memory::written(memory_after(memory, writes.drop_last()), writes.last())
    }
}

/// The platform encrypts memory in blocks of 16 bytes.
pub const ENCRYPTION_BLOCK: u64 = 16;

/// Length of the blocks that `len` bytes at `host_addr` touch.
pub open spec fn blocks_len(host_addr: u64, len: u32) -> int {
    memory::ceil_to(len + host_addr % ENCRYPTION_BLOCK, ENCRYPTION_BLOCK as int)
}

/// Where those blocks start.
pub open spec fn blocks_start(host_addr: u64) -> int {
    memory::floor_to(host_addr as int, ENCRYPTION_BLOCK as int)
}

/// How many bytes of those blocks come after the `len` bytes.
pub open spec fn blocks_after(host_addr: u64, len: u32) -> int {
    blocks_start(host_addr) + blocks_len(host_addr, len) - (host_addr + len)
}

/// The request to encrypt `len` bytes at `guest_addr`, which the host finds at `host_addr`: in whole
/// blocks, with zeros in what comes before and after the bytes.
pub open spec fn data_update_of(guest_addr: GuestAddress, len: u32, host_addr: u64) -> DataUpdate {
    let before = host_addr % ENCRYPTION_BLOCK;
    let after = blocks_after(host_addr, len);
    DataUpdate {
        before: if before > 0 {
            Some(Gap { start: GuestAddress((guest_addr.0 - before) as u64), len: before })
        } else {
            None
        },
        after: if after > 0 {
            Some(Gap { start: GuestAddress((guest_addr.0 + len) as u64), len: after as u64 })
        } else {
            None
        },
        command: SevCommand::LaunchUpdateData {
            uaddr: blocks_start(host_addr) as u64,
            len: blocks_len(host_addr, len) as u32,
        },
    }
}

/// Whether the blocks around `len` bytes at `guest_addr` lie in memory, in the guest and on the
/// host.
pub open spec fn blocks_in_memory(guest_addr: GuestAddress, len: u32, host_addr: u64) -> bool {
    &&& host_addr % ENCRYPTION_BLOCK <= guest_addr.0
    &&& blocks_after(host_addr, len) > 0 ==> guest_addr.0 + len <= u64::MAX
    &&& blocks_start(host_addr) + blocks_len(host_addr, len) <= u64::MAX
    &&& host_addr + len <= u64::MAX
}

impl Sev {
    /// Insert region of guest pages into guest physical memory: `len` bytes at `guest_addr`, which
    /// the host has to find only if the launch is started, at `host_addr`.
    pub fn snp_launch_update(
        &self,
        guest_addr: GuestAddress,
        len: u32,
        host_addr: Option<u64>,
        page_type: PageType,
    ) -> (r: SevResult<SnpUpdate>)
        requires
            self@.state == State::LaunchUpdate ==> host_addr is Some,
        ensures
            r == (if self@.state != State::LaunchUpdate {
                Err::<SnpUpdate, SevError>(SevError::InvalidPlatformState)
            } else {
                Ok(snp_update_of(guest_addr, len, host_addr->0, page_type))
            }),
    {
        if self.state != State::LaunchUpdate {
            return Err(SevError::InvalidPlatformState);
        }
        let host_addr: u64 = match host_addr {
            Some(host_addr) => host_addr,
            None => {
                return Err(SevError::InvalidPlatformState);
            },
        };
        let addr: u64 = guest_addr.0;
        //extract guest frame number
        let gfn: u64 = addr >> 12;
        assert(addr >> 12 == addr / 0x1000) by (bit_vector);
        assert((addr >> 12) << 12 == addr - addr % 0x1000) by (bit_vector);
        assert(host_addr & !0xfffu64 == host_addr - host_addr % 0x1000) by (bit_vector);
        //mark this mem as shared before encrypting
        let mut size: u64 = len as u64 + (host_addr - (host_addr & !0xfff));
        if size % 0x1000 != 0 {
            size = size + (0x1000 - (size % 0x1000));
        }
        Ok(
            SnpUpdate {
                attributes: MemoryAttributes { address: gfn << 12, size, attributes: 0, flags: 0 },
                command: SevCommand::SnpLaunchUpdate {
                    start_gfn: gfn,
                    uaddr: host_addr,
                    len,
                    page_type: page_type.code(),
                },
            },
        )
    }

    /// Encrypt region: `len` bytes at `guest_addr`, which the host finds at `host_addr`.
    pub fn launch_update_data(&self, guest_addr: GuestAddress, len: u32, host_addr: u64) -> (r:
        SevResult<DataUpdate>)
        requires
            blocks_len(host_addr, len) <= u32::MAX,
            self@.state == State::LaunchUpdate ==> blocks_in_memory(guest_addr, len, host_addr),
        ensures
            r == (if self@.state != State::LaunchUpdate {
                Err::<DataUpdate, SevError>(SevError::InvalidPlatformState)
            } else {
                Ok(data_update_of(guest_addr, len, host_addr))
            }),
    {
        let mut aligned_addr: u64 = host_addr;
        let mut aligned_len: u32 = len;
        if aligned_addr % 16 != 0 {
            aligned_addr = aligned_addr - host_addr % 16;
            aligned_len = aligned_len + (host_addr % 16) as u32;
        }
        if aligned_len % 16 != 0 {
            aligned_len = aligned_len - (aligned_len % 16) + 16;
        }
        if self.state != State::LaunchUpdate {
            return Err(SevError::InvalidPlatformState);
        }
        let mut before: Option<Gap> = None;
        if aligned_addr < host_addr {
            let n: u64 = host_addr - aligned_addr;
            before = Some(Gap { start: GuestAddress(guest_addr.0 - n), len: n });
        }
        let region_end: u64 = aligned_addr + aligned_len as u64;
        let original_end: u64 = host_addr + len as u64;
        let mut after: Option<Gap> = None;
        if region_end > original_end {
            let n: u64 = region_end - original_end;
            after = Some(Gap { start: GuestAddress(guest_addr.0 + len as u64), len: n });
        }
        Ok(
            DataUpdate {
                before,
                after,
                command: SevCommand::LaunchUpdateData { uaddr: aligned_addr, len: aligned_len },
            },
        )
    }

    /// Insert secrets page, which the host finds at `host_addr`: what is to be done, if the guest
    /// is an SNP guest.
    pub fn snp_insert_secrets_page(&self, host_addr: Option<u64>) -> (r: SevResult<Option<SnpUpdate>>)
        requires
            self@.snp && self@.state == State::LaunchUpdate ==> host_addr is Some,
        ensures
            r == self@.secrets_step(host_addr),
            r matches Ok(Some(update)) ==> update.command == (SevCommand::SnpLaunchUpdate {
                start_gfn: 0x3200,
                uaddr: host_addr->0,
                len: 0x1000,
                page_type: 5,
            }),
    {
        if !self.snp {
            return Ok(None);
        }
        match self.snp_launch_update(
            GuestAddress(SECRETS_PAGE_ADDR),
            SECRETS_PAGE_LEN,
            host_addr,
            PageType::Secrets,
        ) {
            Ok(update) => Ok(Some(update)),
            Err(e) => Err(e),
        }
    }
}

/// What a step that inserts the CPUID page was told.
#[derive(Clone, Copy, Debug, PartialEq, Eq, Structural)]
pub enum CpuidEvent {
    /// The page is to be inserted
    Begin,
    /// What came of the command
    Inserted(SevReply),
    /// The command was carried out at the second attempt
    Retried,
}

/// What is to be done next to insert the CPUID page.
#[derive(Debug)]
pub enum CpuidAction {
    /// Write the page to guest memory and add it
    Insert { page: GuestWrite, update: SnpUpdate },
    /// Add the page, in which the platform has corrected the values
    Retry(SnpUpdate),
    /// The page is inserted, or the guest has none
    Finished,
}

/// The request to add the CPUID page, which the host finds at `host_addr`.
pub open spec fn cpuid_update(host_addr: u64) -> SnpUpdate {
    snp_update_of(GuestAddress(CPUID_PAGE_ADDR), CPUID_PAGE_LEN, host_addr, PageType::Cpuid)
}

impl SevView {
    /// Whether `action` follows on `event` when the CPUID page is inserted: a page that is refused
    /// is tried a second time.
    pub open spec fn cpuid_step(
        self,
        event: CpuidEvent,
        cpuid: Seq<CpuidEntry>,
        host_addr: Option<u64>,
        action: CpuidAction,
    ) -> bool {
        if !self.snp {
            action is Finished
        } else {
            match event {
                CpuidEvent::Begin => action matches CpuidAction::Insert { page, update } && page@ == (
                    GuestAddress(CPUID_PAGE_ADDR),
                    cpuid::page(cpuid),
                ) && update == cpuid_update(host_addr->0),
                CpuidEvent::Inserted(SevReply::Failed { .. }) => action == CpuidAction::Retry(
                    cpuid_update(host_addr->0),
                ),
                CpuidEvent::Inserted(SevReply::Done) | CpuidEvent::Retried => action is Finished,
            }
        }
    }
}

impl Sev {
    /// Insert CPUID page, which the host finds at `host_addr`, step by step: what is to be done
    /// next.
    pub fn snp_insert_cpuid_page(
        &self,
        event: CpuidEvent,
        cpuid: &[CpuidEntry],
        host_addr: Option<u64>,
    ) -> (action: CpuidAction)
        requires
            self@.snp ==> self@.state == State::LaunchUpdate && host_addr is Some,
        ensures
            self@.cpuid_step(event, cpuid@, host_addr, action),
    {
        if !self.snp {
            return CpuidAction::Finished;
        }
        let update: SnpUpdate = match self.snp_launch_update(
            GuestAddress(CPUID_PAGE_ADDR),
            CPUID_PAGE_LEN,
            host_addr,
            PageType::Cpuid,
        ) {
            Ok(update) => update,
            Err(_) => {
                return CpuidAction::Finished;
            },
        };
        match event {
            CpuidEvent::Begin => CpuidAction::Insert {
                page: GuestWrite {
                    address: GuestAddress(CPUID_PAGE_ADDR),
                    bytes: cpuid::cpuid_page(cpuid),
                },
                update,
            },
            CpuidEvent::Inserted(reply) => match reply {
                SevReply::Done => CpuidAction::Finished,
                // the platform has filtered the entries, and they are encrypted again here
                SevReply::Failed { .. } => CpuidAction::Retry(update),
            },
            CpuidEvent::Retried => CpuidAction::Finished,
        }
    }
}

/// The blocks that are encrypted hold all of the bytes that were asked for, start and end on the
/// boundary of a block, and hold less than a block of other bytes on either side; those bytes are
/// the gaps.
pub proof fn encrypted_blocks_cover(guest_addr: GuestAddress, len: u32, host_addr: u64)
    requires
        blocks_len(host_addr, len) <= u32::MAX,
        blocks_in_memory(guest_addr, len, host_addr),
    ensures
        ({
            let update = data_update_of(guest_addr, len, host_addr);
            &&& update.command matches SevCommand::LaunchUpdateData { uaddr, len: encrypted }
            &&& uaddr % 16 == 0
            &&& encrypted % 16 == 0
            &&& uaddr <= host_addr < uaddr + 16
            &&& host_addr + len <= uaddr + encrypted < host_addr + len + 16
            &&& update.before matches Some(gap) ==> gap.start.0 + gap.len == guest_addr.0
            &&& update.after matches Some(gap) ==> gap.start.0 == guest_addr.0 + len
            &&& encrypted == len + (match update.before {
                Some(gap) => gap.len as int,
                None => 0,
            }) + (match update.after {
                Some(gap) => gap.len as int,
                None => 0,
            })
        }),
{
}

/// When the command is issued, guest memory holds zeros in the part of the encrypted blocks that
/// comes before the bytes that were asked for and in the part that comes after them, and those bytes
/// themselves, like all others, as they were.
pub proof fn gaps_are_filled_with_zeros(
    guest_addr: GuestAddress,
    len: u32,
    host_addr: u64,
    memory: spec_fn(int) -> u8,
    address: int,
)
    requires
        blocks_len(host_addr, len) <= u32::MAX,
        blocks_in_memory(guest_addr, len, host_addr),
    ensures
        ({
            let writes = data_update_of(guest_addr, len, host_addr).filled();
            let start = guest_addr.0 - host_addr % ENCRYPTION_BLOCK;
            let end = start + blocks_len(host_addr, len);
            memory_after(memory, writes)(address) == if start <= address < guest_addr.0 || guest_addr.0
                + len <= address < end {
                0u8
            } else {
                memory(address)
            }
        }),
{
    let update = data_update_of(guest_addr, len, host_addr);
    let writes = update.filled();
    reveal_with_fuel(memory_after, 3);
    if writes.len() == 2 {
        assert(writes.drop_last() =~= seq![writes[0]]);
        assert(writes.drop_last().drop_last() =~= Seq::empty());
    } else if writes.len() == 1 {
        assert(writes.drop_last() =~= Seq::empty());
    }
}

/// The pages that are marked shared before they are added to an SNP guest hold all of the bytes that
/// were asked for, and less than a page of others on either side, wherever the host has guest pages
/// on pages of its own.
pub proof fn shared_pages_cover(
    guest_addr: GuestAddress,
    len: u32,
    host_addr: u64,
    page_type: PageType,
)
    requires
        guest_addr.0 % PAGE_SIZE == host_addr % PAGE_SIZE,
    ensures
        ({
            let attributes = snp_update_of(guest_addr, len, host_addr, page_type).attributes;
            let end = guest_addr.0 + len;
            &&& attributes.attributes == 0
            &&& attributes.address % PAGE_SIZE == 0
            &&& attributes.size % PAGE_SIZE == 0
            &&& attributes.address <= guest_addr.0 < attributes.address + PAGE_SIZE
            &&& end <= attributes.address + attributes.size < end + PAGE_SIZE
        }),
{
}

/// What a step of the measurement was told.
#[derive(Clone, Copy, Debug, PartialEq, Eq, Structural)]
pub enum MeasureEvent {
    /// The measurement begins
    Begin,
    /// What came of the command for the last region
    Updated(SevReply),
}

/// What is to be done next to measure the regions of a guest.
#[derive(Clone, Copy, Debug, PartialEq, Eq, Structural)]
pub enum MeasureAction {
    /// Add a region to an SNP guest
    SnpUpdate(SnpUpdate),
    /// Encrypt a region of a SEV guest
    Update(DataUpdate),
    /// All regions have been measured
    Finished,
}

impl SevView {
    /// Whether the step of the measurement that is told `event` goes on to the next region.
    pub open spec fn measures_on(event: MeasureEvent) -> bool {
        match event {
            MeasureEvent::Begin => true,
            MeasureEvent::Updated(reply) => answer(reply) is Ok,
        }
    }

    /// The guest address that the host has to find for the next region, if it has to.
    pub open spec fn next_lookup(self) -> Option<GuestAddress> {
        if self.measured_regions.len() == 0 || (self.snp && self.state != State::LaunchUpdate) {
            None
        } else {
            Some(self.measured_regions.last().start)
        }
    }

    /// Whether the next region can be measured, with the host finding it at `host_addr`.
    pub open spec fn can_measure(self, host_addr: Option<u64>) -> bool {
        self.measured_regions.len() > 0 ==> {
            let region = self.measured_regions.last();
            &&& region.len <= u32::MAX
            &&& self.next_lookup() is Some ==> host_addr is Some
            &&& !self.snp ==> {
                &&& blocks_len(host_addr->0, region.len as u32) <= u32::MAX
                &&& self.state == State::LaunchUpdate ==> blocks_in_memory(
                    region.start,
                    region.len as u32,
                    host_addr->0,
                )
            }
        }
    }

    /// What a step of the measurement does, and what is to be done next: the region that was added
    /// last is measured first. The first refusal ends the measurement.
    pub open spec fn measure_step(self, event: MeasureEvent, host_addr: Option<u64>) -> (
        SevView,
        SevResult<MeasureAction>,
    ) {
        match event {
            MeasureEvent::Updated(SevReply::Failed { fw_error, errno }) => (
                self,
                Err(answer(SevReply::Failed { fw_error, errno })->Err_0),
            ),
            _ => if self.measured_regions.len() == 0 {
                (self, Ok(MeasureAction::Finished))
            } else {
                let region = self.measured_regions.last();
                let len = region.len as u32;
                (
                    SevView { measured_regions: self.measured_regions.drop_last(), ..self },
                    if self.state != State::LaunchUpdate {
                        Err(SevError::InvalidPlatformState)
                    } else if self.snp {
                        Ok(
                            MeasureAction::SnpUpdate(
                                snp_update_of(region.start, len, host_addr->0, PageType::Normal),
                            ),
                        )
                    } else {
                        Ok(MeasureAction::Update(data_update_of(region.start, len, host_addr->0)))
                    },
                )
            },
        }
    }

    /// What the guest shares for its boot, by the kind of its kernel.
    pub open spec fn boot_regions(self, is_bzimage: bool) -> Seq<MemoryRegion> {
        if !self.snp {
            Seq::empty()
        } else if is_bzimage {
            seq![
                MemoryRegion { start: GuestAddress(BZIMAGE_ADDR), len: BZIMAGE_MAX_LEN },
                MemoryRegion { start: GuestAddress(GHCB_ADDR_BZIMAGE), len: PAGE_SIZE_2MB },
            ]
        } else {
            seq![
                MemoryRegion {
                    start: GuestAddress(KERNEL_BOUNCE_BUFFER),
                    len: KERNEL_BOUNCE_BUFFER_LEN,
                },
                MemoryRegion { start: GuestAddress(GHCB_ADDR_ELF), len: PAGE_SIZE_2MB },
            ]
        }
    }

    /// Where the guest shares the plain text of its ramdisk, if it does.
    pub open spec fn initrd_regions(self, initrd: Option<InitrdConfig>) -> Seq<MemoryRegion> {
        match initrd {
            Some(i) => if self.snp {
                seq![i.plain_text()]
            } else {
                Seq::empty()
            },
            None => Seq::empty(),
        }
    }

    /// The attributes for all of the guest's memory, private memory first. Only an SNP guest has
    /// private memory.
    pub open spec fn all_attributes(self) -> Seq<MemoryAttributes> {
        self.ram_attributes() + memory::attributes_of(self.shared_regions, 0)
    }

    /// The attributes for the private memory of the guest.
    pub open spec fn ram_attributes(self) -> Seq<MemoryAttributes> {
        if self.snp {
            memory::attributes_of(self.ram_regions, MEMORY_ATTRIBUTE_PRIVATE)
        } else {
            Seq::empty()
        }
    }

    /// The guest without regions that are still to be registered.
    pub open spec fn all_registered(self) -> SevView {
        SevView { ram_regions: Seq::empty(), shared_regions: Seq::empty(), ..self }
    }
}

/// The regions of the first `count` entries of a memory map.
pub open spec fn map_regions(entries: Seq<E820Entry>, count: nat) -> Seq<MemoryRegion> {
    Seq::new(
        count,
        |i: int| MemoryRegion { start: GuestAddress(entries[i].addr), len: entries[i].size },
    )
}

/// What is to be done to finish a launch: the memory attributes to set first, in this order, and
/// the command to issue then.
#[derive(Debug)]
pub struct FinishRequest {
    pub attributes: Vec<MemoryAttributes>,
    pub command: SevCommand,
}

impl Sev {
    /// The guest address that the host has to find before the next step of the measurement, if it
    /// has to.
    pub fn next_measured(&self) -> (a: Option<GuestAddress>)
        ensures
            a == self@.next_lookup(),
    {
        if self.measured_regions.len() == 0 || (self.snp && self.state != State::LaunchUpdate) {
            None
        } else {
            Some(self.measured_regions[self.measured_regions.len() - 1].start)
        }
    }

    /// Whether `launch_update_data` can be asked to encrypt `len` bytes at `guest_addr`, which the
    /// host finds at `host_addr`.
    pub fn can_update_data(&self, guest_addr: GuestAddress, len: u32, host_addr: u64) -> (ok: bool)
        ensures
            ok == (blocks_len(host_addr, len) <= u32::MAX && (self@.state == State::LaunchUpdate
                ==> blocks_in_memory(guest_addr, len, host_addr))),
    {
        let before: u64 = host_addr % ENCRYPTION_BLOCK;
        let touched: u64 = len as u64 + before;
        let blocks: u64 = if touched % ENCRYPTION_BLOCK == 0 {
            touched
        } else {
            touched - touched % ENCRYPTION_BLOCK + ENCRYPTION_BLOCK
        };
        if blocks > u32::MAX as u64 {
            return false;
        }
        if self.state != State::LaunchUpdate {
            return true;
        }
        let start: u64 = host_addr - before;
        if before > guest_addr.0 || blocks > u64::MAX - start || len as u64 > u64::MAX - host_addr {
            return false;
        }
        start + blocks == host_addr + len as u64 || len as u64 <= u64::MAX - guest_addr.0
    }

    /// Whether the next region can be measured, with the host finding it at `host_addr`.
    pub fn can_measure_next(&self, host_addr: Option<u64>) -> (ok: bool)
        ensures
            ok == self@.can_measure(host_addr),
    {
        if self.measured_regions.len() == 0 {
            return true;
        }
        let region: MemoryRegion = self.measured_regions[self.measured_regions.len() - 1];
        if region.len > u32::MAX as u64 {
            return false;
        }
        match host_addr {
            None => self.snp && self.state != State::LaunchUpdate,
            Some(host_addr) => self.snp || self.can_update_data(
                region.start,
                region.len as u32,
                host_addr,
            ),
        }
    }

    /// Whether the pages of all regions that are to be registered have lengths that fit.
    pub fn can_register(&self) -> (ok: bool)
        ensures
            ok == (memory::all_fit(self@.ram_regions) && memory::all_fit(self@.shared_regions)),
    {
        memory::can_drain(&self.ram_regions) && memory::can_drain(&self.shared_regions)
    }

    /// Call LAUNCH_UPDATE on all regions, step by step: what is to be done next. The host finds the
    /// next region at `host_addr`.
    pub fn measure_regions(&mut self, event: MeasureEvent, host_addr: Option<u64>) -> (r: SevResult<
        MeasureAction,
    >)
        requires
            SevView::measures_on(event) ==> old(self)@.can_measure(host_addr),
            !SevView::measures_on(event) ==> old(self)@.snp,
        ensures
            (final(self)@, r) == old(self)@.measure_step(event, host_addr),
    {
        if let MeasureEvent::Updated(reply) = event {
            match Sev::sev_ioctl(reply) {
                Ok(()) => {},
                Err(e) => {
                    return Err(e);
                },
            }
        }
        match self.measured_regions.pop() {
            None => Ok(MeasureAction::Finished),
            Some(region) => {
                assert(region == old(self)@.measured_regions.last());
                let len: u32 = region.len as u32;
                if self.snp {
                    match self.snp_launch_update(region.start, len, host_addr, PageType::Normal) {
                        Ok(update) => Ok(MeasureAction::SnpUpdate(update)),
                        Err(e) => Err(e),
                    }
                } else {
                    match host_addr {
                        None => Err(SevError::InvalidPlatformState),
                        Some(host_addr) => match self.launch_update_data(
                            region.start,
                            len,
                            host_addr,
                        ) {
                            Ok(update) => Ok(MeasureAction::Update(update)),
                            Err(e) => Err(e),
                        },
                    }
                }
            },
        }
    }

    /// Add ram regions to be marked private in RMP
    pub fn add_ram_regions(&mut self, entries: &[E820Entry], count: usize)
        requires
            count <= entries@.len(),
        ensures
            final(self)@ == (SevView {
                ram_regions: old(self)@.ram_regions + map_regions(entries@, count as nat),
                ..old(self)@
            }),
    {
        let mut i: usize = 0;
        while i < count
            invariant
                i <= count <= entries@.len(),
                self@ == (SevView {
                    ram_regions: old(self)@.ram_regions + map_regions(entries@, i as nat),
                    ..old(self)@
                }),
            decreases count - i,
        {
            let entry: E820Entry = entries[i];
            self.ram_regions.push(
                MemoryRegion { start: GuestAddress(entry.addr), len: entry.size },
            );
            i += 1;
            assert(self@.ram_regions =~= old(self)@.ram_regions + map_regions(entries@, i as nat));
        }
        assert(self@.ram_regions =~= old(self)@.ram_regions + map_regions(entries@, count as nat));
    }

    /// Register ram regions for snp: the attributes to set, in this order.
    pub fn register_ram_regions(&mut self) -> (out: Vec<MemoryAttributes>)
        requires
            memory::all_fit(old(self)@.ram_regions),
        ensures
            out@ == old(self)@.ram_attributes(),
            final(self)@ == (SevView { ram_regions: Seq::empty(), ..old(self)@ }),
    {
        let out: Vec<MemoryAttributes> = memory::drain_regions(
            &mut self.ram_regions,
            MEMORY_ATTRIBUTE_PRIVATE,
        );
        if self.snp {
            out
        } else {
            Vec::new()
        }
    }

    /// Register shared regions for snp: the attributes to set, in this order.
    pub fn register_shared_regions(&mut self) -> (out: Vec<MemoryAttributes>)
        requires
            memory::all_fit(old(self)@.shared_regions),
        ensures
            out@ == memory::attributes_of(old(self)@.shared_regions, 0),
            final(self)@ == (SevView { shared_regions: Seq::empty(), ..old(self)@ }),
    {
        memory::drain_regions(&mut self.shared_regions, 0)
    }

    /// Finish SNP launch sequence: what is to be done.
    pub fn snp_launch_finish(&mut self) -> (request: FinishRequest)
        requires
            memory::all_fit(old(self)@.ram_regions),
            memory::all_fit(old(self)@.shared_regions),
        ensures
            request.attributes@ == old(self)@.all_attributes(),
            request.command == SevCommand::SnpLaunchFinish,
            final(self)@ == old(self)@.all_registered(),
    {
        // everything should be pre-encrypted by now so we can register memory
        let mut attributes: Vec<MemoryAttributes> = self.register_ram_regions();
        // register the shared regions after registering ram because they probably overlap
        let mut shared: Vec<MemoryAttributes> = self.register_shared_regions();
        attributes.append(&mut shared);
        FinishRequest { attributes, command: SevCommand::SnpLaunchFinish }
    }

    /// Finish SEV launch sequence: the memory attributes to set, in this order, and then the
    /// command to issue, which is refused unless the measurement has been taken.
    pub fn sev_launch_finish(&mut self) -> (r: (Vec<MemoryAttributes>, SevResult<SevCommand>))
        requires
            memory::all_fit(old(self)@.ram_regions),
            memory::all_fit(old(self)@.shared_regions),
        ensures
            r.0@ == old(self)@.all_attributes(),
            r.1 == old(self)@.finish_command(),
            final(self)@ == old(self)@.all_registered(),
    {
        let mut attributes: Vec<MemoryAttributes> = self.register_ram_regions();
        let mut shared: Vec<MemoryAttributes> = self.register_shared_regions();
        attributes.append(&mut shared);
        if self.state != State::LaunchSecret {
            return (attributes, Err(SevError::InvalidPlatformState));
        }
        (attributes, Ok(SevCommand::LaunchFinish { handle: self.handle }))
    }

    /// The launch was finished on the platform.
    pub fn sev_launch_finished(&mut self)
        requires
            old(self)@.state == State::LaunchSecret,
        ensures
            final(self)@ == (SevView { state: State::Running, ..old(self)@ }),
    {
        self.state = State::Running;
    }

    /// Shares what the firmware needs to fetch the kernel, and the ramdisk if there is one. A
    /// bzImage of `kernel_len` bytes stands at its place in guest memory; its length is returned.
    pub fn load_kernel_and_initrd(
        &mut self,
        is_bzimage: bool,
        kernel_len: u64,
        initrd: &Option<InitrdConfig>,
    ) -> (r: SevResult<u64>)
        requires
            initrd matches Some(i) ==> i.has_room(),
        ensures
            r == Ok::<u64, SevError>(
                if is_bzimage {
                    kernel_len
                } else {
                    0
                },
            ),
            final(self)@ == old(self)@.sharing_boot(is_bzimage, *initrd),
    {
        let mut len: u64 = 0;
        if is_bzimage {
            len = kernel_len;
        }
        if self.snp {
            if is_bzimage {
                //set the plain text region for the bzimage shared
                self.add_shared_region(GuestAddress(BZIMAGE_ADDR), BZIMAGE_MAX_LEN);
                self.add_shared_region(GuestAddress(GHCB_ADDR_BZIMAGE), PAGE_SIZE_2MB);
            } else {
                //set the plain text bounce buffer for kernel elf data shared
                self.add_shared_region(
                    GuestAddress(KERNEL_BOUNCE_BUFFER),
                    KERNEL_BOUNCE_BUFFER_LEN,
                );
                self.add_shared_region(GuestAddress(GHCB_ADDR_ELF), PAGE_SIZE_2MB);
            }
        }
        assert(self@.shared_regions =~= old(self)@.shared_regions + old(self)@.boot_regions(
            is_bzimage,
        ));
        if let Some(initrd) = initrd {
            //plain text initrd will be just before its final resting place
            let region: MemoryRegion = initrd.plain_text_region();
            if self.snp {
                self.add_shared_region(region.start, region.len);
            }
        }
        assert(self@.shared_regions =~= old(self)@.shared_regions + old(self)@.boot_regions(
            is_bzimage,
        ) + old(self)@.initrd_regions(*initrd));
        Ok(len)
    }

    /// Load SEV firmware: `len` bytes of it stand at their place in guest memory.
    pub fn load_firmware(&mut self, len: u64) -> (r: SevResult<()>)
        ensures
            r is Ok,
            final(self)@ == old(self)@.measuring(GuestAddress(FIRMWARE_ADDR), len),
            final(self)@.measured_regions.last() == (MemoryRegion {
                start: GuestAddress(0x100000),
                len,
            }),
    {
        self.add_measured_region(GuestAddress(FIRMWARE_ADDR), len);
        Ok(())
    }

    /// Handle a vmgexit when the guest isn't using the MSR protocol: the block `block` stands at
    /// `ghcb_msr` in guest memory.
    pub fn handle_vmgexit(ghcb_msr: u64, block: &[u8]) -> (exit: VmgExit)
        requires
            block@.len() == ghcb::GHCB_LEN,
            ghcb::entries_in_range(ghcb::shared_buffer(block@)),
            ghcb_msr + ghcb::GHCB_SHARED_BUF_OFFSET <= u64::MAX,
        ensures
            exit.changes@ == ghcb::requested(ghcb::shared_buffer(block@)),
            exit.reply@ == (
                GuestAddress((ghcb_msr + ghcb::GHCB_SHARED_BUF_OFFSET) as u64),
                ghcb::handled(ghcb::shared_buffer(block@)),
            ),
            exit.reply.address.0 == ghcb_msr + 0x800,
    {
        ghcb::handle_vmgexit(ghcb_msr, block)
    }

    /// Change page state: the attributes to set.
    pub fn set_page_state(gfn: u64, pg_size: u64, private: bool) -> (attrs: MemoryAttributes)
        ensures
            attrs == ghcb::page_state(gfn, pg_size, private),
    {
        ghcb::set_page_state(gfn, pg_size, private)
    }

    /// How far the launch has come.
    pub fn state(&self) -> (state: State)
        ensures
            state == self@.state,
    {
        self.state
    }

    /// When the launch began.
    pub fn timestamp(&self) -> (t: TimestampUs)
        ensures
            t == self@.timestamp,
    {
        self.timestamp
    }
}

/// How far the launch of a guest in the state `state` has come.
pub open spec fn stage(state: State) -> int {
    match state {
        State::UnInit => 0,
        State::Init => 1,
        State::LaunchUpdate => 2,
        State::LaunchSecret => 3,
        State::Running => 4,
        _ => 5,
    }
}

/// Whether a step from `before` to `after` with the answer `r` keeps the order of a launch: it takes
/// the guest to the next stage or leaves it where it is, and a refusal changes nothing.
pub open spec fn keeps_order(
    before: SevView,
    after: SevView,
    r: SevResult<Option<SevCommand>>,
) -> bool {
    &&& after.state == before.state || stage(after.state) == stage(before.state) + 1
    &&& r is Err ==> after == before
}

/// A launch goes through its stages one at a time, and a refused step changes nothing: no step that
/// starts an SNP guest breaks the order.
pub proof fn snp_launch_keeps_order(sev: SevView, event: SnpInitEvent)
    requires
        event is Initialized ==> sev.state == State::UnInit,
        event is Started ==> sev.state == State::Init,
    ensures
        keeps_order(sev, sev.snp_init_step(event).0, sev.snp_init_step(event).1),
{
}

/// A launch goes through its stages one at a time, and a refused step changes nothing: no step that
/// starts a SEV guest breaks the order.
pub proof fn sev_launch_keeps_order(sev: SevView, event: SevInitEvent)
    requires
        event is Initialized ==> sev.state == State::UnInit,
        event is Started ==> sev.state == State::Init,
    ensures
        keeps_order(sev, sev.sev_init_step(event).0, sev.sev_init_step(event).1),
{
}

/// A launch goes through its stages one at a time, and a refused step changes nothing: no step that
/// gets the measurement breaks the order.
pub proof fn measurement_keeps_order(sev: SevView, event: MeasurementEvent)
    requires
        event is Measured ==> sev.state == State::LaunchUpdate,
    ensures
        keeps_order(sev, sev.measurement_step(event).0, sev.measurement_step(event).1),
{
}

/// A guest is started once, and measured only after it was started and before it was measured: a
/// request at another stage is answered with an invalid platform state.
pub proof fn requests_out_of_order_are_refused(sev: SevView)
    ensures
        stage(sev.state) != 0 ==> sev.snp_init_step(SnpInitEvent::Begin) == (
            sev,
            Err::<Option<SevCommand>, SevError>(SevError::InvalidPlatformState),
        ),
        stage(sev.state) != 0 ==> sev.sev_init_step(SevInitEvent::Begin) == (
            sev,
            Err::<Option<SevCommand>, SevError>(SevError::InvalidPlatformState),
        ),
        stage(sev.state) != 2 ==> sev.measurement_step(MeasurementEvent::Begin) == (
            sev,
            Err::<Option<SevCommand>, SevError>(SevError::InvalidPlatformState),
        ),
{
}

/// What is done to measure `region`, which the host finds at `host_addr`.
pub open spec fn region_action(snp: bool, region: MemoryRegion, host_addr: u64) -> MeasureAction {
    if snp {
        MeasureAction::SnpUpdate(
            snp_update_of(region.start, region.len as u32, host_addr, PageType::Normal),
        )
    } else {
        MeasureAction::Update(data_update_of(region.start, region.len as u32, host_addr))
    }
}

impl SevView {
    /// What is done, step by step, to measure the regions of the guest when nothing is refused. The
    /// host finds a guest address where `host` says.
    pub open spec fn measure_run(self, host: spec_fn(GuestAddress) -> u64) -> Seq<MeasureAction>
        decreases self.measured_regions.len(),
    {
        let host_addr = match self.next_lookup() {
            Some(a) => Some(host(a)),
            None => None,
        };
        let (next, r) = self.measure_step(MeasureEvent::Updated(SevReply::Done), host_addr);
        if next.measured_regions.len() < self.measured_regions.len() && r is Ok {
            seq![r->Ok_0] + next.measure_run(host)
        } else {
            Seq::empty()
        }
    }
}

/// Every region is measured exactly once, and the one that was added last is measured first.
pub proof fn every_region_is_measured(sev: SevView, host: spec_fn(GuestAddress) -> u64)
    requires
        sev.state == State::LaunchUpdate,
    ensures
        sev.measure_run(host) == Seq::new(
            sev.measured_regions.len(),
            |i: int|
                {
                    let region = sev.measured_regions[sev.measured_regions.len() - 1 - i];
                    region_action(sev.snp, region, host(region.start))
                },
        ),
    decreases sev.measured_regions.len(),
{
    let regions = sev.measured_regions;
    let all = Seq::new(
        regions.len(),
        |i: int|
            {
                let region = regions[regions.len() - 1 - i];
                region_action(sev.snp, region, host(region.start))
            },
    );
    if regions.len() > 0 {
        let next = SevView { measured_regions: regions.drop_last(), ..sev };
        every_region_is_measured(next, host);
        assert(sev.measure_run(host) =~= all);
    } else {
        assert(sev.measure_run(host) =~= all);
    }
}

/// The firmware knows its errors by these numbers, and no error by any other number.
pub proof fn errors_have_their_numbers(code: u32)
    ensures
        code == 0x01 <==> SevError::of_code(code) == SevError::InvalidPlatformState,
        code == 0x02 <==> SevError::of_code(code) == SevError::InvalidGuestState,
        code == 0x03 <==> SevError::of_code(code) == SevError::InvalidConfig,
        code == 0x04 <==> SevError::of_code(code) == SevError::InvalidLength,
        code == 0x05 <==> SevError::of_code(code) == SevError::AlreadyOwned,
        code == 0x06 <==> SevError::of_code(code) == SevError::InvalidCertificate,
        code == 0x07 <==> SevError::of_code(code) == SevError::PolicyFailure,
        code == 0x08 <==> SevError::of_code(code) == SevError::Inactive,
        code == 0x09 <==> SevError::of_code(code) == SevError::InvalidAddress,
        code == 0x0a <==> SevError::of_code(code) == SevError::BadSignature,
        code == 0x0b <==> SevError::of_code(code) == SevError::BadMeasurement,
        code == 0x0c <==> SevError::of_code(code) == SevError::AsidOwned,
        code == 0x0d <==> SevError::of_code(code) == SevError::InvalidAsid,
        code == 0x0e <==> SevError::of_code(code) == SevError::WBINVDRequired,
        code == 0x0f <==> SevError::of_code(code) == SevError::DfFlushRequired,
        code == 0x10 <==> SevError::of_code(code) == SevError::InvalidGuest,
        code == 0x11 <==> SevError::of_code(code) == SevError::InvalidCommand,
        code == 0x13 <==> SevError::of_code(code) == SevError::HwerrorPlatform,
        code == 0x14 <==> SevError::of_code(code) == SevError::HwerrorUnsafe,
        code == 0x15 <==> SevError::of_code(code) == SevError::Unsupported,
        code == 0x16 <==> SevError::of_code(code) == SevError::InvalidParam,
        code == 0x17 <==> SevError::of_code(code) == SevError::ResourceLimit,
        code == 0x18 <==> SevError::of_code(code) == SevError::SecureDataInvalid,
        code == 0x19 <==> SevError::of_code(code) == SevError::InvalidPageSize,
        code == 0x1a <==> SevError::of_code(code) == SevError::InvalidPageState,
        code == 0x1b <==> SevError::of_code(code) == SevError::InvalidMDataEntry,
        code == 0x1c <==> SevError::of_code(code) == SevError::InvalidPageOwner,
        code == 0x1d <==> SevError::of_code(code) == SevError::AeadOverflow,
        code == 0x1f <==> SevError::of_code(code) == SevError::RbModeExited,
        code == 0x20 <==> SevError::of_code(code) == SevError::RmpInitRequired,
        code == 0x21 <==> SevError::of_code(code) == SevError::BadSvn,
        code == 0x22 <==> SevError::of_code(code) == SevError::BadVersion,
        code == 0x23 <==> SevError::of_code(code) == SevError::ShutdownRequired,
        code == 0x24 <==> SevError::of_code(code) == SevError::UpdateFailed,
        code == 0x25 <==> SevError::of_code(code) == SevError::RestoreRequired,
        code == 0x26 <==> SevError::of_code(code) == SevError::RmpInitFailed,
        code == 0x27 <==> SevError::of_code(code) == SevError::InvalidKey,
        code == 0 || code == 0x12 || code == 0x1e || code > 0x27 <==> SevError::of_code(code)
            == SevError::InvalidErrorCode,
{
}


/// A command that was carried out is answered with success and every other with an error: that of
/// the firmware, if it gave one, or else that of the system.
pub proof fn refusals_are_passed_on(fw_error: u32, errno: i32)
    ensures
        answer(SevReply::Done) is Ok,
        ({
            let r = answer(SevReply::Failed { fw_error, errno });
            &&& fw_error != 0 ==> r == Err::<(), SevError>(SevError::of_code(fw_error))
            &&& fw_error == 0 ==> r == Err::<(), SevError>(SevError::Errno(errno))
        }),
{
}

/// A guest asks for encrypted state in bit 2 of its policy.
pub proof fn encrypted_state_is_bit_two(policy: u32)
    ensures
        asks_es(policy) <==> policy & 4 == 4,
{
    assert((policy / 4 % 2 == 1) == (policy & 4 == 4)) by (bit_vector);
}

/// The platform is told the length of a buffer that it is given, and 0 where it is given none.
pub proof fn lengths_are_told(len: usize)
    ensures
        told_len(None) == 0,
        len <= u32::MAX ==> told_len(Some(len)) == len,
        (len - told_len(Some(len))) % 0x1_0000_0000 == 0,
{
}

/// An SNP guest is started in three steps: the platform is initialized, the launch is started with a
/// policy that allows multithreading and debugging, and the guest is then ready for its pages.
/// Nothing else that is known of the guest changes, and a refusal changes nothing at all.
pub proof fn snp_guest_is_started_step_by_step(sev: SevView, fw_error: u32, errno: i32)
    requires
        sev.state == State::UnInit,
    ensures
        ({
            let refused = SevReply::Failed { fw_error, errno };
            let (first, init) = sev.snp_init_step(SnpInitEvent::Begin);
            let (then, start) = first.snp_init_step(SnpInitEvent::Initialized(SevReply::Done));
            let (last, end) = then.snp_init_step(SnpInitEvent::Started(SevReply::Done));
            &&& first == sev
            &&& init == Ok::<Option<SevCommand>, SevError>(Some(SevCommand::SnpInit { flags: 0 }))
            &&& then.state == State::Init
            &&& start == Ok::<Option<SevCommand>, SevError>(
                Some(SevCommand::SnpLaunchStart { policy: 0xb0000 }),
            )
            &&& last == (SevView { state: State::LaunchUpdate, policy: 0xb0000, ..sev })
            &&& end == Ok::<Option<SevCommand>, SevError>(None)
            &&& fw_error == 0 ==> {
                let error = Err::<Option<SevCommand>, SevError>(SevError::Errno(errno));
                &&& sev.snp_init_step(SnpInitEvent::Initialized(refused)) == (sev, error)
                &&& then.snp_init_step(SnpInitEvent::Started(refused)) == (then, error)
            }
            &&& fw_error != 0 ==> {
                let error = Err::<Option<SevCommand>, SevError>(SevError::of_code(fw_error));
                &&& sev.snp_init_step(SnpInitEvent::Initialized(refused)) == (sev, error)
                &&& then.snp_init_step(SnpInitEvent::Started(refused)) == (then, error)
            }
        }),
{
}

/// A SEV guest is started in three steps: the platform is initialized, for encrypted state if the
/// guest asks for it, the launch is started with the policy of the guest and what its owner gave for
/// it, and the guest is then known by the handle that the platform gave it. Nothing else that is
/// known of the guest changes.
pub proof fn sev_guest_is_started_step_by_step(
    sev: SevView,
    session: Option<usize>,
    dh_cert: Option<usize>,
    handle: u32,
)
    requires
        sev.state == State::UnInit,
        session matches Some(n) ==> n <= u32::MAX,
        dh_cert matches Some(n) ==> n <= u32::MAX,
    ensures
        ({
            let (first, init) = sev.sev_init_step(SevInitEvent::Begin);
            let (then, start) = first.sev_init_step(SevInitEvent::Initialized { session, dh_cert });
            let (last, end) = then.sev_init_step(SevInitEvent::Started { handle });
            &&& first == sev
            &&& sev.es ==> init == Ok::<Option<SevCommand>, SevError>(Some(SevCommand::SevEsInit))
            &&& !sev.es ==> init == Ok::<Option<SevCommand>, SevError>(Some(SevCommand::SevInit))
            &&& then.state == State::Init
            &&& start matches Ok(Some(SevCommand::LaunchStart {
                handle: none,
                guest_policy,
                session_len,
                dh_len,
            })) && none == 0 && guest_policy == sev.policy && (session matches Some(n)
                ==> session_len == n) && (dh_cert matches Some(n) ==> dh_len == n) && (session is None
                ==> session_len == 0) && (dh_cert is None ==> dh_len == 0)
            &&& last == (SevView { state: State::LaunchUpdate, handle, ..sev })
            &&& end == Ok::<Option<SevCommand>, SevError>(None)
        }),
{
}

/// A SEV guest that is ready is asked for 48 bytes of measurement, and the measurement that the
/// platform gives is the one that is kept.
pub proof fn measurement_is_kept(sev: SevView, measure: [u8; 48])
    requires
        sev.state == State::LaunchUpdate,
    ensures
        sev.measurement_step(MeasurementEvent::Begin) == (
            sev,
            Ok::<Option<SevCommand>, SevError>(Some(SevCommand::LaunchMeasure { len: 48 })),
        ),
        sev.measurement_step(MeasurementEvent::Measured(measure)) == (
            SevView { state: State::LaunchSecret, measure: measure@, ..sev },
            Ok::<Option<SevCommand>, SevError>(None),
        ),
{
}

/// The command that adds pages to an SNP guest is for exactly the bytes that are asked for: those
/// that the host finds at `host_addr`, all `len` of them, from the page on in which `guest_addr` lies,
/// and with the number of the page type that is asked for. The pages are shared before: from the same
/// page on, as many as the bytes touch on the host.
pub proof fn update_is_for_the_bytes_asked_for(
    guest_addr: GuestAddress,
    len: u32,
    host_addr: u64,
    page_type: PageType,
)
    ensures
        ({
            let update = snp_update_of(guest_addr, len, host_addr, page_type);
            let shared = update.attributes;
            &&& update.command matches SevCommand::SnpLaunchUpdate {
                start_gfn,
                uaddr,
                len: asked,
                page_type: number,
            } && start_gfn * 0x1000 <= guest_addr.0 < (start_gfn + 1) * 0x1000 && uaddr == host_addr
                && asked == len && (page_type == PageType::Normal ==> number == 1) && (page_type
                == PageType::Secrets ==> number == 5) && (page_type == PageType::Cpuid ==> number
                == 6)
            &&& shared.address % 0x1000 == 0
            &&& shared.address <= guest_addr.0 < shared.address + 0x1000
            &&& shared.size % 0x1000 == 0
            &&& len + host_addr % 0x1000 <= shared.size < len + host_addr % 0x1000 + 0x1000
            &&& shared.attributes == 0
            &&& shared.flags == 0
        }),
{
}

/// A measurement of an SNP guest makes one command for each region, the region that was added last
/// first: it is for all bytes of the region, at the place where the host finds it, and as measured
/// contents.
pub proof fn snp_regions_are_measured_in_full(
    sev: SevView,
    host: spec_fn(GuestAddress) -> u64,
    i: int,
)
    requires
        sev.snp,
        sev.state == State::LaunchUpdate,
        0 <= i < sev.measured_regions.len(),
        sev.measured_regions[i].len <= u32::MAX,
    ensures
        ({
            let run = sev.measure_run(host);
            let region = sev.measured_regions[i];
            &&& run.len() == sev.measured_regions.len()
            &&& run[run.len() - 1 - i] matches MeasureAction::SnpUpdate(update)
                && update.command matches SevCommand::SnpLaunchUpdate {
                start_gfn,
                uaddr,
                len,
                page_type,
            } && len == region.len && uaddr == host(region.start) && start_gfn * 0x1000
                <= region.start.0 < (start_gfn + 1) * 0x1000 && page_type == 1
        }),
{
    let region = sev.measured_regions[i];
    every_region_is_measured(sev, host);
    update_is_for_the_bytes_asked_for(
        region.start,
        region.len as u32,
        host(region.start),
        PageType::Normal,
    );
}

/// Whether the blocks of 16 bytes around `len` bytes lie in memory, in the guest and on the host, is
/// no matter away from the ends of memory.
proof fn blocks_away_from_the_ends(guest_addr: GuestAddress, len: u32, host_addr: u64)
    requires
        16 <= guest_addr.0,
        guest_addr.0 + len + 16 <= u64::MAX,
        host_addr + len + 32 <= u64::MAX,
        len + 32 <= u32::MAX,
    ensures
        blocks_len(host_addr, len) <= u32::MAX,
        blocks_in_memory(guest_addr, len, host_addr),
{
}

/// The command that encrypts memory of a SEV guest is for whole blocks of 16 bytes on the host, as
/// few as hold the bytes that are asked for. What the blocks hold before and after those bytes are
/// the gaps, each at its place in guest memory.
pub proof fn encryption_is_for_the_bytes_asked_for(
    guest_addr: GuestAddress,
    len: u32,
    host_addr: u64,
)
    requires
        16 <= guest_addr.0,
        guest_addr.0 + len + 16 <= u64::MAX,
        host_addr + len + 32 <= u64::MAX,
        len + 32 <= u32::MAX,
    ensures
        ({
            let update = data_update_of(guest_addr, len, host_addr);
            &&& blocks_len(host_addr, len) <= u32::MAX
            &&& blocks_in_memory(guest_addr, len, host_addr)
            &&& update.command matches SevCommand::LaunchUpdateData { uaddr, len: encrypted }
                && uaddr % 16 == 0 && encrypted % 16 == 0 && uaddr <= host_addr < uaddr + 16
                && host_addr + len <= uaddr + encrypted < host_addr + len + 16 && (
            update.before is None <==> uaddr == host_addr) && (update.before matches Some(gap)
                ==> gap.len == host_addr - uaddr && gap.start.0 + gap.len == guest_addr.0) && (
            update.after is None <==> uaddr + encrypted == host_addr + len) && (
            update.after matches Some(gap) ==> gap.len == uaddr + encrypted - host_addr - len
                && gap.start.0 == guest_addr.0 + len)
        }),
{
    blocks_away_from_the_ends(guest_addr, len, host_addr);
}

/// When memory of a SEV guest is encrypted, the bytes that are asked for are what the guest has
/// there, and whatever else lies in the encrypted blocks is zero. No other memory is changed.
pub proof fn nothing_else_is_encrypted_along(
    guest_addr: GuestAddress,
    len: u32,
    host_addr: u64,
    memory: spec_fn(int) -> u8,
    address: int,
)
    requires
        16 <= guest_addr.0,
        guest_addr.0 + len + 16 <= u64::MAX,
        host_addr + len + 32 <= u64::MAX,
        len + 32 <= u32::MAX,
    ensures
        ({
            let update = data_update_of(guest_addr, len, host_addr);
            let held = memory_after(memory, update.filled())(address);
            let on_host = address - guest_addr.0 + host_addr;
            &&& guest_addr.0 <= address < guest_addr.0 + len ==> held == memory(address)
            &&& update.command matches SevCommand::LaunchUpdateData { uaddr, len: encrypted } && {
                let in_blocks = uaddr <= on_host < uaddr + encrypted;
                &&& !in_blocks ==> held == memory(address)
                &&& in_blocks && !(guest_addr.0 <= address < guest_addr.0 + len) ==> held == 0
            }
        }),
{
    encryption_is_for_the_bytes_asked_for(guest_addr, len, host_addr);
    gaps_are_filled_with_zeros(guest_addr, len, host_addr, memory, address);
}

/// A measurement of a SEV guest makes one command for each region, the region that was added last
/// first: it encrypts the blocks of 16 bytes that hold the region where the host finds it, all of
/// the region and no other block.
pub proof fn sev_regions_are_measured_in_full(
    sev: SevView,
    host: spec_fn(GuestAddress) -> u64,
    i: int,
)
    requires
        !sev.snp,
        sev.state == State::LaunchUpdate,
        0 <= i < sev.measured_regions.len(),
        ({
            let region = sev.measured_regions[i];
            &&& region.len + 32 <= u32::MAX
            &&& 16 <= region.start.0
            &&& region.start.0 + region.len + 16 <= u64::MAX
            &&& host(region.start) + region.len + 32 <= u64::MAX
        }),
    ensures
        ({
            let run = sev.measure_run(host);
            let region = sev.measured_regions[i];
            let at = host(region.start);
            &&& run.len() == sev.measured_regions.len()
            &&& run[run.len() - 1 - i] matches MeasureAction::Update(update)
                && update.command matches SevCommand::LaunchUpdateData { uaddr, len } && uaddr % 16
                == 0 && len % 16 == 0 && uaddr <= at < uaddr + 16 && at + region.len <= uaddr + len
                < at + region.len + 16
        }),
{
    let region = sev.measured_regions[i];
    every_region_is_measured(sev, host);
    encryption_is_for_the_bytes_asked_for(region.start, region.len as u32, host(region.start));
}

/// A measurement takes the regions away one by one, from the end of the list on. It goes on after a
/// region as it began, ends when no region is left, and ends with the error at the first refusal,
/// after which the guest is as it was. Nothing is measured of a guest that is not ready for it.
pub proof fn measurement_goes_on_until_it_is_refused(
    sev: SevView,
    host_addr: Option<u64>,
    fw_error: u32,
    errno: i32,
)
    ensures
        ({
            let begun = sev.measure_step(MeasureEvent::Begin, host_addr);
            let refused = MeasureEvent::Updated(SevReply::Failed { fw_error, errno });
            &&& sev.measure_step(MeasureEvent::Updated(SevReply::Done), host_addr) == begun
            &&& SevView::measures_on(MeasureEvent::Begin)
            &&& SevView::measures_on(MeasureEvent::Updated(SevReply::Done))
            &&& !SevView::measures_on(refused)
            &&& fw_error == 0 ==> sev.measure_step(refused, host_addr) == (
                sev,
                Err::<MeasureAction, SevError>(SevError::Errno(errno)),
            )
            &&& fw_error != 0 ==> sev.measure_step(refused, host_addr) == (
                sev,
                Err::<MeasureAction, SevError>(SevError::of_code(fw_error)),
            )
            &&& sev.measured_regions.len() == 0 ==> begun == (
                sev,
                Ok::<MeasureAction, SevError>(MeasureAction::Finished),
            )
            &&& sev.measured_regions.len() > 0 ==> begun.0 == (SevView {
                measured_regions: sev.measured_regions.drop_last(),
                ..sev
            })
            &&& sev.measured_regions.len() > 0 && sev.state != State::LaunchUpdate ==> begun.1
                == Err::<MeasureAction, SevError>(SevError::InvalidPlatformState)
            &&& sev.measured_regions.len() == 0 ==> sev.next_lookup() is None
            &&& sev.measured_regions.len() > 0 && (sev.state == State::LaunchUpdate || !sev.snp)
                ==> sev.next_lookup() == Some(sev.measured_regions.last().start)
            &&& sev.snp && sev.state != State::LaunchUpdate ==> sev.next_lookup() is None
        }),
{
}

/// A region can be measured if its length is a number of 32 bits, and for a SEV guest if it also lies
/// away from the ends of memory.
pub proof fn regions_can_be_measured(sev: SevView, host_addr: u64)
    requires
        sev.measured_regions.len() > 0 ==> {
            let region = sev.measured_regions.last();
            &&& region.len <= u32::MAX
            &&& !sev.snp ==> {
                &&& region.len + 32 <= u32::MAX
                &&& 16 <= region.start.0
                &&& region.start.0 + region.len + 16 <= u64::MAX
                &&& host_addr + region.len + 32 <= u64::MAX
            }
        },
    ensures
        sev.can_measure(Some(host_addr)),
{
    if sev.measured_regions.len() > 0 && !sev.snp {
        let region = sev.measured_regions.last();
        blocks_away_from_the_ends(region.start, region.len as u32, host_addr);
    }
}

/// The CPUID page stands at 0x1000, where it is written before it is added. It is added as one page
/// of CPUID values, once more if it was refused, and then no more. A guest that is no SNP guest has
/// none.
pub proof fn cpuid_page_is_tried_twice(
    sev: SevView,
    event: CpuidEvent,
    cpuid: Seq<CpuidEntry>,
    host_addr: u64,
    action: CpuidAction,
)
    requires
        sev.cpuid_step(event, cpuid, Some(host_addr), action),
    ensures
        ({
            let command = SevCommand::SnpLaunchUpdate {
                start_gfn: 1,
                uaddr: host_addr,
                len: 0x1000,
                page_type: 6,
            };
            &&& !sev.snp ==> action is Finished
            &&& sev.snp && event == CpuidEvent::Begin ==> (action matches CpuidAction::Insert {
                page,
                update,
            } && page.address.0 == 0x1000 && page.bytes@ == cpuid::page(cpuid) && update.command
                == command)
            &&& sev.snp ==> (event matches CpuidEvent::Inserted(SevReply::Failed { .. }) ==> (
            action matches CpuidAction::Retry(update) && update.command == command))
            &&& event == CpuidEvent::Inserted(SevReply::Done) ==> action is Finished
            &&& event == CpuidEvent::Retried ==> action is Finished
        }),
{
}

/// A launch ends with the attributes for all of the guest's memory. Those of the private regions of
/// an SNP guest come first and have the attribute 8; those of the shared regions follow and have
/// none. Each is for the pages that hold its region.
pub proof fn every_region_is_registered(sev: SevView, i: int)
    ensures
        ({
            let set = sev.all_attributes();
            let private = if sev.snp {
                sev.ram_regions.len() as int
            } else {
                0
            };
            &&& set.len() == private + sev.shared_regions.len()
            &&& sev.snp && 0 <= i < sev.ram_regions.len() && sev.ram_regions[i].len + 0xfff
                <= u64::MAX ==> {
                let one = set[sev.ram_regions.len() - 1 - i];
                let region = sev.ram_regions[i];
                &&& one.address == region.start.0
                &&& one.size % 0x1000 == 0
                &&& region.len <= one.size < region.len + 0x1000
                &&& one.attributes == 8
                &&& one.flags == 0
            }
            &&& 0 <= i < sev.shared_regions.len() && sev.shared_regions[i].len + 0xfff <= u64::MAX
                ==> {
                let one = set[set.len() - 1 - i];
                let region = sev.shared_regions[i];
                &&& one.address == region.start.0
                &&& one.size % 0x1000 == 0
                &&& region.len <= one.size < region.len + 0x1000
                &&& one.attributes == 0
                &&& one.flags == 0
            }
        }),
{
    if 0 <= i < sev.ram_regions.len() && sev.ram_regions[i].len + 0xfff <= u64::MAX {
        memory::every_region_gets_its_attributes(sev.ram_regions, 8, i);
    }
    if 0 <= i < sev.shared_regions.len() && sev.shared_regions[i].len + 0xfff <= u64::MAX {
        memory::every_region_gets_its_attributes(sev.shared_regions, 0, i);
    }
}

/// When a launch has ended, memory of an SNP guest in a shared region is shared, and memory in a
/// private region is private where no page of a shared region lies.
pub proof fn memory_ends_up_as_registered(sev: SevView, address: int, i: int)
    requires
        sev.snp,
        memory::all_fit(sev.ram_regions),
        memory::all_fit(sev.shared_regions),
    ensures
        ({
            let at = memory::attributes_at(sev.all_attributes(), address);
            &&& 0 <= i < sev.shared_regions.len() && sev.shared_regions[i].start.0 <= address
                < sev.shared_regions[i].start.0 + sev.shared_regions[i].len ==> at == Some(0u64)
            &&& 0 <= i < sev.ram_regions.len() && sev.ram_regions[i].start.0 <= address
                < sev.ram_regions[i].start.0 + sev.ram_regions[i].len && (forall|j: int|
                0 <= j < sev.shared_regions.len() ==> !(sev.shared_regions[j].start.0 <= address
                    < sev.shared_regions[j].start.0 + (#[trigger] sev.shared_regions[j]).len
                    + 0x1000)) ==> at == Some(8u64)
        }),
{
    if 0 <= i < sev.shared_regions.len() && sev.shared_regions[i].contains(address) {
        memory::shared_regions_win(sev.ram_regions, sev.shared_regions, address, i);
    }
    if 0 <= i < sev.ram_regions.len() && sev.ram_regions[i].contains(address) && (forall|j: int|
        0 <= j < sev.shared_regions.len() ==> !(sev.shared_regions[j].start.0 <= address
            < sev.shared_regions[j].start.0 + (#[trigger] sev.shared_regions[j]).len + 0x1000)) {
        memory::private_regions_stay_private(sev.ram_regions, sev.shared_regions, address, i);
    }
}

/// An SNP guest shares for its boot 16 MiB at 32 MiB for a bzImage, or else the 2 MiB at 14 MiB
/// through which an uncompressed kernel is handed over, and with either the 2 MiB in which its
/// firmware puts the block that it shares with the host. Another guest shares nothing.
pub proof fn boot_memory_is_shared(sev: SevView)
    ensures
        !sev.snp ==> sev.boot_regions(true).len() == 0 && sev.boot_regions(false).len() == 0,
        sev.snp ==> {
            let packed = sev.boot_regions(true);
            let direct = sev.boot_regions(false);
            &&& packed.len() == 2
            &&& packed[0] == (MemoryRegion { start: GuestAddress(0x2000000), len: 0x1000000 })
            &&& packed[1] == (MemoryRegion { start: GuestAddress(0x3000000), len: 0x200000 })
            &&& direct.len() == 2
            &&& direct[0] == (MemoryRegion { start: GuestAddress(0xe00000), len: 0x200000 })
            &&& direct[1] == (MemoryRegion { start: GuestAddress(0xc00000), len: 0x200000 })
        },
{
}

/// An SNP guest with a ramdisk shares the plain text of it, and no other guest does.
pub proof fn plain_text_of_the_ramdisk_is_shared(sev: SevView, initrd: InitrdConfig)
    requires
        initrd.size <= initrd.address.0 - initrd.address.0 % 0x200000,
    ensures
        sev.initrd_regions(None).len() == 0,
        !sev.snp ==> sev.initrd_regions(Some(initrd)).len() == 0,
        sev.snp ==> {
            let shared = sev.initrd_regions(Some(initrd));
            let end = shared[0].start.0 + shared[0].len;
            &&& shared.len() == 1
            &&& initrd.size <= shared[0].len < initrd.size + 0x200000
            &&& shared[0].len % 0x200000 == 0
            &&& end == initrd.address.0 - initrd.address.0 % 0x200000
        },
{
    memory::plain_text_lies_right_before_the_ramdisk(initrd);
}

/// Every entry of the memory map that counts is a private region, from its address on and as long as
/// it says.
pub proof fn map_entries_are_private_regions(entries: Seq<E820Entry>, count: nat, i: int)
    requires
        0 <= i < count <= entries.len(),
    ensures
        map_regions(entries, count).len() == count,
        map_regions(entries, count)[i].start.0 == entries[i].addr,
        map_regions(entries, count)[i].len == entries[i].size,
{
}

/// A guest is launched from the beginning: nothing is measured, shared, private or known to the
/// platform before. The encryption bit is where the lowest six bits of the CPUID value say, and the
/// guest has encrypted state if bit 2 of its policy is set.
pub proof fn new_guest_is_not_started(
    snp: bool,
    timestamp: TimestampUs,
    policy: u32,
    cpuid_ebx: u32,
)
    ensures
        ({
            let sev = SevView::fresh(snp, timestamp, policy, cpuid_ebx);
            &&& sev.state == State::UnInit
            &&& sev.handle == 0
            &&& sev.policy == policy
            &&& sev.snp == snp
            &&& sev.timestamp == timestamp
            &&& sev.cbitpos == cpuid_ebx & 0x3f
            &&& sev.es <==> policy & 4 != 0
            &&& sev.measure.len() == 48
            &&& forall|i: int| 0 <= i < 48 ==> (#[trigger] sev.measure[i]) == 0
            &&& sev.measured_regions.len() == 0
            &&& sev.shared_regions.len() == 0
            &&& sev.ram_regions.len() == 0
        }),
{
    assert((policy & 4 != 0) == (policy / 4 % 2 == 1)) by (bit_vector);
    assert(cpuid_ebx & 0x3f == cpuid_ebx % 64) by (bit_vector);
}

/// A region that is added comes behind all others of its kind, as it was given, and nothing else that
/// is known of the guest changes.
pub proof fn added_regions_are_kept(sev: SevView, start: GuestAddress, len: u64)
    ensures
        ({
            let measuring = sev.measuring(start, len);
            let sharing = sev.sharing(start, len);
            &&& measuring == (SevView { measured_regions: measuring.measured_regions, ..sev })
            &&& measuring.measured_regions.len() == sev.measured_regions.len() + 1
            &&& measuring.measured_regions.drop_last() == sev.measured_regions
            &&& measuring.measured_regions.last().start == start
            &&& measuring.measured_regions.last().len == len
            &&& sharing == (SevView { shared_regions: sharing.shared_regions, ..sev })
            &&& sharing.shared_regions.len() == sev.shared_regions.len() + 1
            &&& sharing.shared_regions.drop_last() == sev.shared_regions
            &&& sharing.shared_regions.last().start == start
            &&& sharing.shared_regions.last().len == len
        }),
{
    assert(sev.measuring(start, len).measured_regions.drop_last() =~= sev.measured_regions);
    assert(sev.sharing(start, len).shared_regions.drop_last() =~= sev.shared_regions);
}

/// What is shared for the boot comes behind what was shared before, the memory of the kernel first and
/// the plain text of the ramdisk last, and nothing else that is known of the guest changes.
pub proof fn boot_memory_is_added(sev: SevView, is_bzimage: bool, initrd: Option<InitrdConfig>)
    ensures
        ({
            let booting = sev.sharing_boot(is_bzimage, initrd);
            let n = sev.shared_regions.len() as int;
            let kernel = sev.boot_regions(is_bzimage);
            let ramdisk = sev.initrd_regions(initrd);
            &&& booting == (SevView { shared_regions: booting.shared_regions, ..sev })
            &&& booting.shared_regions.len() == n + kernel.len() + ramdisk.len()
            &&& booting.shared_regions.take(n) == sev.shared_regions
            &&& booting.shared_regions.subrange(n, n + kernel.len()) == kernel
            &&& booting.shared_regions.skip(n + kernel.len()) == ramdisk
        }),
{
    let booting = sev.sharing_boot(is_bzimage, initrd);
    let n = sev.shared_regions.len() as int;
    let kernel = sev.boot_regions(is_bzimage);
    assert(booting.shared_regions.take(n) =~= sev.shared_regions);
    assert(booting.shared_regions.subrange(n, n + kernel.len()) =~= kernel);
    assert(booting.shared_regions.skip(n + kernel.len()) =~= sev.initrd_regions(initrd));
}

/// The save areas of a guest are encrypted exactly if it has encrypted state, and while it is ready
/// for it. The launch of a SEV guest is finished under its handle exactly when it was measured.
pub proof fn guest_is_finished_in_order(sev: SevView)
    ensures
        !sev.es ==> sev.vmsa_command() == Ok::<Option<SevCommand>, SevError>(None),
        sev.es && sev.state == State::LaunchUpdate ==> sev.vmsa_command() == Ok::<
            Option<SevCommand>,
            SevError,
        >(Some(SevCommand::LaunchUpdateVmsa)),
        sev.es && sev.state != State::LaunchUpdate ==> sev.vmsa_command() == Err::<
            Option<SevCommand>,
            SevError,
        >(SevError::InvalidPlatformState),
        sev.state == State::LaunchSecret ==> sev.finish_command() == Ok::<SevCommand, SevError>(
            SevCommand::LaunchFinish { handle: sev.handle },
        ),
        sev.state != State::LaunchSecret ==> sev.finish_command() == Err::<SevCommand, SevError>(
            SevError::InvalidPlatformState,
        ),
{
}

/// An SNP guest that is ready gets one page of secrets, at 50 MiB. Another guest gets none, and an SNP
/// guest that is not ready is refused.
pub proof fn secrets_page_is_inserted(sev: SevView, host_addr: u64)
    ensures
        ({
            let r = sev.secrets_step(Some(host_addr));
            &&& !sev.snp ==> r == Ok::<Option<SnpUpdate>, SevError>(None)
            &&& sev.snp && sev.state != State::LaunchUpdate ==> r == Err::<
                Option<SnpUpdate>,
                SevError,
            >(SevError::InvalidPlatformState)
            &&& sev.snp && sev.state == State::LaunchUpdate ==> (r matches Ok(Some(update))
                && update.attributes.address == 0x3200000 && update.command == (
            SevCommand::SnpLaunchUpdate {
                start_gfn: 0x3200,
                uaddr: host_addr,
                len: 0x1000,
                page_type: 5,
            }))
        }),
{
}

/// When everything is registered, no region is left that would be registered again; what was
/// measured is known as before.
pub proof fn registered_regions_are_gone(sev: SevView)
    ensures
        sev.all_registered().all_attributes().len() == 0,
        sev.all_registered() == (SevView {
            ram_regions: Seq::empty(),
            shared_regions: Seq::empty(),
            ..sev
        }),
{
}

} // verus!
