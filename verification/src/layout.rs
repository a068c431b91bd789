//! Where things stand in guest memory while a guest is launched.

use vstd::prelude::*;

use crate::memory::GuestAddress;

verus! {

/// Where the SEV firmware is loaded.
pub const FIRMWARE_ADDR: u64 = 0x100000;

/// Where the kernel is handed to the firmware in chunks.
pub const KERNEL_BOUNCE_BUFFER: u64 = 0xe00000;

/// Length of the bounce buffer.
pub const KERNEL_BOUNCE_BUFFER_LEN: u64 = 0x200000;

/// Where a bzImage is loaded.
pub const BZIMAGE_ADDR: u64 = 0x2000000;

/// Length of the region for a bzImage.
pub const BZIMAGE_MAX_LEN: u64 = 0x1000000;

/// Where the firmware allocates the GHCB page when it boots an ELF kernel.
pub const GHCB_ADDR_ELF: u64 = 0xc00000;

/// Where the firmware allocates the GHCB page when it boots a bzImage.
pub const GHCB_ADDR_BZIMAGE: u64 = 0x3000000;

/// Where the secrets page stands (50 MiB).
pub const SECRETS_PAGE_ADDR: u64 = 0x3200000;

/// Length of the secrets page.
pub const SECRETS_PAGE_LEN: u32 = 0x1000;

/// Where the CPUID page stands.
pub const CPUID_PAGE_ADDR: u64 = 0x1000;

/// Length of the CPUID page.
pub const CPUID_PAGE_LEN: u32 = 0x1000;

/// Length of the launch measurement.
pub const MEASUREMENT_LEN: u32 = 48;

/// Length of a hash of the kernel or of the ramdisk.
pub const HASH_LEN: u64 = 32;

/// What a page that is added to a guest before it runs holds.
#[derive(Clone, Copy, Debug, PartialEq, Eq, Structural)]
pub enum PageType {
    /// Measured contents
    Normal,
    /// Secrets that the platform fills in
    Secrets,
    /// CPUID values that the platform validates
    Cpuid,
}

impl PageType {
    /// The number of the page type.
    pub open spec fn number(self) -> u8 {
        match self {
            PageType::Normal => 1,
            PageType::Secrets => 5,
            PageType::Cpuid => 6,
        }
    }

    /// The number of the page type.
    pub fn code(&self) -> (code: u8)
        ensures
            code == self.number(),
    {
        match *self {
            PageType::Normal => 1,
            PageType::Secrets => 5,
            PageType::Cpuid => 6,
        }
    }
}

/// The hashes of the kernel and of the ramdisk: where they are put, right below the firmware.
#[derive(Clone, Copy, Debug, PartialEq, Eq, Structural)]
pub struct HashPlacement {
    /// Where the hash of the kernel is put
    pub kernel: GuestAddress,
    /// Where the hash of the ramdisk is put, if there is one
    pub initrd: Option<GuestAddress>,
    /// Length of both together
    pub len: u64,
}

impl HashPlacement {
    /// Where the hashes are put: that of the kernel right below the firmware, that of a ramdisk
    /// right below that of the kernel.
    pub open spec fn placed(with_initrd: bool) -> HashPlacement {
        let kernel = (FIRMWARE_ADDR - HASH_LEN) as u64;
        HashPlacement {
            kernel: GuestAddress(kernel),
            initrd: if with_initrd {
                Some(GuestAddress((kernel - HASH_LEN) as u64))
            } else {
                None
            },
            len: if with_initrd {
                (2 * HASH_LEN) as u64
            } else {
                HASH_LEN
            },
        }
    }

    /// Where the first of the hashes stands.
    pub open spec fn start(self) -> GuestAddress {
        match self.initrd {
            Some(a) => a,
            None => self.kernel,
        }
    }

    /// Where the hashes are put.
    pub fn new(with_initrd: bool) -> (p: HashPlacement)
        ensures
            p == HashPlacement::placed(with_initrd),
    {
        let kernel: u64 = FIRMWARE_ADDR - HASH_LEN;
        if with_initrd {
            HashPlacement {
                kernel: GuestAddress(kernel),
                initrd: Some(GuestAddress(kernel - HASH_LEN)),
                len: 2 * HASH_LEN,
            }
        } else {
            HashPlacement { kernel: GuestAddress(kernel), initrd: None, len: HASH_LEN }
        }
    }

    /// Where the first of the hashes stands.
    pub fn first(&self) -> (a: GuestAddress)
        ensures
            a == self.start(),
    {
        match self.initrd {
            Some(a) => a,
            None => self.kernel,
        }
    }
}

/// The hashes fill the bytes right below the firmware, without a gap.
pub proof fn hashes_end_at_the_firmware(with_initrd: bool)
    ensures
        ({
            let p = HashPlacement::placed(with_initrd);
            &&& p.start().0 + p.len == FIRMWARE_ADDR
            &&& p.kernel.0 + HASH_LEN == FIRMWARE_ADDR
            &&& p.initrd matches Some(a) ==> a.0 + HASH_LEN == p.kernel.0
            &&& p.initrd is Some == with_initrd
        }),
{
}

/// The platform knows the types of pages by these numbers.
pub proof fn page_types_have_numbers(page_type: PageType)
    ensures
        page_type == PageType::Normal ==> page_type.number() == 1,
        page_type == PageType::Secrets ==> page_type.number() == 5,
        page_type == PageType::Cpuid ==> page_type.number() == 6,
{
}

/// The hash of the kernel takes the 32 bytes below the firmware, which stands at 1 MiB, whether there
/// is a ramdisk or not; the hash of a ramdisk takes the 32 bytes below it. Both together are what is
/// measured.
pub proof fn hashes_stand_below_one_mebibyte(with_initrd: bool)
    ensures
        ({
            let p = HashPlacement::placed(with_initrd);
            &&& p.kernel.0 == 0xfffe0
            &&& with_initrd ==> p.initrd == Some(GuestAddress(0xfffc0)) && p.start().0 == 0xfffc0
                && p.len == 64
            &&& !with_initrd ==> p.initrd is None && p.start().0 == 0xfffe0 && p.len == 32
        }),
{
}

} // verus!
