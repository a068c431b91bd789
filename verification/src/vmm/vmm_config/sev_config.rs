//! Settings of the SEV launch of a guest.

use vstd::prelude::*;

verus! {

/// SEV configuration struct
#[derive(Clone, Debug, PartialEq, Eq, Default)]
pub struct SevConfig {
    /// Path to SEV firmware
    pub firmware_path: String,
    /// Path to kernel hash
    pub kernel_hash_path: String,
    /// Path to initrd hash
    pub initrd_hash_path: Option<String>,
    /// Guest policy
    pub policy: u32,
}

} // verus!
