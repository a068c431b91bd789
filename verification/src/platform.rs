//! States of a guest on the SEV platform.

use vstd::prelude::*;

verus! {

/// SEV Guest states
#[derive(Clone, Copy, Debug, PartialEq, Eq, Structural)]
pub enum State {
    /// The guest is uninitialized
    UnInit,
    /// The SEV platform has been initialized
    Init,
    /// The guest is currently being launched and plaintext data and VMCB save areas are being imported
    LaunchUpdate,
    /// The guest is currently being launched and ciphertext data are being imported
    LaunchSecret,
    /// The guest is fully launched or migrated in, and not being migrated out to another machine
    Running,
    /// The guest is currently being migrated out to another machine
    SendUpdate,
    /// The guest is currently being migrated from another machine
    RecieveUpdate,
    /// The guest has been sent to another machine
    Sent,
}

/// Errors of a launch that are none of the platform
#[derive(Clone, Copy, Debug, PartialEq, Eq, Structural)]
pub enum Error {
    /// Error loading SEV firmware
    FirmwareLoad,
}

/// An error of the SEV firmware, as the sev crate reports it.
#[verifier::external_type_specification]
#[verifier::external_body]
pub struct ExFirmwareFailure(sev::error::FirmwareError);

} // verus!
