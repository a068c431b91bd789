//! Launching AMD SEV, SEV-ES and SEV-SNP guests: what is asked of the platform and in which
//! order, which guest memory is measured, shared or private, and how the guest firmware is
//! handed its kernel.

pub mod arch;
pub mod boot_protocol;
pub mod bytes;
pub mod cpuid;
pub mod debug_port;
pub mod devices;
pub mod elf;
pub mod elf_file;
pub mod ghcb;
pub mod layout;
pub mod memory;
pub mod platform;
pub mod time;
pub mod vmm;
