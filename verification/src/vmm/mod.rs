//! The launch of an SNP guest through a launcher handle.

pub mod arch;
pub mod devices;
pub mod vmm_config;
