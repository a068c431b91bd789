//! The launch of a SEV, SEV-ES or SNP guest by commands to the platform, on the architecture of the
//! guest.

pub mod x86_64;
