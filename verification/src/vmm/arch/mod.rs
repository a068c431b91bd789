//! What depends on the architecture of the guest.

pub mod x86_64;
