//! Settings of a guest.

pub mod sev_config;
