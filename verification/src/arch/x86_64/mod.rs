//! Guests on x86-64.

pub mod sev;
