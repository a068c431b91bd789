//! Devices that exist for the boot of a guest alone.

pub mod fw_cfg;

pub use crate::debug_port;
