//! Devices that the guest talks to.

pub mod pseudo;
