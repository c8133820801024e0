//! Firmware download to a CANopen bootloader.

pub mod file;
pub mod options;
pub mod sdo_client;
pub mod state_machine;
