//! Command dispatch, device bookkeeping and scan-session decisions of a
//! Bluetooth Low Energy bridge, verified with Verus.
//!
//! The platform side (the BLE stack, the async runtime, the foreign-function
//! glue) drives these types: it hands the library plain values and performs
//! the actions that the library decides on.

pub mod command;
pub mod error;
pub mod filter;
pub mod registry;
pub mod scan;
pub mod wire;

pub use command::{connect, disconnect, scan, send, send_outcome, stop_scan, Command, CommandSender};
pub use error::BleError;
pub use filter::{collect_services, service_filter};
pub use registry::{DeviceRegistry, Peripheral};
pub use scan::{
    begin_scan, get_is_scanning, handle_scan_event, set_is_scanning, ScanAction, ScanEvent, ScanFlag,
    ScanSession, MAX_SCAN_TICKS, STALE_AFTER_SECS,
};
pub use wire::{doubled_sum, rust_add, status_code, wire_string, wire_string_list};
