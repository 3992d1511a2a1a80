//! The decisions of a command-line wrapper around `bluetoothctl`: reading
//! its output, choosing what to do from a menu key, and wording reports.
pub mod command;
pub mod devices;
pub mod menu;
pub mod report;
pub mod text;

pub use devices::{get_available_devices, get_connected_devices, is_bluetooth_powered};
