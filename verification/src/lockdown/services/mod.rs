//! The services of a device.

pub mod activation;
pub mod afc;
pub mod amfi;
pub mod copying;
pub mod diagnostics;
pub mod mcinstall;
pub mod screenshot;
pub mod springboard;
pub mod syslog;
pub mod transfer;
pub mod wire;
pub mod wireless;

pub use afc::{
    le_u64, nul_str, parse_kv_pairs, parse_nul_strings, status_name, AfcClient, AfcDeviceInfo,
    FileInfo, FileType,
};
pub use springboard::Orientation;
pub use syslog::{SyslogClient, SyslogEntry};
