//! The daemon that keeps a tunnel open to every device and hands out connections:
//! what it is asked, what it answers, and the tunnels it knows.

pub mod address;
pub mod listing;
pub mod metadata;
pub mod probe;
pub mod registry;
pub mod requests;

pub use address::ListenAddr;
pub use registry::{DeviceTunnel, Registry, WatchEvent};
