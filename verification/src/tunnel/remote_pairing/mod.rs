//! Pairing with the tunnel service of a device.

pub mod credentials;
pub mod crypto;
pub mod json;
pub mod messages;
pub mod session;
pub mod tlv8;
