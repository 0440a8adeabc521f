//! The lockdown service: sessions, pairing, and the services behind it.

use vstd::prelude::*;

pub mod base64;
pub mod calendar;
pub mod crypto;
pub mod der;
pub mod error;
pub mod pair_record;
pub mod pairing;
pub mod pkcs7;
pub mod services;
pub mod session;
pub mod tls;
pub mod types;
pub mod x509;

pub use error::Error;
pub use pair_record::PairRecord;
pub use session::LockdownSession;
pub use types::{DeviceInfo, ServiceInfo};

verus! {

/// Where the lockdown service of a device listens.
pub const LOCKDOWN_PORT: u16 = 62078;

} // verus!
