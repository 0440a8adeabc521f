//! Paths to a device: legacy connections, and tunnels to the service catalogue.

pub mod cdtunnel;
pub mod device_session;
pub mod error;
pub mod ios17;
pub mod mode;
pub mod remote_pairing;
pub mod stack;
pub mod version;

pub use device_session::{ActivePath, DAEMON_SOCKET};
pub use error::Error;
pub use mode::ConnectionMode;
pub use version::IosVersion;
