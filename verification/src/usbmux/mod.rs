//! The multiplexer that knows the attached devices and opens connections to them.

pub mod codec;
pub mod connection;
pub mod error;
pub mod plist_msg;
pub mod sim;
pub mod socket;
pub mod types;
pub mod watch;

pub use connection::Wait;
pub use error::Error;
pub use types::{ConnectionType, Device, Event, ProtoError, ResultCode};
