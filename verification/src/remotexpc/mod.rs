//! RemoteXPC: XPC messages over HTTP/2 frames.

pub mod conn;
pub mod h2;
