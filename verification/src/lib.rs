//! Protocol core of an iOS device toolkit: wire formats, request builders,
//! reply interpreters and connection rules, all as functions on plain values.

pub mod bytes;
pub mod daemon;
pub mod dtx;
pub mod entries;
pub mod framing;
pub mod lockdown;
pub mod proplist;
pub mod remotexpc;
pub mod rsd;
pub mod text;
pub mod tunnel;
pub mod usbmux;
pub mod uuid;
pub mod words;
pub mod xctest;
pub mod xpc;
