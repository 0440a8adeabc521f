//! Errors of the lockdown layer.

use plist::Error as PlistError;
use vstd::prelude::*;

verus! {

/// Why an exchange with the lockdown service fails.
#[derive(Debug)]
pub enum Error {
    /// A property list cannot be read or written.
    Plist(PlistError),
    /// The service refuses, or answers in an unexpected way.
    Lockdown(String),
    /// A pair record lacks something.
    PairRecord(String),
    Tls(String),
    /// The file service refuses.
    Afc(String),
    /// The connection is gone.
    Closed,
}

} // verus!
