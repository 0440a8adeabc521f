//! Errors of the tunnel layer.

use vstd::prelude::*;

verus! {

/// Why a path to a device fails.
#[derive(Debug)]
pub enum Error {
    Protocol(String),
}

} // verus!
