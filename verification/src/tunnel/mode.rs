//! Which way to take to a device.

use vstd::prelude::*;
use crate::text::same_str;

verus! {

/// Which way to take to a device.
#[derive(Clone, Copy, Debug, PartialEq, Eq, Structural)]
pub enum ConnectionMode {
    /// By the version of the system, with the old way as a fallback.
    Auto,
    /// The old way, whatever the version.
    Legacy,
    /// The new way, or not at all.
    Rsd,
}

impl Default for ConnectionMode {
    fn default() -> (mode: ConnectionMode)
        ensures
            mode == ConnectionMode::Auto,
    {
        ConnectionMode::Auto
    }
}

impl ConnectionMode {
    /// The mode that the value of `IOS_LEGACY` asks for.
    pub fn from_env(value: Option<&str>) -> (mode: ConnectionMode)
        ensures
            mode == match value {
                Some(v) => if v@ == "1"@ || v@ == "true"@ || v@ == "yes"@ {
                    ConnectionMode::Legacy
                } else {
                    ConnectionMode::Auto
                },
                None => ConnectionMode::Auto,
            },
    {
        match value {
            Some(v) => if same_str(v, "1") || same_str(v, "true") || same_str(v, "yes") {
                ConnectionMode::Legacy
            } else {
                ConnectionMode::Auto
            },
            None => ConnectionMode::Auto,
        }
    }

    /// The mode after a flag that asks for the old way.
    pub fn with_legacy_flag(self, legacy: bool) -> (mode: ConnectionMode)
        ensures
            mode == if legacy {
                ConnectionMode::Legacy
            } else {
                self
            },
    {
        if legacy {
            ConnectionMode::Legacy
        } else {
            self
        }
    }

    pub fn is_legacy(self) -> (yes: bool)
        ensures
            yes == (self == ConnectionMode::Legacy),
    {
        self == ConnectionMode::Legacy
    }

    pub fn is_rsd(self) -> (yes: bool)
        ensures
            yes == (self == ConnectionMode::Rsd),
    {
        self == ConnectionMode::Rsd
    }

    /// The name of the mode.
    pub fn text(self) -> (name: &'static str)
        ensures
            name@ == match self {
                ConnectionMode::Auto => "auto"@,
                ConnectionMode::Legacy => "legacy"@,
                ConnectionMode::Rsd => "rsd"@,
            },
    {
        match self {
            ConnectionMode::Auto => "auto",
            ConnectionMode::Legacy => "legacy",
            ConnectionMode::Rsd => "rsd",
        }
    }
}

} // verus!
