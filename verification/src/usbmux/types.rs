//! Devices, events and results.

use plist::Error as PlistError;
use vstd::prelude::*;
use crate::text::{dec_u64, decimal, join2, own, same_str};

verus! {

/// How a device is attached.
#[derive(Debug)]
pub enum ConnectionType {
    Usb,
    Network,
    Unknown(String),
}

/// The content of a [`ConnectionType`].
pub enum ConnectionModel {
    Usb,
    Network,
    Unknown(Seq<char>),
}

impl View for ConnectionType {
    type V = ConnectionModel;

    open spec fn view(&self) -> ConnectionModel {
        match self {
            ConnectionType::Usb => ConnectionModel::Usb,
            ConnectionType::Network => ConnectionModel::Network,
            ConnectionType::Unknown(s) => ConnectionModel::Unknown(s@),
        }
    }
}

/// The connection with a name.
pub open spec fn connection_named(name: Seq<char>) -> ConnectionModel {
    if name == "USB"@ {
        ConnectionModel::Usb
    } else if name == "Network"@ {
        ConnectionModel::Network
    } else {
        ConnectionModel::Unknown(name)
    }
}

impl ConnectionType {
    /// The name of the connection.
    pub open spec fn name(self) -> Seq<char> {
        match self {
            ConnectionType::Usb => "USB"@,
            ConnectionType::Network => "Network"@,
            ConnectionType::Unknown(s) => s@,
        }
    }

    /// The connection with a name.
    pub fn named(s: &str) -> (c: ConnectionType)
        ensures
            c@ == connection_named(s@),
            c.name() == s@,
    {
        if same_str(s, "USB") {
            ConnectionType::Usb
        } else if same_str(s, "Network") {
            ConnectionType::Network
        } else {
            ConnectionType::Unknown(own(s))
        }
    }

    /// Writes the name of the connection.
    pub fn text(&self) -> (s: String)
        ensures
            s@ == self.name(),
    {
        match self {
            ConnectionType::Usb => own("USB"),
            ConnectionType::Network => own("Network"),
            ConnectionType::Unknown(s) => own(s.as_str()),
        }
    }
}

/// An attached device.
#[derive(Debug)]
pub struct Device {
    pub device_id: u32,
    pub serial: String,
    pub connection_type: ConnectionType,
    pub product_id: u16,
    pub location_id: u32,
}

/// What a request came to.
#[derive(Clone, Copy, Debug, PartialEq, Eq, Structural)]
pub enum ResultCode {
    /// The request was carried out.
    Success,
    BadCommand,
    BadDevice,
    ConnRefused,
    NoSuchService,
    BadVersion,
    Unknown(u32),
}

impl ResultCode {
    /// The result with a number.
    pub open spec fn numbered(n: u32) -> ResultCode {
        if n == 0 {
            ResultCode::Success
        } else if n == 1 {
            ResultCode::BadCommand
        } else if n == 2 {
            ResultCode::BadDevice
        } else if n == 3 {
            ResultCode::ConnRefused
        } else if n == 4 {
            ResultCode::NoSuchService
        } else if n == 6 {
            ResultCode::BadVersion
        } else {
            ResultCode::Unknown(n)
        }
    }

    /// What a result means.
    pub open spec fn meaning(self) -> Seq<char> {
        match self {
            ResultCode::Success => "OK"@,
            ResultCode::BadCommand => "bad command"@,
            ResultCode::BadDevice => "bad device"@,
            ResultCode::ConnRefused => "connection refused"@,
            ResultCode::NoSuchService => "no such service"@,
            ResultCode::BadVersion => "bad version"@,
            ResultCode::Unknown(n) => "unknown error "@ + decimal(n as nat),
        }
    }

    /// Writes what a result means.
    pub fn text(self) -> (s: String)
        ensures
            s@ == self.meaning(),
    {
        match self {
            ResultCode::Success => own("OK"),
            ResultCode::BadCommand => own("bad command"),
            ResultCode::BadDevice => own("bad device"),
            ResultCode::ConnRefused => own("connection refused"),
            ResultCode::NoSuchService => own("no such service"),
            ResultCode::BadVersion => own("bad version"),
            ResultCode::Unknown(n) => join2("unknown error ", dec_u64(n as u64).as_str()),
        }
    }
}

impl From<u32> for ResultCode {
    fn from(n: u32) -> (code: ResultCode) {
        if n == 0 {
            ResultCode::Success
        } else if n == 1 {
            ResultCode::BadCommand
        } else if n == 2 {
            ResultCode::BadDevice
        } else if n == 3 {
            ResultCode::ConnRefused
        } else if n == 4 {
            ResultCode::NoSuchService
        } else if n == 6 {
            ResultCode::BadVersion
        } else {
            ResultCode::Unknown(n)
        }
    }
}

impl vstd::std_specs::convert::FromSpecImpl<u32> for ResultCode {
    open spec fn obeys_from_spec() -> bool {
        true
    }

    open spec fn from_spec(n: u32) -> ResultCode {
        ResultCode::numbered(n)
    }
}

/// What the multiplexer tells.
#[derive(Debug)]
pub enum Event {
    DeviceList(Vec<Device>),
    DeviceAttached(Device),
    DeviceDetached { device_id: u32 },
    /// The connection to the device is open: from here on the socket is a plain pipe.
    Connected { tag: u32 },
    RequestOk { tag: u32 },
    RequestFailed { tag: u32, code: ResultCode },
    Buid(String),
    PairRecord { udid: String, record: Vec<u8> },
}

/// Why a message of the multiplexer cannot be understood.
#[derive(Debug)]
pub enum ProtoError {
    Plist(PlistError),
    FrameTooShort { got: usize, need: usize },
    UnexpectedMessage(String),
}

/// A number means one result, and no two numbers mean the same.
pub proof fn lemma_result_numbers(n: u32)
    ensures
        ({
            let code = ResultCode::numbered(n);
            &&& n == 0 <==> code is Success
            &&& n == 1 <==> code is BadCommand
            &&& n == 2 <==> code is BadDevice
            &&& n == 3 <==> code is ConnRefused
            &&& n == 4 <==> code is NoSuchService
            &&& n == 6 <==> code is BadVersion
            &&& n == 5 || n > 6 <==> code is Unknown
            &&& code matches ResultCode::Unknown(m) ==> m == n
        }),
{
}

/// What each result is called; a number without a name is called by its digits.
pub proof fn lemma_result_meanings(n: u32)
    ensures
        ({
            let words = ResultCode::numbered(n).meaning();
            &&& n == 0 ==> words == "OK"@
            &&& n == 1 ==> words == "bad command"@
            &&& n == 2 ==> words == "bad device"@
            &&& n == 3 ==> words == "connection refused"@
            &&& n == 4 ==> words == "no such service"@
            &&& n == 6 ==> words == "bad version"@
            &&& n == 5 || n > 6 ==> {
                &&& words.len() >= 14
                &&& words.take(14) == "unknown error "@
                &&& crate::text::digits_value(words.skip(14)) == n
            }
        }),
{
    reveal_strlit("unknown error ");
    let d = decimal(n as nat);
    let words = "unknown error "@ + d;
    assert(words.take(14) =~= "unknown error "@);
    assert(words.skip(14) =~= d);
    crate::text::lemma_decimal_value(n as nat);
}

/// The names of the connections: `USB` and `Network` are known, any other name is kept.
pub proof fn lemma_connection_names(name: Seq<char>)
    ensures
        match connection_named(name) {
            ConnectionModel::Usb => name == seq!['U', 'S', 'B'],
            ConnectionModel::Network => name == seq!['N', 'e', 't', 'w', 'o', 'r', 'k'],
            ConnectionModel::Unknown(n) => n == name && n != seq!['U', 'S', 'B'] && n != seq![
                'N',
                'e',
                't',
                'w',
                'o',
                'r',
                'k',
            ],
        },
{
    reveal_strlit("USB");
    reveal_strlit("Network");
    assert("USB"@ =~= seq!['U', 'S', 'B']);
    assert("Network"@ =~= seq!['N', 'e', 't', 'w', 'o', 'r', 'k']);
}

} // verus!
