//! Devices that are only pretended.

use vstd::prelude::*;
use crate::text::{own, same_str};
use super::codec::{
    lemma_swapped_twice, swap_port, swapped, CodecState, DeviceModel, EventModel,
};
use super::plist_msg::{DeviceEntry, DeviceProperties, Envelope};
use super::types::{connection_named, ResultCode};

verus! {

/// A pretended device and the ports on which it has services.
#[derive(Debug)]
pub struct SimDevice {
    pub serial: String,
    pub connection_type: String,
    pub product_id: u16,
    pub services: Vec<u16>,
}

impl SimDevice {
    /// A device on a cable.
    pub fn usb(serial: &str) -> (d: SimDevice)
        ensures
            d.serial@ == serial@,
            d.connection_type@ == "USB"@,
            d.product_id == 0x12a8,
            d.services@ == Seq::<u16>::empty(),
    {
        let services: Vec<u16> = Vec::new();
        assert(services@ =~= Seq::<u16>::empty());
        SimDevice {
            serial: own(serial),
            connection_type: own("USB"),
            product_id: 0x12a8,
            services,
        }
    }

    /// A device in the network.
    pub fn network(serial: &str) -> (d: SimDevice)
        ensures
            d.serial@ == serial@,
            d.connection_type@ == "Network"@,
            d.product_id == 0x12a8,
            d.services@ == Seq::<u16>::empty(),
    {
        let services: Vec<u16> = Vec::new();
        assert(services@ =~= Seq::<u16>::empty());
        SimDevice {
            serial: own(serial),
            connection_type: own("Network"),
            product_id: 0x12a8,
            services,
        }
    }

    /// The device with one more service.
    pub fn with_service(self, port: u16) -> (d: SimDevice)
        ensures
            d.serial == self.serial,
            d.connection_type == self.connection_type,
            d.product_id == self.product_id,
            d.services@ == self.services@.push(port),
    {
        let mut d: SimDevice = self;
        d.services.push(port);
        d
    }

    /// Whether some properties tell what the device is.
    pub open spec fn described_by(self, p: DeviceProperties) -> bool {
        &&& p.serial_number matches Some(s) && s@ == self.serial@
        &&& p.connection_type matches Some(c) && c@ == self.connection_type@
        &&& p.product_id == Some(self.product_id)
        &&& p.location_id is None
    }

    fn properties(&self) -> (p: DeviceProperties)
        ensures
            self.described_by(p),
    {
        DeviceProperties {
            serial_number: Some(own(self.serial.as_str())),
            connection_type: Some(own(self.connection_type.as_str())),
            product_id: Some(self.product_id),
            location_id: None,
        }
    }

    /// Whether the device has a service on a port.
    pub fn has_service(&self, port: u16) -> (yes: bool)
        ensures
            yes == self.services@.contains(port),
    {
        let mut i: usize = 0;
        while i < self.services.len()
            invariant
                i <= self.services@.len(),
                forall|j: int| 0 <= j < i ==> self.services@[j] != port,
            decreases self.services@.len() - i,
        {
            if self.services[i] == port {
                return true;
            }
            i += 1;
        }
        false
    }
}

/// What a pretended multiplexer is asked for.
#[derive(Clone, Copy, Debug, PartialEq, Eq, Structural)]
pub enum SimRequest {
    ListDevices,
    Listen,
    /// A connection to a port of a device.
    Connect { device_id: u32, port: u16 },
    ReadBuid,
    Other,
}

/// What a message asks a pretended multiplexer for. The port of a connection is stated
/// with its bytes swapped.
pub open spec fn asked(kind: Seq<char>, device_id: Option<u32>, port: Option<u16>) -> SimRequest {
    if kind == "ListDevices"@ {
        SimRequest::ListDevices
    } else if kind == "Listen"@ {
        SimRequest::Listen
    } else if kind == "ReadBUID"@ {
        SimRequest::ReadBuid
    } else if kind == "Connect"@ && device_id is Some && port is Some {
        SimRequest::Connect { device_id: device_id->0, port: swapped(port->0) }
    } else {
        SimRequest::Other
    }
}

/// Reads what a message asks a pretended multiplexer for.
pub fn understood(kind: &str, device_id: Option<u32>, port: Option<u16>) -> (request: SimRequest)
    ensures
        request == asked(kind@, device_id, port),
{
    if same_str(kind, "ListDevices") {
        return SimRequest::ListDevices;
    }
    if same_str(kind, "Listen") {
        return SimRequest::Listen;
    }
    if same_str(kind, "ReadBUID") {
        return SimRequest::ReadBuid;
    }
    if same_str(kind, "Connect") {
        if let (Some(device_id), Some(port)) = (device_id, port) {
            return SimRequest::Connect { device_id, port: swap_port(port) };
        }
    }
    SimRequest::Other
}

/// The identifier of the pretended host.
pub const SIM_BUID: &'static str = "00000000-0000-0000-0000-000000000000";

/// Whether a reply is a result with a number.
pub open spec fn is_result(e: Envelope, number: u32) -> bool {
    &&& e.message_type matches Some(kind) && kind@ == "Result"@
    &&& e.number == Some(number)
    &&& e.device_list is None
    &&& e.buid is None
    &&& e.device_id is None
    &&& e.properties is None
    &&& e.pair_record_data is None
}

/// Whether a reply tells that a device is there.
pub open spec fn is_attached(e: Envelope, device_id: u32, d: SimDevice) -> bool {
    &&& e.message_type matches Some(kind) && kind@ == "Attached"@
    &&& e.number is None
    &&& e.device_list is None
    &&& e.buid is None
    &&& e.device_id == Some(device_id)
    &&& e.properties matches Some(p) && d.described_by(p)
    &&& e.pair_record_data is None
}

/// Whether a list holds the devices, numbered from one.
pub open spec fn is_list(list: Seq<DeviceEntry>, devices: Seq<SimDevice>) -> bool {
    &&& list.len() == devices.len()
    &&& forall|i: int|
        0 <= i < list.len() ==> (#[trigger] list[i]).device_id == i + 1 && devices[i].described_by(
            list[i].properties,
        )
}

/// The result of a request for a connection: a device that is not there is a bad device,
/// and a port without a service refuses.
pub open spec fn connect_result(devices: Seq<SimDevice>, device_id: u32, port: u16) -> u32 {
    if device_id == 0 || device_id > devices.len() {
        2
    } else if devices[device_id - 1].services@.contains(port) {
        0
    } else {
        3
    }
}

/// Whether the replies are those to a request.
pub open spec fn answered(
    devices: Seq<SimDevice>,
    request: SimRequest,
    replies: Seq<Envelope>,
) -> bool {
    match request {
        SimRequest::ListDevices => {
            &&& replies.len() == 1
            &&& replies[0].message_type is None
            &&& replies[0].device_list matches Some(list) && is_list(list@, devices)
        },
        SimRequest::Listen => {
            &&& replies.len() == devices.len() + 1
            &&& is_result(replies[0], 0)
            &&& forall|i: int|
                0 <= i < devices.len() ==> is_attached(
                    #[trigger] replies[i + 1],
                    (i + 1) as u32,
                    devices[i],
                )
        },
        SimRequest::Connect { device_id, port } => {
            &&& replies.len() == 1
            &&& is_result(replies[0], connect_result(devices, device_id, port))
        },
        SimRequest::ReadBuid => {
            &&& replies.len() == 1
            &&& replies[0].message_type is None
            &&& replies[0].device_list is None
            &&& replies[0].buid matches Some(b) && b@ == SIM_BUID@
        },
        SimRequest::Other => {
            &&& replies.len() == 1
            &&& is_result(replies[0], 1)
        },
    }
}

fn blank() -> (e: Envelope)
    ensures
        e.message_type is None,
        e.number is None,
        e.device_list is None,
        e.buid is None,
        e.device_id is None,
        e.properties is None,
        e.pair_record_data is None,
{
    Envelope {
        message_type: None,
        number: None,
        device_list: None,
        buid: None,
        device_id: None,
        properties: None,
        pair_record_data: None,
    }
}

fn result(number: u32) -> (e: Envelope)
    ensures
        is_result(e, number),
{
    let mut e: Envelope = blank();
    e.message_type = Some(own("Result"));
    e.number = Some(number);
    e
}

/// Answers a request as a multiplexer with the given devices does.
pub fn answer(devices: &Vec<SimDevice>, request: SimRequest) -> (replies: Vec<Envelope>)
    requires
        devices@.len() < u32::MAX,
    ensures
        answered(devices@, request, replies@),
{
    let mut replies: Vec<Envelope> = Vec::new();
    match request {
        SimRequest::ListDevices => {
            let mut list: Vec<DeviceEntry> = Vec::new();
            let mut i: usize = 0;
            while i < devices.len()
                invariant
                    devices@.len() < u32::MAX,
                    i <= devices@.len(),
                    list@.len() == i,
                    forall|j: int|
                        0 <= j < i ==> (#[trigger] list@[j]).device_id == j + 1
                            && devices@[j].described_by(list@[j].properties),
                decreases devices@.len() - i,
            {
                list.push(
                    DeviceEntry {
                        device_id: (i + 1) as u32,
                        properties: devices[i].properties(),
                    },
                );
                i += 1;
            }
            let mut e: Envelope = blank();
            e.device_list = Some(list);
            replies.push(e);
        },
        SimRequest::Listen => {
            replies.push(result(0));
            let mut i: usize = 0;
            while i < devices.len()
                invariant
                    devices@.len() < u32::MAX,
                    i <= devices@.len(),
                    replies@.len() == i + 1,
                    is_result(replies@[0], 0),
                    forall|j: int|
                        0 <= j < i ==> is_attached(
                            #[trigger] replies@[j + 1],
                            (j + 1) as u32,
                            devices@[j],
                        ),
                decreases devices@.len() - i,
            {
                let mut e: Envelope = blank();
                e.message_type = Some(own("Attached"));
                e.device_id = Some((i + 1) as u32);
                e.properties = Some(devices[i].properties());
                replies.push(e);
                i += 1;
            }
        },
        SimRequest::Connect { device_id, port } => {
            let number: u32 = if device_id == 0 || device_id as usize > devices.len() {
                2
            } else if devices[device_id as usize - 1].has_service(port) {
                0
            } else {
                3
            };
            replies.push(result(number));
        },
        SimRequest::ReadBuid => {
            let mut e: Envelope = blank();
            e.buid = Some(own(SIM_BUID));
            replies.push(e);
        },
        SimRequest::Other => {
            replies.push(result(1));
        },
    }
    replies
}

/// Whoever asks for the devices is told of all of them, in order, and by their names.
pub proof fn lemma_listed(
    devices: Seq<SimDevice>,
    replies: Seq<Envelope>,
    state: CodecState,
    tag: u32,
)
    requires
        answered(devices, SimRequest::ListDevices, replies),
    ensures
        state.event(tag, replies[0]) matches Some(EventModel::DeviceList(seen)) && seen.len()
            == devices.len() && forall|i: int|
            0 <= i < devices.len() ==> (#[trigger] seen[i]).device_id == i + 1 && seen[i].serial
                == devices[i].serial@ && seen[i].connection == connection_named(
                devices[i].connection_type@,
            )
                && seen[i].product_id == devices[i].product_id,
{
}

/// Whoever listens is told of every device.
pub proof fn lemma_attached(
    devices: Seq<SimDevice>,
    replies: Seq<Envelope>,
    state: CodecState,
    tag: u32,
    i: int,
)
    requires
        answered(devices, SimRequest::Listen, replies),
        0 <= i < devices.len() < u32::MAX,
    ensures
        state.event(tag, replies[i + 1]) matches Some(EventModel::DeviceAttached(d))
            && d.device_id == i + 1 && d.serial == devices[i].serial@ && d.connection
            == connection_named(devices[i].connection_type@) && d.product_id
            == devices[i].product_id,
{
    reveal_strlit("Attached");
    reveal_strlit("Result");
    assert("Attached"@.len() == 8);
    assert("Result"@.len() == 6);
    assert(is_attached(replies[i + 1], (i + 1) as u32, devices[i]));
}

/// A connection opens exactly if the device is there and has a service on the port; else
/// the request fails.
pub proof fn lemma_connected(
    devices: Seq<SimDevice>,
    device_id: u32,
    port: u16,
    replies: Seq<Envelope>,
    state: CodecState,
    tag: u32,
)
    requires
        answered(devices, SimRequest::Connect { device_id, port }, replies),
        state.connecting == Some(tag),
    ensures
        state.event(tag, replies[0]) == Some(
            if connect_result(devices, device_id, port) == 0 {
                EventModel::Connected(tag)
            } else if connect_result(devices, device_id, port) == 2 {
                EventModel::RequestFailed(tag, ResultCode::BadDevice)
            } else {
                EventModel::RequestFailed(tag, ResultCode::ConnRefused)
            },
        ),
{
}

/// A client that asks for a port, with its bytes swapped, is understood to ask for that
/// port.
pub proof fn lemma_understood(device_id: u32, port: u16)
    ensures
        asked("Connect"@, Some(device_id), Some(swapped(port))) == (SimRequest::Connect {
            device_id,
            port,
        }),
{
    reveal_strlit("Connect");
    reveal_strlit("ListDevices");
    reveal_strlit("Listen");
    reveal_strlit("ReadBUID");
    lemma_swapped_twice(port);
    assert("Connect"@.len() == 7);
    assert("ListDevices"@.len() == 11);
    assert("Listen"@.len() == 6);
    assert("ReadBUID"@.len() == 8);
}

/// A pretended multiplexer understands what clients ask for: the kinds of the requests,
/// and in a request for a connection the device and the port, whose bytes the client
/// swapped. A request for a connection that names no device or no port, and every other
/// request, is not understood.
pub proof fn lemma_understands_clients(device_id: u32, port: u16, kind: Seq<char>, d: Option<u32>, p: Option<u16>)
    ensures
        asked("ListDevices"@, d, p) is ListDevices,
        asked("Listen"@, d, p) is Listen,
        asked("ReadBUID"@, d, p) is ReadBuid,
        asked("Connect"@, Some(device_id), Some(swapped(port))) == (SimRequest::Connect {
            device_id,
            port,
        }),
        asked("Connect"@, None, p) is Other,
        asked("Connect"@, d, None) is Other,
        kind != "ListDevices"@ && kind != "Listen"@ && kind != "ReadBUID"@ && kind != "Connect"@
            ==> asked(kind, d, p) is Other,
{
    super::codec::lemma_swapped_twice(port);
    reveal_strlit("ListDevices");
    reveal_strlit("Listen");
    reveal_strlit("ReadBUID");
    reveal_strlit("Connect");
    assert("ListDevices"@.len() == 11);
    assert("Listen"@.len() == 6);
    assert("ReadBUID"@.len() == 8);
    assert("Connect"@.len() == 7);
}

/// A connection to a device that is not there fails with a bad device, one to a port
/// without a service is refused, and any other is opened; devices count from one.
pub proof fn lemma_connections(devices: Seq<SimDevice>, device_id: u32, port: u16)
    ensures
        ({
            let code = ResultCode::numbered(connect_result(devices, device_id, port));
            &&& code is BadDevice <==> !(1 <= device_id <= devices.len())
            &&& code is Success <==> 1 <= device_id <= devices.len() && devices[device_id as int
                - 1].services@.contains(port)
            &&& code is ConnRefused <==> 1 <= device_id <= devices.len() && !devices[device_id as int
                - 1].services@.contains(port)
        }),
{
}

/// What a client understands of the replies: the devices in order, numbered from one,
/// with their serials, connections and products; to a request for a connection that it is
/// open or why not; the identifier of the host; and that other requests are bad commands.
pub proof fn lemma_clients_understand(
    devices: Seq<SimDevice>,
    request: SimRequest,
    replies: Seq<Envelope>,
    s: CodecState,
    tag: u32,
)
    requires
        answered(devices, request, replies),
        devices.len() < u32::MAX,
        s.connecting == Some(tag),
    ensures
        replies.len() >= 1,
        match request {
            SimRequest::ListDevices => {
                &&& s.event(tag, replies[0]) matches Some(EventModel::DeviceList(list))
                &&& list.len() == devices.len()
                &&& forall|i: int|
                    0 <= i < list.len() ==> is_told(#[trigger] list[i], i + 1, devices[i])
            },
            SimRequest::Listen => {
                &&& s.event(tag, replies[0]) is Some
                &&& replies.len() == devices.len() + 1
                &&& forall|i: int|
                    1 <= i < replies.len() ==> (s.event(tag, #[trigger] replies[i]) matches Some(
                        EventModel::DeviceAttached(d),
                    ) && is_told(d, i, devices[i - 1]))
            },
            SimRequest::Connect { device_id, port } => {
                let there = 1 <= device_id <= devices.len();
                let serves = there && devices[device_id as int - 1].services@.contains(port);
                &&& replies.len() == 1
                &&& s.event(tag, replies[0]) == Some(
                    if serves {
                        EventModel::Connected(tag)
                    } else if there {
                        EventModel::RequestFailed(tag, ResultCode::ConnRefused)
                    } else {
                        EventModel::RequestFailed(tag, ResultCode::BadDevice)
                    },
                )
            },
            SimRequest::ReadBuid => s.event(tag, replies[0]) == Some(
                EventModel::Buid("00000000-0000-0000-0000-000000000000"@),
            ),
            SimRequest::Other => s.event(tag, replies[0]) == Some(
                EventModel::RequestFailed(tag, ResultCode::BadCommand),
            ),
        },
{
    super::codec::lemma_events(s, tag, replies[0]);
    reveal_strlit("Result");
    reveal_strlit("Attached");
    assert("Result"@.len() == 6);
    assert("Attached"@.len() == 8);
    if let SimRequest::Listen = request {
        assert forall|i: int| 1 <= i < replies.len() implies (s.event(
            tag,
            #[trigger] replies[i],
        ) matches Some(EventModel::DeviceAttached(d)) && is_told(d, i, devices[i - 1])) by {
            assert(replies[(i - 1) + 1] == replies[i]);
            super::codec::lemma_events(s, tag, replies[i]);
        }
    }
}

/// Whether a client knows a device of the multiplexer by a number.
pub open spec fn is_told(d: DeviceModel, number: int, of: SimDevice) -> bool {
    &&& d.device_id == number
    &&& d.serial == of.serial@
    &&& d.connection == connection_named(of.connection_type@)
    &&& d.product_id == of.product_id
    &&& d.location_id == 0
}

} // verus!
