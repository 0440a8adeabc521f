//! Messages behind a header of sixteen bytes, and the events that they stand for.

use plist::Error as PlistError;
use vstd::prelude::*;
use crate::bytes::{
    get_le32, le_at, le_bytes, lemma_stands_le, low32, low_word, put_le, put_slice, put_zeros,
    sub_vec,
};
use crate::entries::Entries;
use crate::proplist::format::{plist_xml, reads_back, writable};
use crate::proplist::{Plist, Tree};
use crate::text::{own, same_str};
use super::plist_msg::{
    encode, own_entries, BaseRequest, ConnectRequest, DeviceEntry, DeviceProperties, Envelope,
    PairRecordRequest, SavePairRecordRequest,
};
use super::types::{
    connection_named, ConnectionModel, ConnectionType, Device, Event, ProtoError, ResultCode,
};

verus! {

/// The version of messages with property lists.
pub const VERSION: u64 = 1;

/// The kind of messages with property lists.
pub const PLIST_MESSAGE: u64 = 8;

/// The bytes of a message.
pub open spec fn frame_bytes(body: Seq<u8>, tag: u32) -> Seq<u8> {
    le_bytes(low32(16 + body.len()), 4) + le_bytes(VERSION as nat, 4) + le_bytes(
        PLIST_MESSAGE as nat,
        4,
    ) + le_bytes(tag as nat, 4) + body
}

/// Puts a body behind its header.
pub fn frame(body: &[u8], tag: u32) -> (out: Vec<u8>)
    ensures
        out@ == frame_bytes(body@, tag),
{
    let mut whole: Vec<u8> = Vec::new();
    put_zeros(&mut whole, 16);
    put_slice(&mut whole, body);
    let mut out: Vec<u8> = Vec::new();
    put_le(&mut out, low_word(whole.len()), 4);
    put_le(&mut out, VERSION, 4);
    put_le(&mut out, PLIST_MESSAGE, 4);
    put_le(&mut out, tag as u64, 4);
    put_slice(&mut out, body);
    assert(out@ =~= frame_bytes(body@, tag));
    out
}

/// What some bytes start with.
pub enum Framed {
    /// Less than a message.
    Partial,
    /// A message whose length does not cover its header.
    Short(nat),
    /// A message with its tag and body, and what follows it.
    Whole(nat, Seq<u8>, Seq<u8>),
}

/// Looks for a message at the start of some bytes.
pub open spec fn framed(buf: Seq<u8>) -> Framed {
    let len = le_at(buf, 0, 4);
    if buf.len() < 16 {
        Framed::Partial
    } else if len < 16 {
        Framed::Short(len)
    } else if buf.len() < len {
        Framed::Partial
    } else {
        Framed::Whole(le_at(buf, 12, 4), buf.subrange(16, len as int), buf.skip(len as int))
    }
}

/// A message that was put behind its header is found there, whatever follows it.
pub proof fn lemma_frame_roundtrip(body: Seq<u8>, tag: u32, rest: Seq<u8>)
    requires
        16 + body.len() <= u32::MAX,
    ensures
        framed(frame_bytes(body, tag) + rest) == Framed::Whole(tag as nat, body, rest),
{
    broadcast use crate::bytes::lemma_le_bytes_len;

    crate::bytes::lemma_byte_ranges();
    let len: nat = 16 + body.len();
    let buf = frame_bytes(body, tag) + rest;
    assert(buf.subrange(0, 4) =~= le_bytes(low32(len), 4));
    assert(buf.subrange(12, 16) =~= le_bytes(tag as nat, 4));
    lemma_stands_le(buf, 0, low32(len), 4);
    lemma_stands_le(buf, 12, tag as nat, 4);
    assert(buf.subrange(16, len as int) =~= body);
    assert(buf.skip(len as int) =~= rest);
}

/// Bytes that arrive later do not change what was found: a message stays the same, and
/// only what follows it grows.
pub proof fn lemma_fragmentation(buf: Seq<u8>, more: Seq<u8>)
    ensures
        match framed(buf) {
            Framed::Whole(tag, body, rest) => framed(buf + more) == Framed::Whole(
                tag,
                body,
                rest + more,
            ),
            Framed::Short(n) => framed(buf + more) == Framed::Short(n),
            Framed::Partial => true,
        },
{
    if buf.len() >= 16 {
        assert((buf + more).subrange(0, 4) =~= buf.subrange(0, 4));
        assert((buf + more).subrange(12, 16) =~= buf.subrange(12, 16));
        let len = le_at(buf, 0, 4);
        if 16 <= len <= buf.len() {
            assert((buf + more).subrange(16, len as int) =~= buf.subrange(16, len as int));
            assert((buf + more).skip(len as int) =~= buf.skip(len as int) + more);
        }
    }
}

/// A port with its bytes swapped, as requests carry it.
pub open spec fn swapped(port: u16) -> u16 {
    (port % 256 * 256 + port / 256) as u16
}

/// Swaps the bytes of a port.
pub fn swap_port(port: u16) -> (out: u16)
    ensures
        out == swapped(port),
{
    port % 256 * 256 + port / 256
}

/// Swapping the bytes of a port twice gives the port.
pub proof fn lemma_swapped_twice(port: u16)
    ensures
        swapped(swapped(port)) == port,
{
}

/// What comes after a tag; no request has the tag zero.
pub open spec fn next_tag(tag: u32) -> u32 {
    if tag == u32::MAX {
        1
    } else {
        (tag + 1) as u32
    }
}

/// The requests and replies of a connection.
#[derive(Debug)]
pub struct Codec {
    tag: u32,
    buf: Vec<u8>,
    connecting: Option<u32>,
    udid: String,
}

/// What a [`Codec`] knows.
pub struct CodecState {
    /// The tag of the last request.
    pub tag: u32,
    /// The bytes that came in and were not handed out.
    pub pending: Seq<u8>,
    /// The tag of the last request for a connection.
    pub connecting: Option<u32>,
    /// The device whose pair record was asked for last.
    pub udid: Seq<char>,
}

impl View for Codec {
    type V = CodecState;

    closed spec fn view(&self) -> CodecState {
        CodecState {
            tag: self.tag,
            pending: self.buf@,
            connecting: self.connecting,
            udid: self.udid@,
        }
    }
}

/// Whether `out` is the request of a tree under a tag.
pub open spec fn is_request(t: Tree, tag: u32, out: Result<(Vec<u8>, u32), PlistError>) -> bool {
    &&& plist_xml(t) matches Ok(xml)
    &&& reads_back(xml, t)
    &&& out matches Ok((bytes, got))
    &&& got == tag
    &&& bytes@ == frame_bytes(xml, tag)
}

impl CodecState {
    /// The state after a request.
    pub open spec fn asked(self) -> CodecState {
        CodecState { tag: next_tag(self.tag), ..self }
    }

    /// What a message stands for, if it can be understood.
    pub open spec fn event(self, tag: u32, env: Envelope) -> Option<EventModel> {
        match env.message_type {
            Some(kind) => if kind@ == "Result"@ {
                Some(result_event(tag, env.number, self.connecting == Some(tag)))
            } else if kind@ == "Attached"@ {
                match (env.device_id, env.properties) {
                    (Some(id), Some(p)) => Some(EventModel::DeviceAttached(device_of(id, p))),
                    _ => None,
                }
            } else if kind@ == "Detached"@ {
                match env.device_id {
                    Some(id) => Some(EventModel::DeviceDetached(id)),
                    None => None,
                }
            } else {
                None
            },
            None => match env.device_list {
                Some(list) => Some(EventModel::DeviceList(devices_of(list@))),
                None => match env.buid {
                    Some(b) => Some(EventModel::Buid(b@)),
                    None => match env.pair_record_data {
                        Some(d) => Some(EventModel::PairRecord(self.udid, d@)),
                        None => None,
                    },
                },
            },
        }
    }
}

/// What is known of a device.
pub struct DeviceModel {
    pub device_id: u32,
    pub serial: Seq<char>,
    pub connection: ConnectionModel,
    pub product_id: u16,
    pub location_id: u32,
}

impl View for Device {
    type V = DeviceModel;

    open spec fn view(&self) -> DeviceModel {
        DeviceModel {
            device_id: self.device_id,
            serial: self.serial@,
            connection: self.connection_type@,
            product_id: self.product_id,
            location_id: self.location_id,
        }
    }
}

/// What an event tells.
#[verifier::ext_equal]
pub enum EventModel {
    DeviceList(Seq<DeviceModel>),
    DeviceAttached(DeviceModel),
    DeviceDetached(u32),
    Connected(u32),
    RequestOk(u32),
    RequestFailed(u32, ResultCode),
    Buid(Seq<char>),
    PairRecord(Seq<char>, Seq<u8>),
}

/// What is known of some devices.
pub open spec fn device_models(devices: Seq<Device>) -> Seq<DeviceModel> {
    devices.map_values(|d: Device| d@)
}

impl View for Event {
    type V = EventModel;

    open spec fn view(&self) -> EventModel {
        match self {
            Event::DeviceList(devices) => EventModel::DeviceList(device_models(devices@)),
            Event::DeviceAttached(d) => EventModel::DeviceAttached(d@),
            Event::DeviceDetached { device_id } => EventModel::DeviceDetached(*device_id),
            Event::Connected { tag } => EventModel::Connected(*tag),
            Event::RequestOk { tag } => EventModel::RequestOk(*tag),
            Event::RequestFailed { tag, code } => EventModel::RequestFailed(*tag, *code),
            Event::Buid(b) => EventModel::Buid(b@),
            Event::PairRecord { udid, record } => EventModel::PairRecord(udid@, record@),
        }
    }
}

/// A text, or no characters.
pub open spec fn text_or_none(s: Option<String>) -> Seq<char> {
    match s {
        Some(t) => t@,
        None => Seq::empty(),
    }
}

/// The device with some properties; what is not told is empty or zero.
pub open spec fn device_of(device_id: u32, p: DeviceProperties) -> DeviceModel {
    DeviceModel {
        device_id,
        serial: text_or_none(p.serial_number),
        connection: connection_named(text_or_none(p.connection_type)),
        product_id: match p.product_id {
            Some(n) => n,
            None => 0,
        },
        location_id: match p.location_id {
            Some(n) => n,
            None => 0,
        },
    }
}

/// The devices of a list.
pub open spec fn devices_of(list: Seq<DeviceEntry>) -> Seq<DeviceModel> {
    list.map_values(|e: DeviceEntry| device_of(e.device_id, e.properties))
}

/// What the number of a result means; none counts as zero.
pub open spec fn result_event(tag: u32, number: Option<u32>, connecting: bool) -> EventModel {
    let n: u32 = match number {
        Some(n) => n,
        None => 0,
    };
    if n != 0 {
        EventModel::RequestFailed(tag, ResultCode::numbered(n))
    } else if connecting {
        EventModel::Connected(tag)
    } else {
        EventModel::RequestOk(tag)
    }
}

fn text_of(s: Option<String>) -> (t: String)
    ensures
        t@ == text_or_none(s),
{
    match s {
        Some(t) => t,
        None => {
            let none: String = String::new();
            assert(none@ =~= Seq::<char>::empty());
            none
        },
    }
}

fn make_device(device_id: u32, p: DeviceProperties) -> (d: Device)
    ensures
        d@ == device_of(device_id, p),
{
    let product_id: u16 = match p.product_id {
        Some(n) => n,
        None => 0,
    };
    let location_id: u32 = match p.location_id {
        Some(n) => n,
        None => 0,
    };
    let connection: String = text_of(p.connection_type);
    Device {
        device_id,
        serial: text_of(p.serial_number),
        connection_type: ConnectionType::named(connection.as_str()),
        product_id,
        location_id,
    }
}

fn make_devices(list: Vec<DeviceEntry>) -> (out: Vec<Device>)
    ensures
        device_models(out@) == devices_of(list@),
{
    let ghost all = list@;
    let mut rest: Vec<DeviceEntry> = list;
    let mut back: Vec<Device> = Vec::new();
    while rest.len() > 0
        invariant
            rest@.len() + back@.len() == all.len(),
            rest@ == all.take(rest@.len() as int),
            forall|j: int|
                0 <= j < back@.len() ==> (#[trigger] back@[j])@ == device_of(
                    all[all.len() - 1 - j].device_id,
                    all[all.len() - 1 - j].properties,
                ),
        decreases rest@.len(),
    {
        let ghost n = rest@.len();
        if let Some(e) = rest.pop() {
            assert(e == all[n - 1]);
            back.push(make_device(e.device_id, e.properties));
            assert(rest@ =~= all.take(n - 1));
        }
    }
    let ghost whole = back@;
    let mut out: Vec<Device> = Vec::new();
    while back.len() > 0
        invariant
            whole.len() == all.len(),
            out@.len() + back@.len() == all.len(),
            back@ == whole.take(back@.len() as int),
            forall|j: int|
                0 <= j < whole.len() ==> (#[trigger] whole[j])@ == device_of(
                    all[all.len() - 1 - j].device_id,
                    all[all.len() - 1 - j].properties,
                ),
            forall|j: int| 0 <= j < out@.len() ==> #[trigger] out@[j] == whole[all.len() - 1 - j],
        decreases back@.len(),
    {
        let ghost n = back@.len();
        if let Some(d) = back.pop() {
            out.push(d);
            assert(back@ =~= whole.take(n - 1));
        }
    }
    assert(device_models(out@) =~= devices_of(all)) by {
        assert forall|i: int| 0 <= i < out@.len() implies device_models(out@)[i] == devices_of(
            all,
        )[i] by {
            assert(out@[i] == whole[all.len() - 1 - i]);
        }
    }
    out
}

impl Codec {
    pub fn new() -> (c: Codec)
        ensures
            c@.tag == 0,
            c@.pending == Seq::<u8>::empty(),
            c@.connecting is None,
            c@.udid == Seq::<char>::empty(),
    {
        let c = Codec { tag: 0, buf: Vec::new(), connecting: None, udid: String::new() };
        assert(c@.pending =~= Seq::<u8>::empty());
        assert(c@.udid =~= Seq::<char>::empty());
        c
    }

    fn request(&mut self, p: &Plist) -> (out: Result<(Vec<u8>, u32), PlistError>)
        requires
            writable(p@),
        ensures
            final(self)@ == old(self)@.asked(),
            is_request(p@, final(self)@.tag, out),
    {
        self.tag = if self.tag == u32::MAX {
            1
        } else {
            self.tag + 1
        };
        match encode(p) {
            Ok(xml) => Ok((frame(xml.as_slice(), self.tag), self.tag)),
            Err(e) => Err(e),
        }
    }

    /// Asks for the devices.
    pub fn list_devices(&mut self) -> (out: Result<(Vec<u8>, u32), PlistError>)
        ensures
            final(self)@ == old(self)@.asked(),
            is_request(Tree::Dictionary(own_entries("ListDevices"@)), final(self)@.tag, out),
    {
        self.request(&BaseRequest::new("ListDevices").to_plist())
    }

    /// Asks to be told of devices that come and go.
    pub fn listen(&mut self) -> (out: Result<(Vec<u8>, u32), PlistError>)
        ensures
            final(self)@ == old(self)@.asked(),
            is_request(Tree::Dictionary(own_entries("Listen"@)), final(self)@.tag, out),
    {
        self.request(&BaseRequest::new("Listen").to_plist())
    }

    /// Asks for the identifier of the host.
    pub fn read_buid(&mut self) -> (out: Result<(Vec<u8>, u32), PlistError>)
        ensures
            final(self)@ == old(self)@.asked(),
            is_request(Tree::Dictionary(own_entries("ReadBUID"@)), final(self)@.tag, out),
    {
        self.request(&BaseRequest::new("ReadBUID").to_plist())
    }

    /// Asks for a connection to a port of a device.
    pub fn connect(&mut self, device_id: u32, port: u16) -> (out: Result<
        (Vec<u8>, u32),
        PlistError,
    >)
        ensures
            final(self)@ == (CodecState {
                connecting: Some(next_tag(old(self)@.tag)),
                ..old(self)@.asked()
            }),
            is_request(
                Tree::Dictionary(
                    own_entries("Connect"@).with("DeviceID"@, Tree::Integer(device_id as int)).with(
                        "PortNumber"@,
                        Tree::Integer(swapped(port) as int),
                    ),
                ),
                final(self)@.tag,
                out,
            ),
    {
        let req = ConnectRequest {
            base: BaseRequest::new("Connect"),
            device_id,
            port_number: swap_port(port),
        };
        let out = self.request(&req.to_plist());
        self.connecting = Some(self.tag);
        out
    }

    /// Asks for the pair record of a device.
    pub fn read_pair_record(&mut self, udid: &str) -> (out: Result<(Vec<u8>, u32), PlistError>)
        ensures
            final(self)@ == (CodecState { udid: udid@, ..old(self)@.asked() }),
            is_request(
                Tree::Dictionary(
                    own_entries("ReadPairRecord"@).with("PairRecordID"@, Tree::String(udid@)),
                ),
                final(self)@.tag,
                out,
            ),
    {
        let req = PairRecordRequest {
            base: BaseRequest::new("ReadPairRecord"),
            pair_record_id: own(udid),
        };
        let out = self.request(&req.to_plist());
        self.udid = own(udid);
        out
    }

    /// Asks to delete the pair record of a device.
    pub fn delete_pair_record(&mut self, udid: &str) -> (out: Result<(Vec<u8>, u32), PlistError>)
        ensures
            final(self)@ == old(self)@.asked(),
            is_request(
                Tree::Dictionary(
                    own_entries("DeletePairRecord"@).with("PairRecordID"@, Tree::String(udid@)),
                ),
                final(self)@.tag,
                out,
            ),
    {
        let req = PairRecordRequest {
            base: BaseRequest::new("DeletePairRecord"),
            pair_record_id: own(udid),
        };
        self.request(&req.to_plist())
    }

    /// Asks to keep the pair record of a device.
    pub fn save_pair_record(&mut self, udid: &str, record: Vec<u8>) -> (out: Result<
        (Vec<u8>, u32),
        PlistError,
    >)
        ensures
            final(self)@ == old(self)@.asked(),
            is_request(
                Tree::Dictionary(
                    own_entries("SavePairRecord"@).with("PairRecordID"@, Tree::String(udid@)).with(
                        "PairRecordData"@,
                        Tree::Data(record@),
                    ),
                ),
                final(self)@.tag,
                out,
            ),
    {
        let req = SavePairRecordRequest {
            base: BaseRequest::new("SavePairRecord"),
            pair_record_id: own(udid),
            pair_record_data: record,
        };
        self.request(&req.to_plist())
    }

    /// Takes in bytes.
    pub fn push_data(&mut self, bytes: &[u8])
        ensures
            final(self)@ == (CodecState { pending: old(self)@.pending + bytes@, ..old(self)@ }),
    {
        put_slice(&mut self.buf, bytes);
    }

    /// Hands out the next message, once all of it has come in.
    pub fn poll_frame(&mut self) -> (got: Result<Option<(u32, Vec<u8>)>, ProtoError>)
        ensures
            match framed(old(self)@.pending) {
                Framed::Partial => got matches Ok(None) && final(self)@ == old(self)@,
                Framed::Short(n) => got matches Err(ProtoError::FrameTooShort { got: g, need })
                    && g == n && need == 16 && final(self)@ == old(self)@,
                Framed::Whole(tag, body, rest) => got matches Ok(Some((t, b))) && t == tag && b@
                    == body && final(self)@ == (CodecState { pending: rest, ..old(self)@ }),
            },
    {
        if self.buf.len() < 16 {
            return Ok(None);
        }
        let len: u32 = get_le32(self.buf.as_slice(), 0);
        if len < 16 {
            return Err(ProtoError::FrameTooShort { got: len as usize, need: 16 });
        }
        let n: usize = len as usize;
        if self.buf.len() < n {
            return Ok(None);
        }
        let tag: u32 = get_le32(self.buf.as_slice(), 12);
        let body: Vec<u8> = sub_vec(self.buf.as_slice(), 16, n);
        let end: usize = self.buf.len();
        let rest: Vec<u8> = sub_vec(self.buf.as_slice(), n, end);
        assert(rest@ =~= self.buf@.skip(n as int));
        self.buf = rest;
        Ok(Some((tag, body)))
    }

    /// Tells what a message stands for.
    pub fn event(&self, tag: u32, env: Envelope) -> (got: Result<Event, ProtoError>)
        ensures
            match self@.event(tag, env) {
                Some(e) => got matches Ok(ev) && ev@ == e,
                None => got matches Err(ProtoError::UnexpectedMessage(m)) && m@ == text_or_none(
                    env.message_type,
                ),
            },
    {
        match env.message_type {
            Some(kind) => {
                if same_str(kind.as_str(), "Result") {
                    let n: u32 = match env.number {
                        Some(n) => n,
                        None => 0,
                    };
                    let connecting: bool = match self.connecting {
                        Some(t) => t == tag,
                        None => false,
                    };
                    return if n != 0 {
                        Ok(Event::RequestFailed { tag, code: ResultCode::from(n) })
                    } else if connecting {
                        Ok(Event::Connected { tag })
                    } else {
                        Ok(Event::RequestOk { tag })
                    };
                }
                if same_str(kind.as_str(), "Attached") {
                    return match (env.device_id, env.properties) {
                        (Some(id), Some(p)) => Ok(Event::DeviceAttached(make_device(id, p))),
                        _ => Err(ProtoError::UnexpectedMessage(kind)),
                    };
                }
                if same_str(kind.as_str(), "Detached") {
                    if let Some(device_id) = env.device_id {
                        return Ok(Event::DeviceDetached { device_id });
                    }
                }
                Err(ProtoError::UnexpectedMessage(kind))
            },
            None => {
                if let Some(list) = env.device_list {
                    return Ok(Event::DeviceList(make_devices(list)));
                }
                if let Some(b) = env.buid {
                    return Ok(Event::Buid(b));
                }
                if let Some(record) = env.pair_record_data {
                    return Ok(Event::PairRecord { udid: own(self.udid.as_str()), record });
                }
                Err(ProtoError::UnexpectedMessage(text_of(None)))
            },
        }
    }
}

/// What stands where in a message: its whole length, the version 1, the kind 8, the tag,
/// and from the seventeenth byte on the body.
pub proof fn lemma_frame_layout(body: Seq<u8>, tag: u32)
    requires
        16 + body.len() <= u32::MAX,
    ensures
        ({
            let f = frame_bytes(body, tag);
            &&& f.len() == 16 + body.len()
            &&& le_at(f, 0, 4) == f.len()
            &&& le_at(f, 4, 4) == 1
            &&& le_at(f, 8, 4) == 8
            &&& le_at(f, 12, 4) == tag
            &&& f.skip(16) == body
        }),
{
    broadcast use crate::bytes::lemma_le_bytes_len;

    crate::bytes::lemma_byte_ranges();
    let f = frame_bytes(body, tag);
    let len: nat = 16 + body.len();
    assert(f.subrange(0, 4) =~= le_bytes(low32(len), 4));
    assert(f.subrange(4, 8) =~= le_bytes(VERSION as nat, 4));
    assert(f.subrange(8, 12) =~= le_bytes(PLIST_MESSAGE as nat, 4));
    assert(f.subrange(12, 16) =~= le_bytes(tag as nat, 4));
    lemma_stands_le(f, 0, low32(len), 4);
    lemma_stands_le(f, 4, VERSION as nat, 4);
    lemma_stands_le(f, 8, PLIST_MESSAGE as nat, 4);
    lemma_stands_le(f, 12, tag as nat, 4);
    assert(f.skip(16) =~= body);
}

/// What is found at the start of some bytes: nothing before the sixteen bytes of a header
/// and the stated length are there, and a length below sixteen is too short. A message
/// has the tag at its thirteenth byte and the stated length, and the rest follows it.
pub proof fn lemma_framed_means(buf: Seq<u8>)
    ensures
        ({
            let len = le_at(buf, 0, 4);
            match framed(buf) {
                Framed::Partial => buf.len() < 16 || (len >= 16 && buf.len() < len),
                Framed::Short(n) => buf.len() >= 16 && n == len && n < 16,
                Framed::Whole(tag, body, rest) => {
                    &&& 16 <= len <= buf.len()
                    &&& tag == le_at(buf, 12, 4)
                    &&& body.len() == len - 16
                    &&& buf == buf.take(16) + body + rest
                },
            }
        }),
{
    if let Framed::Whole(tag, body, rest) = framed(buf) {
        assert(buf =~= buf.take(16) + body + rest);
    }
}

/// The swapped port has the two bytes of the port the other way round: its little-endian
/// form is the big-endian form of the port.
pub proof fn lemma_swapped_bytes(port: u16)
    ensures
        swapped(port) % 256 == port / 256,
        swapped(port) / 256 == port % 256,
        le_bytes(swapped(port) as nat, 2) == crate::bytes::be_bytes(port as nat, 2),
{
    reveal_with_fuel(le_bytes, 3);
    reveal_with_fuel(crate::bytes::be_bytes, 3);
    assert(le_bytes(swapped(port) as nat, 2) =~= crate::bytes::be_bytes(port as nat, 2));
}

/// Tags go up by one, and from the highest to one: no request has the tag zero, nor the
/// tag of the request before it.
pub proof fn lemma_tags(s: CodecState)
    ensures
        s.asked().tag != 0,
        s.asked().tag != s.tag,
        s.tag < u32::MAX ==> s.asked().tag == s.tag + 1,
        s.tag == u32::MAX ==> s.asked().tag == 1,
        s.asked().pending == s.pending,
        s.asked().connecting == s.connecting,
        s.asked().udid == s.udid,
{
}

/// Whoever takes a request apart finds its tag and a body that is read as its tree, and
/// nothing behind it.
pub proof fn lemma_request_found(t: Tree, tag: u32, out: Result<(Vec<u8>, u32), PlistError>)
    requires
        is_request(t, tag, out),
        out->Ok_0.0@.len() <= u32::MAX,
    ensures
        out->Ok_0.1 == tag,
        framed(out->Ok_0.0@) matches Framed::Whole(n, body, rest) && n == tag && reads_back(body, t)
            && rest.len() == 0,
{
    broadcast use crate::bytes::lemma_le_bytes_len;

    let xml = plist_xml(t)->Ok_0;
    lemma_frame_roundtrip(xml, tag, Seq::empty());
    assert(frame_bytes(xml, tag) + Seq::<u8>::empty() =~= frame_bytes(xml, tag));
}

/// What a device that is told of is known by: its number and what is said of it; where
/// nothing is said, no characters and zero.
pub proof fn lemma_device_known(device_id: u32, p: DeviceProperties)
    ensures
        ({
            let d = device_of(device_id, p);
            &&& d.device_id == device_id
            &&& p.serial_number matches Some(s) ==> d.serial == s@
            &&& p.serial_number is None ==> d.serial.len() == 0
            &&& p.connection_type matches Some(c) ==> d.connection == connection_named(c@)
            &&& p.product_id matches Some(n) ==> d.product_id == n
            &&& p.product_id is None ==> d.product_id == 0
            &&& p.location_id matches Some(n) ==> d.location_id == n
            &&& p.location_id is None ==> d.location_id == 0
        }),
{
}

/// A list of devices stands for as many devices in the same order, each known by its
/// number and serial.
pub proof fn lemma_devices_in_order(list: Seq<DeviceEntry>)
    ensures
        devices_of(list).len() == list.len(),
        forall|i: int|
            0 <= i < list.len() ==> (#[trigger] devices_of(list)[i]).device_id == list[i].device_id
                && devices_of(list)[i] == device_of(list[i].device_id, list[i].properties),
{
}

/// What a result stands for: a number other than zero is a failure of that number; else
/// the connection is open exactly if the tag is that of the last request for one.
pub proof fn lemma_results(s: CodecState, tag: u32, env: Envelope)
    requires
        env.message_type matches Some(kind) && kind@ == "Result"@,
    ensures
        match s.event(tag, env) {
            Some(EventModel::RequestFailed(t, code)) => {
                &&& t == tag
                &&& env.number matches Some(n) && n != 0 && code == ResultCode::numbered(n)
            },
            Some(EventModel::Connected(t)) => {
                &&& t == tag
                &&& env.number is None || env.number == Some(0u32)
                &&& s.connecting == Some(tag)
            },
            Some(EventModel::RequestOk(t)) => {
                &&& t == tag
                &&& env.number is None || env.number == Some(0u32)
                &&& s.connecting != Some(tag)
            },
            _ => false,
        },
{
}

/// What the other messages stand for, by their kind, or without one by what they hold: a
/// device that came, a device that went, the devices, the identifier of the host, or the
/// pair record of the device that was asked for last. Nothing else is understood.
pub proof fn lemma_events(s: CodecState, tag: u32, env: Envelope)
    ensures
        env.message_type matches Some(kind) && kind@ == "Attached"@ ==> match (
            env.device_id,
            env.properties,
        ) {
            (Some(id), Some(p)) => s.event(tag, env) == Some(
                EventModel::DeviceAttached(device_of(id, p)),
            ),
            _ => s.event(tag, env) is None,
        },
        env.message_type matches Some(kind) && kind@ == "Detached"@ ==> match env.device_id {
            Some(id) => s.event(tag, env) == Some(EventModel::DeviceDetached(id)),
            None => s.event(tag, env) is None,
        },
        env.message_type matches Some(kind) && kind@ != "Result"@ && kind@ != "Attached"@ && kind@
            != "Detached"@ ==> s.event(tag, env) is None,
        env.message_type is None ==> (env.device_list matches Some(list) ==> s.event(tag, env)
            == Some(EventModel::DeviceList(devices_of(list@)))),
        env.message_type is None && env.device_list is None ==> (env.buid matches Some(b)
            ==> s.event(tag, env) == Some(EventModel::Buid(b@))),
        env.message_type is None && env.device_list is None && env.buid is None ==> (
        env.pair_record_data matches Some(d) ==> s.event(tag, env) == Some(
            EventModel::PairRecord(s.udid, d@),
        )),
        env.message_type is None && env.device_list is None && env.buid is None
            && env.pair_record_data is None ==> s.event(tag, env) is None,
{
    reveal_strlit("Result");
    reveal_strlit("Attached");
    reveal_strlit("Detached");
    assert("Result"@.len() == 6);
    assert("Attached"@[0] == 'A');
    assert("Detached"@[0] == 'D');
    assert("Attached"@.len() == 8);
    assert("Detached"@.len() == 8);
}

} // verus!
