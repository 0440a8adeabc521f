//! The bodies of messages.

use plist::Error as PlistError;
use vstd::prelude::*;
use crate::entries::Entries;
use crate::proplist::format::{plist_error_text, plist_xml, reads_back, to_xml, writable};
use crate::proplist::{
    no_entries, plain, plain_entries, uid_free, uid_free_entries, Dict, Plist, Tree,
};
use crate::text::own;

verus! {

/// What every request says of its sender.
pub open spec fn base_entries(
    message_type: Seq<char>,
    client: Seq<char>,
    prog: Seq<char>,
    version: u32,
) -> Seq<(Seq<char>, Tree)> {
    no_entries().with("MessageType"@, Tree::String(message_type)).with(
        "ClientVersionString"@,
        Tree::String(client),
    ).with("ProgName"@, Tree::String(prog)).with(
        "kLibUSBMuxVersion"@,
        Tree::Integer(version as int),
    )
}

/// What this program's requests of a kind say.
pub open spec fn own_entries(message_type: Seq<char>) -> Seq<(Seq<char>, Tree)> {
    base_entries(message_type, "devicelink-0.1.0"@, "devicelink"@, 3)
}

/// Writes a request as XML.
pub fn encode(p: &Plist) -> (xml: Result<Vec<u8>, PlistError>)
    ensures
        match plist_xml(p@) {
            Ok(bytes) => xml matches Ok(v) && v@ == bytes,
            Err(why) => xml matches Err(e) && plist_error_text(e) == why,
        },
        writable(p@) ==> (xml matches Ok(v) && reads_back(v@, p@)),
{
    to_xml(p)
}

fn base_dict(message_type: &str, client: &str, prog: &str, version: u32) -> (d: Dict)
    ensures
        d@ == base_entries(message_type@, client@, prog@, version),
        plain_entries(d@),
        uid_free_entries(d@),
{
    broadcast use crate::proplist::lemma_plain_with, crate::proplist::lemma_uid_free_with;

    let mut d: Dict = Dict::new();
    d.put_str("MessageType", message_type);
    d.put_str("ClientVersionString", client);
    d.put_str("ProgName", prog);
    d.put("kLibUSBMuxVersion", Plist::number(version as i64));
    d
}

/// A request without arguments.
#[derive(Debug)]
pub struct BaseRequest {
    pub message_type: String,
    pub client_version_string: String,
    pub prog_name: String,
    pub lib_usbmux_version: u32,
}

impl BaseRequest {
    /// The entries of the request.
    pub open spec fn entries(self) -> Seq<(Seq<char>, Tree)> {
        base_entries(
            self.message_type@,
            self.client_version_string@,
            self.prog_name@,
            self.lib_usbmux_version,
        )
    }

    /// A request of this program.
    pub fn new(message_type: &str) -> (r: BaseRequest)
        ensures
            r.message_type@ == message_type@,
            r.client_version_string@ == "devicelink-0.1.0"@,
            r.prog_name@ == "devicelink"@,
            r.lib_usbmux_version == 3,
    {
        BaseRequest {
            message_type: own(message_type),
            client_version_string: own("devicelink-0.1.0"),
            prog_name: own("devicelink"),
            lib_usbmux_version: 3,
        }
    }

    fn dict(&self) -> (d: Dict)
        ensures
            d@ == self.entries(),
            plain_entries(d@),
            uid_free_entries(d@),
    {
        base_dict(
            self.message_type.as_str(),
            self.client_version_string.as_str(),
            self.prog_name.as_str(),
            self.lib_usbmux_version,
        )
    }

    pub fn to_plist(&self) -> (p: Plist)
        ensures
            p@ == Tree::Dictionary(self.entries()),
            plain(p@),
            uid_free(p@),
    {
        broadcast use crate::proplist::lemma_plain_with, crate::proplist::lemma_uid_free_with;

        Plist::dict(self.dict())
    }
}

/// A request for a connection to a port of a device.
#[derive(Debug)]
pub struct ConnectRequest {
    pub base: BaseRequest,
    pub device_id: u32,
    pub port_number: u16,
}

impl ConnectRequest {
    pub fn to_plist(&self) -> (p: Plist)
        ensures
            p@ == Tree::Dictionary(
                self.base.entries().with("DeviceID"@, Tree::Integer(self.device_id as int)).with(
                    "PortNumber"@,
                    Tree::Integer(self.port_number as int),
                ),
            ),
            plain(p@),
            uid_free(p@),
    {
        broadcast use crate::proplist::lemma_plain_with, crate::proplist::lemma_uid_free_with;

        let mut d: Dict = self.base.dict();
        d.put("DeviceID", Plist::number(self.device_id as i64));
        d.put("PortNumber", Plist::number(self.port_number as i64));
        Plist::dict(d)
    }
}

/// A request for, or to delete, the pair record of a device.
#[derive(Debug)]
pub struct PairRecordRequest {
    pub base: BaseRequest,
    pub pair_record_id: String,
}

impl PairRecordRequest {
    pub fn to_plist(&self) -> (p: Plist)
        ensures
            p@ == Tree::Dictionary(
                self.base.entries().with("PairRecordID"@, Tree::String(self.pair_record_id@)),
            ),
            plain(p@),
            uid_free(p@),
    {
        broadcast use crate::proplist::lemma_plain_with, crate::proplist::lemma_uid_free_with;

        let mut d: Dict = self.base.dict();
        d.put_str("PairRecordID", self.pair_record_id.as_str());
        Plist::dict(d)
    }
}

/// A request to keep the pair record of a device.
#[derive(Debug)]
pub struct SavePairRecordRequest {
    pub base: BaseRequest,
    pub pair_record_id: String,
    pub pair_record_data: Vec<u8>,
}

impl SavePairRecordRequest {
    pub fn to_plist(&self) -> (p: Plist)
        ensures
            p@ == Tree::Dictionary(
                self.base.entries().with(
                    "PairRecordID"@,
                    Tree::String(self.pair_record_id@),
                ).with("PairRecordData"@, Tree::Data(self.pair_record_data@)),
            ),
            plain(p@),
            uid_free(p@),
    {
        broadcast use crate::proplist::lemma_plain_with, crate::proplist::lemma_uid_free_with;

        let mut d: Dict = self.base.dict();
        d.put_str("PairRecordID", self.pair_record_id.as_str());
        d.put("PairRecordData", Plist::bytes(self.pair_record_data.as_slice()));
        Plist::dict(d)
    }
}

/// A device in a list.
#[derive(Debug)]
pub struct DeviceEntry {
    pub device_id: u32,
    pub properties: DeviceProperties,
}

/// What a list says of a device.
#[derive(Debug)]
pub struct DeviceProperties {
    pub serial_number: Option<String>,
    pub connection_type: Option<String>,
    pub product_id: Option<u16>,
    pub location_id: Option<u32>,
}

/// A message of the multiplexer: each kind has some of the fields.
#[derive(Debug)]
pub struct Envelope {
    pub message_type: Option<String>,
    pub number: Option<u32>,
    pub device_list: Option<Vec<DeviceEntry>>,
    pub buid: Option<String>,
    pub device_id: Option<u32>,
    pub properties: Option<DeviceProperties>,
    pub pair_record_data: Option<Vec<u8>>,
}

/// A request says under its keys what kind it is, and which client of which program and
/// library version sends it, and nothing else.
pub proof fn lemma_request_tells(kind: Seq<char>, client: Seq<char>, prog: Seq<char>, version: u32)
    ensures
        ({
            let e = base_entries(kind, client, prog, version);
            &&& e.len() == 4
            &&& e.lookup("MessageType"@) == Some(Tree::String(kind))
            &&& e.lookup("ClientVersionString"@) == Some(Tree::String(client))
            &&& e.lookup("ProgName"@) == Some(Tree::String(prog))
            &&& e.lookup("kLibUSBMuxVersion"@) == Some(Tree::Integer(version as int))
        }),
        ({
            let own = own_entries(kind);
            &&& own.lookup("MessageType"@) == Some(Tree::String(kind))
            &&& own.lookup("ClientVersionString"@) == Some(Tree::String("devicelink-0.1.0"@))
            &&& own.lookup("ProgName"@) == Some(Tree::String("devicelink"@))
            &&& own.lookup("kLibUSBMuxVersion"@) == Some(Tree::Integer(3))
        }),
{
    broadcast use crate::entries::lemma_lookup_with;

    reveal_strlit("MessageType");
    reveal_strlit("ClientVersionString");
    reveal_strlit("ProgName");
    reveal_strlit("kLibUSBMuxVersion");
    assert("MessageType"@.len() == 11);
    assert("ClientVersionString"@.len() == 19);
    assert("ProgName"@.len() == 8);
    assert("kLibUSBMuxVersion"@.len() == 17);
}

} // verus!
