//! Pair records: what host and device know of each other.

use vstd::prelude::*;
use vstd::utf8::encode_utf8;
use crate::bytes::copy_bytes;
use crate::proplist::format::{error_text, from_bytes, plist_parse};
use crate::proplist::{Plist, Tree};
use crate::text::{join2, own, str_bytes};
use super::error::Error;

verus! {

/// The credentials that were exchanged when the user trusted the host.
#[derive(Debug)]
pub struct PairRecord {
    pub host_id: String,
    pub system_buid: String,
    /// The certificate that the host presents, as PEM.
    pub host_certificate: Vec<u8>,
    /// The key of the host's certificate, as PEM.
    pub host_private_key: Vec<u8>,
    /// The certificate that the device presents, as PEM.
    pub device_certificate: Vec<u8>,
    /// The certificate that signed the other two, as PEM.
    pub root_certificate: Vec<u8>,
}

/// What a pair record holds.
pub struct RecordModel {
    pub host_id: Seq<char>,
    pub system_buid: Seq<char>,
    pub host_certificate: Seq<u8>,
    pub host_private_key: Seq<u8>,
    pub device_certificate: Seq<u8>,
    pub root_certificate: Seq<u8>,
}

impl View for PairRecord {
    type V = RecordModel;

    open spec fn view(&self) -> RecordModel {
        RecordModel {
            host_id: self.host_id@,
            system_buid: self.system_buid@,
            host_certificate: self.host_certificate@,
            host_private_key: self.host_private_key@,
            device_certificate: self.device_certificate@,
            root_certificate: self.root_certificate@,
        }
    }
}

/// The text under a key, or that it is missing.
pub open spec fn text_field(t: Tree, key: Seq<char>) -> Result<Seq<char>, Seq<char>> {
    match t.text_at(key) {
        Some(s) => Ok(s),
        None => Err("missing string key "@ + key),
    }
}

/// The data under a key, which may be kept as text; or that it is missing.
pub open spec fn data_field(t: Tree, key: Seq<char>) -> Result<Seq<u8>, Seq<char>> {
    match t.at(key) {
        Some(Tree::Data(d)) => Ok(d),
        Some(Tree::String(s)) => Ok(encode_utf8(s)),
        _ => Err("missing data key "@ + key),
    }
}

/// The pair record in a property list, or the first thing that is missing.
pub open spec fn record_of(t: Tree) -> Result<RecordModel, Seq<char>> {
    if t.entries() is None {
        Err("not a dictionary"@)
    } else {
        match text_field(t, "HostID"@) {
            Err(e) => Err(e),
            Ok(host_id) => match text_field(t, "SystemBUID"@) {
                Err(e) => Err(e),
                Ok(system_buid) => match data_field(t, "HostCertificate"@) {
                    Err(e) => Err(e),
                    Ok(host_certificate) => match data_field(t, "HostPrivateKey"@) {
                        Err(e) => Err(e),
                        Ok(host_private_key) => match data_field(t, "DeviceCertificate"@) {
                            Err(e) => Err(e),
                            Ok(device_certificate) => match data_field(t, "RootCertificate"@) {
                                Err(e) => Err(e),
                                Ok(root_certificate) => Ok(
                                    RecordModel {
                                        host_id,
                                        system_buid,
                                        host_certificate,
                                        host_private_key,
                                        device_certificate,
                                        root_certificate,
                                    },
                                ),
                            },
                        },
                    },
                },
            },
        }
    }
}

fn text_of(p: &Plist, key: &str) -> (got: Result<String, Error>)
    ensures
        match text_field(p@, key@) {
            Ok(s) => got matches Ok(t) && t@ == s,
            Err(e) => got matches Err(Error::PairRecord(t)) && t@ == e,
        },
{
    match p.text_at(key) {
        Some(s) => Ok(own(s)),
        None => Err(Error::PairRecord(join2("missing string key ", key))),
    }
}

fn data_of(p: &Plist, key: &str) -> (got: Result<Vec<u8>, Error>)
    ensures
        match data_field(p@, key@) {
            Ok(d) => got matches Ok(v) && v@ == d,
            Err(e) => got matches Err(Error::PairRecord(t)) && t@ == e,
        },
{
    match p.at(key) {
        Some(Plist::Data(d)) => Ok(copy_bytes(d.as_slice())),
        Some(Plist::String(s)) => Ok(str_bytes(s.as_str())),
        _ => Err(Error::PairRecord(join2("missing data key ", key))),
    }
}

impl PairRecord {
    /// Takes the pair record out of a property list.
    pub fn from_plist(p: &Plist) -> (got: Result<PairRecord, Error>)
        ensures
            match record_of(p@) {
                Ok(model) => got matches Ok(record) && record@ == model,
                Err(e) => got matches Err(Error::PairRecord(t)) && t@ == e,
            },
    {
        if p.as_dictionary().is_none() {
            return Err(Error::PairRecord(own("not a dictionary")));
        }
        let host_id: String = match text_of(p, "HostID") {
            Ok(v) => v,
            Err(e) => {
                return Err(e);
            },
        };
        let system_buid: String = match text_of(p, "SystemBUID") {
            Ok(v) => v,
            Err(e) => {
                return Err(e);
            },
        };
        let host_certificate: Vec<u8> = match data_of(p, "HostCertificate") {
            Ok(v) => v,
            Err(e) => {
                return Err(e);
            },
        };
        let host_private_key: Vec<u8> = match data_of(p, "HostPrivateKey") {
            Ok(v) => v,
            Err(e) => {
                return Err(e);
            },
        };
        let device_certificate: Vec<u8> = match data_of(p, "DeviceCertificate") {
            Ok(v) => v,
            Err(e) => {
                return Err(e);
            },
        };
        let root_certificate: Vec<u8> = match data_of(p, "RootCertificate") {
            Ok(v) => v,
            Err(e) => {
                return Err(e);
            },
        };
        Ok(
            PairRecord {
                host_id,
                system_buid,
                host_certificate,
                host_private_key,
                device_certificate,
                root_certificate,
            },
        )
    }

    /// Reads a pair record from the bytes that the multiplexer keeps.
    pub fn from_plist_bytes(data: &[u8]) -> (got: Result<PairRecord, Error>)
        ensures
            match plist_parse(data@) {
                Ok(t) => match record_of(t) {
                    Ok(model) => got matches Ok(record) && record@ == model,
                    Err(e) => got matches Err(Error::PairRecord(text)) && text@ == e,
                },
                Err(why) => got matches Err(Error::PairRecord(text)) && text@ == "plist parse: "@
                    + why,
            },
    {
        match from_bytes(data) {
            Ok(p) => PairRecord::from_plist(&p),
            Err(e) => Err(Error::PairRecord(join2("plist parse: ", error_text(&e).as_str()))),
        }
    }

    /// Another record with the same content.
    pub fn dup(&self) -> (copy: PairRecord)
        ensures
            copy@ == self@,
    {
        PairRecord {
            host_id: own(self.host_id.as_str()),
            system_buid: own(self.system_buid.as_str()),
            host_certificate: copy_bytes(self.host_certificate.as_slice()),
            host_private_key: copy_bytes(self.host_private_key.as_slice()),
            device_certificate: copy_bytes(self.device_certificate.as_slice()),
            root_certificate: copy_bytes(self.root_certificate.as_slice()),
        }
    }
}

/// The bytes under a key: data, or the text that stands for it.
pub open spec fn held_bytes(t: Tree, key: Seq<char>) -> Option<Seq<u8>> {
    if t.data_at(key) is Some {
        t.data_at(key)
    } else {
        match t.text_at(key) {
            Some(s) => Some(encode_utf8(s)),
            None => None,
        }
    }
}

/// A pair record is read exactly if all of it is there, and each of its fields is what
/// stands under its own name.
pub proof fn lemma_record_fields(t: Tree)
    ensures
        record_of(t) is Ok <==> {
            &&& t.text_at("HostID"@) is Some
            &&& t.text_at("SystemBUID"@) is Some
            &&& held_bytes(t, "HostCertificate"@) is Some
            &&& held_bytes(t, "HostPrivateKey"@) is Some
            &&& held_bytes(t, "DeviceCertificate"@) is Some
            &&& held_bytes(t, "RootCertificate"@) is Some
        },
        record_of(t) matches Ok(r) ==> {
            &&& t.text_at("HostID"@) == Some(r.host_id)
            &&& t.text_at("SystemBUID"@) == Some(r.system_buid)
            &&& held_bytes(t, "HostCertificate"@) == Some(r.host_certificate)
            &&& held_bytes(t, "HostPrivateKey"@) == Some(r.host_private_key)
            &&& held_bytes(t, "DeviceCertificate"@) == Some(r.device_certificate)
            &&& held_bytes(t, "RootCertificate"@) == Some(r.root_certificate)
        },
{
}

/// A property list that is no dictionary is no pair record; one that lacks a field is
/// refused for it by name, the two texts before the certificates and the key.
pub proof fn lemma_record_refusals(t: Tree)
    ensures
        t.entries() is None ==> record_of(t) == Err::<RecordModel, Seq<char>>("not a dictionary"@),
        t.entries() is Some && t.text_at("HostID"@) is None
            ==> record_of(t)
            == Err::<RecordModel, Seq<char>>("missing string key "@ + "HostID"@),
        t.entries() is Some && t.text_at("HostID"@) is Some && t.text_at("SystemBUID"@) is None
            ==> record_of(t)
            == Err::<RecordModel, Seq<char>>("missing string key "@ + "SystemBUID"@),
        t.entries() is Some && t.text_at("HostID"@) is Some && t.text_at("SystemBUID"@) is Some
            && t.at("HostCertificate"@) is None
            ==> record_of(t)
            == Err::<RecordModel, Seq<char>>("missing data key "@ + "HostCertificate"@),
        t.entries() is Some && t.text_at("HostID"@) is Some && t.text_at("SystemBUID"@) is Some
            && t.at("HostCertificate"@) is Some && t.data_at("HostCertificate"@) is None
            && t.text_at("HostCertificate"@) is None
            ==> record_of(t)
            == Err::<RecordModel, Seq<char>>("missing data key "@ + "HostCertificate"@),
{
}

} // verus!
