//! The open tunnels as a client of the daemon shows them.

use vstd::prelude::*;
use crate::entries::Entries;
use crate::proplist::{no_entries, trees, Dict, Plist, Tree};
use crate::text::{dec_u64, decimal, join2, join3, own, same_str, texts};
use super::registry::{shown_tunnels, TunnelModel};
use super::requests::{asked, list_tree, Asked};

verus! {

/// A request without arguments.
pub open spec fn control_tree(name: Seq<char>) -> Tree {
    Tree::Dictionary(no_entries().with("Request"@, Tree::String(name)))
}

/// Asks the daemon to end.
pub fn shutdown_request() -> (p: Plist)
    ensures
        p@ == control_tree("Shutdown"@),
{
    let mut d: Dict = Dict::new();
    d.put_str("Request", "Shutdown");
    Plist::dict(d)
}

/// Asks the daemon for its tunnels.
pub fn list_request() -> (p: Plist)
    ensures
        p@ == control_tree("List"@),
{
    let mut d: Dict = Dict::new();
    d.put_str("Request", "List");
    Plist::dict(d)
}

/// The daemon understands both requests.
pub proof fn lemma_understood()
    ensures
        asked(control_tree("Shutdown"@)) matches Ok(Asked::Shutdown),
        asked(control_tree("List"@)) matches Ok(Asked::List),
{
    broadcast use crate::entries::lemma_lookup_with;

    reveal_strlit("List");
    reveal_strlit("Watch");
    reveal_strlit("RawTunnel");
    reveal_strlit("Shutdown");
    assert("List"@.len() == 4);
    assert("Watch"@.len() == 5);
    assert("RawTunnel"@.len() == 9);
    assert("Shutdown"@.len() == 8);
}

/// The devices in an answer, or what is wrong with it.
pub open spec fn listed(t: Tree) -> Result<Seq<Tree>, Seq<char>> {
    if t.entries() is None {
        Err("bad response"@)
    } else if t.text_at("Status"@) != Some("Ok"@) {
        Err(
            "daemon error: "@ + match t.text_at("Error"@) {
                Some(e) => e,
                None => "unknown"@,
            },
        )
    } else {
        match t.at("Devices"@) {
            Some(Tree::Array(devices)) => Ok(devices),
            _ => Ok(Seq::empty()),
        }
    }
}

fn devices_in(resp: &Plist) -> (got: Result<Option<&Vec<Plist>>, String>)
    ensures
        match listed(resp@) {
            Ok(devices) => got matches Ok(d) && match d {
                Some(v) => trees(v@) == devices,
                None => devices == Seq::<Tree>::empty(),
            },
            Err(e) => got matches Err(t) && t@ == e,
        },
{
    if resp.as_dictionary().is_none() {
        return Err(own("bad response"));
    }
    let ok: bool = match resp.text_at("Status") {
        Some(s) => same_str(s, "Ok"),
        None => false,
    };
    if !ok {
        return Err(
            match resp.text_at("Error") {
                Some(e) => join2("daemon error: ", e),
                None => join2("daemon error: ", "unknown"),
            },
        );
    }
    match resp.at("Devices") {
        Some(p) => Ok(p.as_array()),
        None => Ok(None),
    }
}

/// A client is told of exactly the tunnels that are open.
pub proof fn lemma_listed(tunnels: Seq<(Seq<char>, TunnelModel)>)
    ensures
        listed(list_tree(shown_tunnels(tunnels))) == Ok::<Seq<Tree>, Seq<char>>(
            shown_tunnels(tunnels),
        ),
{
    broadcast use crate::entries::lemma_lookup_with;

    reveal_strlit("Status");
    reveal_strlit("Devices");
    assert("Status"@.len() == 6);
    assert("Devices"@.len() == 7);
}

/// What is known of an open tunnel.
#[derive(Debug)]
pub struct TunnelEntry {
    pub udid: String,
    pub product_type: String,
    pub os_version: String,
    pub device_name: String,
    pub ecid: u64,
    pub services: u64,
}

/// The mathematical counterpart of [`TunnelEntry`].
pub struct EntryModel {
    pub udid: Seq<char>,
    pub product_type: Seq<char>,
    pub os_version: Seq<char>,
    pub device_name: Seq<char>,
    pub ecid: u64,
    pub services: u64,
}

impl View for TunnelEntry {
    type V = EntryModel;

    open spec fn view(&self) -> EntryModel {
        EntryModel {
            udid: self.udid@,
            product_type: self.product_type@,
            os_version: self.os_version@,
            device_name: self.device_name@,
            ecid: self.ecid,
            services: self.services,
        }
    }
}

/// The text under a key, or another text.
pub open spec fn text_or(t: Tree, key: Seq<char>, other: Seq<char>) -> Seq<char> {
    match t.text_at(key) {
        Some(s) => s,
        None => other,
    }
}

/// The number under a key, or zero.
pub open spec fn number_or_zero(t: Tree, key: Seq<char>) -> u64 {
    match t.unsigned_at(key) {
        Some(n) => n,
        None => 0,
    }
}

/// What a device of an answer tells; what is not told is empty or zero.
pub open spec fn entry_of(t: Tree) -> EntryModel {
    EntryModel {
        udid: text_or(t, "UDID"@, ""@),
        product_type: text_or(t, "ProductType"@, ""@),
        os_version: text_or(t, "OSVersion"@, ""@),
        device_name: text_or(t, "DeviceName"@, ""@),
        ecid: number_or_zero(t, "ECID"@),
        services: number_or_zero(t, "Services"@),
    }
}

/// What the devices of an answer tell; what is no dictionary is passed over.
pub open spec fn entries_of(devices: Seq<Tree>) -> Seq<EntryModel>
    decreases devices.len(),
{
    if devices.len() == 0 {
        Seq::empty()
    } else {
        let front = entries_of(devices.drop_last());
        if devices.last() is Dictionary {
            front.push(entry_of(devices.last()))
        } else {
            front
        }
    }
}

/// A line that shows a device.
pub open spec fn line_of(t: Tree) -> Seq<char> {
    text_or(t, "UDID"@, "?"@) + "  "@ + text_or(t, "DeviceName"@, "?"@) + "  "@ + text_or(
        t,
        "ProductType"@,
        "?"@,
    ) + "  iOS "@ + text_or(t, "OSVersion"@, "?"@) + "  ("@ + decimal(
        number_or_zero(t, "Services"@) as nat,
    ) + " services)"@
}

/// The lines that show the devices of an answer; what is no dictionary is passed over.
pub open spec fn lines_of(devices: Seq<Tree>) -> Seq<Seq<char>>
    decreases devices.len(),
{
    if devices.len() == 0 {
        Seq::empty()
    } else {
        let front = lines_of(devices.drop_last());
        if devices.last() is Dictionary {
            front.push(line_of(devices.last()))
        } else {
            front
        }
    }
}

fn text_in(p: &Plist, key: &str, other: &str) -> (s: String)
    ensures
        s@ == text_or(p@, key@, other@),
{
    match p.text_at(key) {
        Some(s) => own(s),
        None => own(other),
    }
}

fn number_in(p: &Plist, key: &str) -> (n: u64)
    ensures
        n == number_or_zero(p@, key@),
{
    match p.unsigned_at(key) {
        Some(n) => n,
        None => 0,
    }
}

/// The views of some entries.
pub open spec fn entry_models(entries: Seq<TunnelEntry>) -> Seq<EntryModel> {
    entries.map_values(|e: TunnelEntry| e@)
}

/// Reads the answer of the daemon.
pub fn list_entries(resp: &Plist) -> (got: Result<Vec<TunnelEntry>, String>)
    ensures
        match listed(resp@) {
            Ok(devices) => got matches Ok(v) && entry_models(v@) == entries_of(devices),
            Err(e) => got matches Err(t) && t@ == e,
        },
{
    let devices: Option<&Vec<Plist>> = match devices_in(resp) {
        Ok(d) => d,
        Err(e) => {
            return Err(e);
        },
    };
    let mut out: Vec<TunnelEntry> = Vec::new();
    assert(entry_models(out@) =~= Seq::<EntryModel>::empty());
    if let Some(v) = devices {
        let mut i: usize = 0;
        assert(entries_of(trees(v@).take(0)) =~= Seq::<EntryModel>::empty());
        while i < v.len()
            invariant
                i <= v@.len(),
                entry_models(out@) == entries_of(trees(v@).take(i as int)),
            decreases v@.len() - i,
        {
            let ghost before = out@;
            let p: &Plist = &v[i];
            assert(trees(v@).take(i + 1).drop_last() =~= trees(v@).take(i as int));
            assert(trees(v@).take(i + 1).last() == p@);
            if p.as_dictionary().is_some() {
                let e = TunnelEntry {
                    udid: text_in(p, "UDID", ""),
                    product_type: text_in(p, "ProductType", ""),
                    os_version: text_in(p, "OSVersion", ""),
                    device_name: text_in(p, "DeviceName", ""),
                    ecid: number_in(p, "ECID"),
                    services: number_in(p, "Services"),
                };
                assert(e@ == entry_of(p@));
                out.push(e);
                assert(entry_models(out@) =~= entry_models(before).push(entry_of(p@)));
            }
            i += 1;
        }
        assert(trees(v@).take(v@.len() as int) =~= trees(v@));
    }
    Ok(out)
}

fn line(p: &Plist) -> (s: String)
    ensures
        s@ == line_of(p@),
{
    let head: String = join3(
        text_in(p, "UDID", "?").as_str(),
        "  ",
        text_in(p, "DeviceName", "?").as_str(),
    );
    let kind: String = join3(head.as_str(), "  ", text_in(p, "ProductType", "?").as_str());
    let os: String = join3(kind.as_str(), "  iOS ", text_in(p, "OSVersion", "?").as_str());
    join2(
        join3(os.as_str(), "  (", dec_u64(number_in(p, "Services")).as_str()).as_str(),
        " services)",
    )
}

/// Shows the answer of the daemon, line by line.
pub fn list_lines(resp: &Plist) -> (got: Result<Vec<String>, String>)
    ensures
        match listed(resp@) {
            Ok(devices) => got matches Ok(v) && texts(v@) == if devices.len() == 0 {
                seq!["no active tunnels"@]
            } else {
                lines_of(devices)
            },
            Err(e) => got matches Err(t) && t@ == e,
        },
{
    let devices: Option<&Vec<Plist>> = match devices_in(resp) {
        Ok(d) => d,
        Err(e) => {
            return Err(e);
        },
    };
    let mut out: Vec<String> = Vec::new();
    assert(texts(out@) =~= Seq::<Seq<char>>::empty());
    if let Some(v) = devices {
        if v.len() > 0 {
            let mut i: usize = 0;
            assert(lines_of(trees(v@).take(0)) =~= Seq::<Seq<char>>::empty());
            while i < v.len()
                invariant
                    i <= v@.len(),
                    texts(out@) == lines_of(trees(v@).take(i as int)),
                decreases v@.len() - i,
            {
                let ghost before = out@;
                let p: &Plist = &v[i];
                assert(trees(v@).take(i + 1).drop_last() =~= trees(v@).take(i as int));
                assert(trees(v@).take(i + 1).last() == p@);
                if p.as_dictionary().is_some() {
                    out.push(line(p));
                    assert(texts(out@) =~= texts(before).push(line_of(p@)));
                }
                i += 1;
            }
            assert(trees(v@).take(v@.len() as int) =~= trees(v@));
            return Ok(out);
        }
    }
    out.push(own("no active tunnels"));
    assert(texts(out@) =~= seq!["no active tunnels"@]);
    Ok(out)
}

/// A request without arguments names what is asked for.
pub proof fn lemma_control_tells(name: Seq<char>)
    ensures
        control_tree(name) matches Tree::Dictionary(d) && d.len() == 1 && d.lookup("Request"@) == Some(
            Tree::String(name),
        ),
{
    broadcast use crate::entries::lemma_lookup_with;

}

/// The devices of an answer are those under `Devices`, if the status is `Ok`; else the
/// error that is told is shown.
pub proof fn lemma_answers(d: Seq<(Seq<char>, Tree)>)
    ensures
        ({
            let t = Tree::Dictionary(d);
            if d.lookup("Status"@) == Some(Tree::String("Ok"@)) {
                match d.lookup("Devices"@) {
                    Some(Tree::Array(devices)) => listed(t) == Ok::<Seq<Tree>, Seq<char>>(devices),
                    _ => listed(t) matches Ok(devices) && devices.len() == 0,
                }
            } else {
                match d.lookup("Error"@) {
                    Some(Tree::String(e)) => listed(t) == Err::<Seq<Tree>, Seq<char>>(
                        "daemon error: "@ + e,
                    ),
                    _ => listed(t) == Err::<Seq<Tree>, Seq<char>>("daemon error: "@ + "unknown"@),
                }
            }
        }),
{
}

/// What a device of an answer tells, by keys.
pub proof fn lemma_entry_tells(d: Seq<(Seq<char>, Tree)>)
    ensures
        ({
            let e = entry_of(Tree::Dictionary(d));
            &&& d.lookup("UDID"@) matches Some(Tree::String(s)) ==> e.udid == s
            &&& d.lookup("ProductType"@) matches Some(Tree::String(s)) ==> e.product_type == s
            &&& d.lookup("OSVersion"@) matches Some(Tree::String(s)) ==> e.os_version == s
            &&& d.lookup("DeviceName"@) matches Some(Tree::String(s)) ==> e.device_name == s
            &&& d.lookup("ECID"@) matches Some(Tree::Integer(n)) ==> (0 <= n <= u64::MAX ==> e.ecid
                == n)
            &&& d.lookup("Services"@) matches Some(Tree::Integer(n)) ==> (0 <= n <= u64::MAX
                ==> e.services == n)
            &&& d.lookup("UDID"@) is None ==> e.udid.len() == 0
            &&& d.lookup("ProductType"@) is None ==> e.product_type.len() == 0
            &&& d.lookup("OSVersion"@) is None ==> e.os_version.len() == 0
            &&& d.lookup("DeviceName"@) is None ==> e.device_name.len() == 0
            &&& d.lookup("ECID"@) is None ==> e.ecid == 0
            &&& d.lookup("Services"@) is None ==> e.services == 0
        }),
{
    reveal_strlit("");
}

/// A client that lists the open tunnels sees each of them, in order, with its device.
pub proof fn lemma_client_sees(tunnels: Seq<(Seq<char>, TunnelModel)>, i: int)
    requires
        0 <= i < tunnels.len(),
        tunnels[i].1.services.len() <= i64::MAX,
    ensures
        entries_of(shown_tunnels(tunnels)).len() == tunnels.len(),
        ({
            let e = entries_of(shown_tunnels(tunnels))[i];
            let (udid, dt) = tunnels[i];
            &&& e.udid == udid
            &&& e.product_type == dt.product_type
            &&& e.os_version == dt.os_version
            &&& e.device_name == dt.device_name
            &&& dt.ecid <= i64::MAX ==> e.ecid == dt.ecid
            &&& e.services == dt.services.len()
        }),
{
    lemma_all_entries(shown_tunnels(tunnels), i);
    let (udid, dt) = tunnels[i];
    super::registry::lemma_tunnel_tells(udid, dt);
    lemma_entry_tells(super::registry::tunnel_entries(udid, dt));
}

/// Where every device of an answer is a dictionary, each is shown by what it tells, in
/// order, on a line of its own.
pub proof fn lemma_all_entries(devices: Seq<Tree>, i: int)
    requires
        0 <= i < devices.len(),
        forall|j: int| 0 <= j < devices.len() ==> (#[trigger] devices[j]) is Dictionary,
    ensures
        entries_of(devices).len() == devices.len(),
        entries_of(devices)[i] == entry_of(devices[i]),
        lines_of(devices).len() == devices.len(),
        lines_of(devices)[i] == line_of(devices[i]),
    decreases devices.len(),
{
    let front = devices.drop_last();
    assert(devices.last() == devices[devices.len() - 1]);
    assert forall|j: int| 0 <= j < front.len() implies (#[trigger] front[j]) is Dictionary by {
        assert(devices[j] is Dictionary);
    }
    if front.len() > 0 {
        lemma_all_entries(
            front,
            if i < front.len() {
                i
            } else {
                0
            },
        );
    } else {
        assert(entries_of(front).len() == 0);
        assert(lines_of(front).len() == 0);
    }
}

/// What is no dictionary is passed over.
pub proof fn lemma_passed_over(devices: Seq<Tree>, t: Tree)
    requires
        !(t is Dictionary),
    ensures
        entries_of(devices.push(t)) == entries_of(devices),
        lines_of(devices.push(t)) == lines_of(devices),
{
    assert(devices.push(t).drop_last() =~= devices);
}

/// A line shows the identifier, the name, the type and the version of a device, and how
/// many services it has; a question mark stands for what is not told.
pub proof fn lemma_lines_tell(d: Seq<(Seq<char>, Tree)>)
    ensures
        ({
            let t = Tree::Dictionary(d);
            let udid = match d.lookup("UDID"@) {
                Some(Tree::String(s)) => s,
                _ => "?"@,
            };
            let name = match d.lookup("DeviceName"@) {
                Some(Tree::String(s)) => s,
                _ => "?"@,
            };
            let product = match d.lookup("ProductType"@) {
                Some(Tree::String(s)) => s,
                _ => "?"@,
            };
            let version = match d.lookup("OSVersion"@) {
                Some(Tree::String(s)) => s,
                _ => "?"@,
            };
            let head = udid + "  "@ + name + "  "@ + product + "  iOS "@ + version + "  ("@;
            let n = head.len() as int;
            &&& line_of(t).len() >= n + 10
            &&& line_of(t).take(n) == head
            &&& line_of(t).skip(line_of(t).len() - 10) == " services)"@
            &&& d.lookup("Services"@) matches Some(Tree::Integer(k)) ==> (0 <= k <= u64::MAX
                ==> crate::text::digits_value(line_of(t).subrange(n, line_of(t).len() - 10)) == k)
        }),
{
    reveal_strlit(" services)");
    let t = Tree::Dictionary(d);
    let head = text_or(t, "UDID"@, "?"@) + "  "@ + text_or(t, "DeviceName"@, "?"@) + "  "@
        + text_or(t, "ProductType"@, "?"@) + "  iOS "@ + text_or(t, "OSVersion"@, "?"@) + "  ("@;
    let count = decimal(number_or_zero(t, "Services"@) as nat);
    let n = head.len() as int;
    assert(line_of(t) =~= head + count + " services)"@);
    assert(line_of(t).take(n) =~= head);
    assert(line_of(t).skip(line_of(t).len() - 10) =~= " services)"@);
    assert(line_of(t).subrange(n, line_of(t).len() - 10) =~= count);
    crate::text::lemma_decimal_value(number_or_zero(t, "Services"@) as nat);
}

/// What is no dictionary is no answer of the daemon.
pub proof fn lemma_no_answer(t: Tree)
    ensures
        t.entries() is None ==> listed(t) == Err::<Seq<Tree>, Seq<char>>("bad response"@),
{
}

} // verus!
