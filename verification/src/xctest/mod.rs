//! Running UI and unit tests on a device.
//!
//! Two connections to the test service are opened. On the first a session is
//! initiated, then the runner is launched; once it says that it is ready it is
//! given the test configuration, and the plan is started. On the second the
//! runner's process is authorised.

pub mod config;
pub mod launch;
pub mod run;
pub mod setup;

use vstd::prelude::*;
use crate::dtx::archive::{
    archive_objects, archived, class_object, class_of, class_tree, held, lemma_archive_resolves,
    lemma_class_named, lemma_class_plain, lemma_uids_plain, plain_items, push_object, referred,
    root_of,
};
use crate::entries::Entries;
use crate::proplist::format::{is_binary, plist_binary};
use crate::proplist::{no_entries, plain, plain_entries, trees, Dict, Plist, Tree};
use self::config::{url_object, url_tree, uuid_object, uuid_tree};

pub use self::config::{build_xctest_configuration_bytes, XCTestConfigArgs};

verus! {

/// The outcome of one test.
#[derive(Debug)]
pub struct TestResult {
    pub bundle: String,
    pub class: String,
    pub method: String,
    pub passed: bool,
    pub message: String,
}

/// The object table of an archived identifier.
pub open spec fn uuid_objects(bytes: Seq<u8>) -> Seq<Tree> {
    seq![Tree::String("$null"@), class_tree("NSUUID"@), uuid_tree(bytes, 1)]
}

/// Archives an identifier.
pub fn archive_uuid(bytes: &[u8; 16]) -> (out: Vec<u8>)
    ensures
        is_binary(out@, archived(uuid_objects(bytes@), 2)),
{
    let mut objects: Vec<Plist> = Vec::new();
    push_object(&mut objects, Plist::text("$null"));
    proof {
        lemma_class_plain("NSUUID"@);
    }
    push_object(&mut objects, class_object("NSUUID"));
    push_object(&mut objects, uuid_object(bytes, 1));
    assert(trees(objects@) =~= uuid_objects(bytes@));
    archive_objects(objects, 2)
}

/// The object table of an archived URL.
pub open spec fn url_objects(url: Seq<char>) -> Seq<Tree> {
    seq![Tree::String("$null"@), class_tree("NSURL"@), Tree::String(url), url_tree(2, 1)]
}

/// Archives a URL.
pub fn archive_url(url: &str) -> (out: Vec<u8>)
    ensures
        is_binary(out@, archived(url_objects(url@), 3)),
{
    let mut objects: Vec<Plist> = Vec::new();
    push_object(&mut objects, Plist::text("$null"));
    proof {
        lemma_class_plain("NSURL"@);
    }
    push_object(&mut objects, class_object("NSURL"));
    push_object(&mut objects, Plist::text(url));
    push_object(&mut objects, url_object(2, 1));
    assert(trees(objects@) =~= url_objects(url@));
    archive_objects(objects, 3)
}

/// Keys and values in turn, each an object of its own.
pub open spec fn capability_pairs(caps: Seq<(Seq<char>, Tree)>) -> Seq<Tree>
    decreases caps.len(),
{
    if caps.len() == 0 {
        Seq::empty()
    } else {
        capability_pairs(caps.drop_last()).push(Tree::String(caps.last().0)).push(caps.last().1)
    }
}

/// References to every second object from `first` on.
pub open spec fn every_second(first: int, count: nat) -> Seq<Tree> {
    Seq::new(count, |i: int| Tree::Uid((first + 2 * i) as u64))
}

/// The object table of archived capabilities: the classes, keys and values in
/// turn, the dictionary that refers to them, and the capabilities object. The
/// dictionary is an object of its own, since an unarchiver refuses an inline one.
pub open spec fn capabilities_objects(caps: Seq<(Seq<char>, Tree)>) -> Seq<Tree> {
    let n = caps.len();
    (seq![Tree::String("$null"@), class_tree("XCTCapabilities"@), class_tree("NSDictionary"@)]
        + capability_pairs(caps)).push(
        Tree::Dictionary(
            no_entries().with("NS.keys"@, Tree::Array(every_second(3, n))).with(
                "NS.objects"@,
                Tree::Array(every_second(4, n)),
            ).with("$class"@, Tree::Uid(2)),
        ),
    ).push(
        Tree::Dictionary(
            no_entries().with("capabilities-dictionary"@, Tree::Uid((3 + 2 * n) as u64)).with(
                "$class"@,
                Tree::Uid(1),
            ),
        ),
    )
}

fn uid_list(first: u64, count: usize) -> (p: Plist)
    requires
        first + 2 * count <= u64::MAX + 1,
    ensures
        p@ == Tree::Array(every_second(first as int, count as nat)),
        plain(p@),
{
    let mut items: Vec<Plist> = Vec::new();
    let mut i: usize = 0;
    while i < count
        invariant
            i <= count,
            first + 2 * count <= u64::MAX + 1,
            items@.len() == i,
            forall|j: int|
                0 <= j < i ==> (#[trigger] items@[j])@ == Tree::Uid((first + 2 * j) as u64),
        decreases count - i,
    {
        items.push(Plist::uid(first + 2 * (i as u64)));
        i += 1;
    }
    assert(trees(items@) =~= every_second(first as int, count as nat));
    proof {
        lemma_uids_plain(every_second(first as int, count as nat));
    }
    Plist::array(items)
}

proof fn lemma_pairs_len(caps: Seq<(Seq<char>, Tree)>)
    ensures
        capability_pairs(caps).len() == 2 * caps.len(),
    decreases caps.len(),
{
    if caps.len() > 0 {
        lemma_pairs_len(caps.drop_last());
    }
}

proof fn lemma_pairs_plain(caps: Seq<(Seq<char>, Tree)>)
    requires
        plain_entries(caps),
    ensures
        plain_items(capability_pairs(caps)),
    decreases caps.len(),
{
    if caps.len() > 0 {
        let front = caps.drop_last();
        assert forall|i: int| 0 <= i < front.len() implies plain((#[trigger] front[i]).1) by {
            assert(front[i] == caps[i]);
        }
        lemma_pairs_plain(front);
        let before = capability_pairs(front);
        let all = capability_pairs(caps);
        assert(plain(caps[caps.len() - 1].1));
        assert forall|i: int| 0 <= i < all.len() implies plain(#[trigger] all[i]) by {
            if i < before.len() {
                assert(plain(before[i]));
            }
        }
    }
}

proof fn lemma_capabilities_plain(caps: Seq<(Seq<char>, Tree)>)
    requires
        plain_entries(caps),
    ensures
        plain_items(capabilities_objects(caps)),
{
    broadcast use crate::proplist::lemma_plain_with;

    let n = caps.len();
    let all = capabilities_objects(caps);
    let pairs = capability_pairs(caps);
    lemma_pairs_plain(caps);
    lemma_class_plain("XCTCapabilities"@);
    lemma_class_plain("NSDictionary"@);
    lemma_uids_plain(every_second(3, n));
    lemma_uids_plain(every_second(4, n));
    assert(plain_entries(no_entries()));
    assert(plain(Tree::Uid(1)));
    assert(plain(Tree::Uid(2)));
    assert(plain(Tree::Uid((3 + 2 * n) as u64)));
    assert(plain(all[all.len() - 2]));
    assert(plain(all[all.len() - 1]));
    assert forall|i: int| 0 <= i < all.len() implies plain(#[trigger] all[i]) by {
        if 3 <= i < 3 + pairs.len() {
            assert(all[i] == pairs[i - 3]);
        }
    }
}

/// Archives capabilities.
pub fn archive_xct_capabilities(caps: &Dict) -> (out: Vec<u8>)
    ensures
        out@ == plist_binary(
            archived(capabilities_objects(caps@), (4 + 2 * caps@.len()) as u64),
        ),
        out@.len() > 0,
        plain_entries(caps@) ==> is_binary(
            out@,
            archived(capabilities_objects(caps@), (4 + 2 * caps@.len()) as u64),
        ),
{
    let mut objects: Vec<Plist> = vec![
        Plist::text("$null"),
        class_object("XCTCapabilities"),
        class_object("NSDictionary"),
    ];
    let n: usize = caps.len();
    let ghost head = trees(objects@);
    assert(head =~= seq![
        Tree::String("$null"@),
        class_tree("XCTCapabilities"@),
        class_tree("NSDictionary"@),
    ]);
    let mut i: usize = 0;
    assert(trees(objects@) =~= head + capability_pairs(caps@.take(0)));
    while i < n
        invariant
            n == caps@.len(),
            i <= n,
            trees(objects@) == head + capability_pairs(caps@.take(i as int)),
        decreases n - i,
    {
        assert(caps@.take(i + 1).drop_last() =~= caps@.take(i as int));
        assert(caps@.take(i + 1).last() == caps@[i as int]);
        let ghost before = trees(objects@);
        objects.push(Plist::text(caps.key_at(i)));
        objects.push(caps.value_at(i).dup());
        assert(trees(objects@) =~= before.push(Tree::String(caps@[i as int].0)).push(
            caps@[i as int].1,
        ));
        i += 1;
        assert(trees(objects@) =~= head + capability_pairs(caps@.take(i as int)));
    }
    assert(caps@.take(i as int) =~= caps@);
    proof {
        lemma_pairs_len(caps@);
        assert(trees(objects@).len() == objects@.len());
    }
    let dictionary: usize = objects.len();
    let mut nd: Dict = Dict::new();
    nd.put("NS.keys", uid_list(3, n));
    nd.put("NS.objects", uid_list(4, n));
    nd.put("$class", Plist::uid(2));
    let mut d: Dict = Dict::new();
    d.put("capabilities-dictionary", Plist::uid(dictionary as u64));
    d.put("$class", Plist::uid(1));
    objects.push(Plist::dict(nd));
    let root: usize = objects.len();
    objects.push(Plist::dict(d));
    assert(trees(objects@) =~= capabilities_objects(caps@));
    proof {
        if plain_entries(caps@) {
            lemma_capabilities_plain(caps@);
        }
    }
    archive_objects(objects, root as u64)
}

/// The archive of an identifier is an `NSUUID` with its bytes.
pub proof fn lemma_uuid_archive(bytes: Seq<u8>)
    ensures
        ({
            let archive = archived(uuid_objects(bytes), 2);
            &&& root_of(archive) matches Some(root)
            &&& class_of(archive, root) == Some("NSUUID"@)
            &&& root.at("NS.uuidbytes"@) == Some(Tree::Data(bytes))
        }),
{
    broadcast use crate::entries::lemma_lookup_with;

    reveal_strlit("NS.uuidbytes");
    reveal_strlit("$class");
    assert("NS.uuidbytes"@.len() == 12);
    assert("$class"@.len() == 6);
    lemma_archive_resolves(uuid_objects(bytes), 2);
    lemma_class_named("NSUUID"@);
}

/// The archive of a URL is an `NSURL` that is relative to nothing.
pub proof fn lemma_url_archive(url: Seq<char>)
    ensures
        ({
            let archive = archived(url_objects(url), 3);
            &&& root_of(archive) matches Some(root)
            &&& class_of(archive, root) == Some("NSURL"@)
            &&& held(archive, root, "NS.relative"@) == Some(Tree::String(url))
            &&& held(archive, root, "NS.base"@) == Some(Tree::String("$null"@))
        }),
{
    broadcast use crate::entries::lemma_lookup_with;

    reveal_strlit("NS.base");
    reveal_strlit("NS.relative");
    reveal_strlit("$class");
    assert("NS.base"@.len() == 7);
    assert("NS.relative"@.len() == 11);
    assert("$class"@.len() == 6);
    lemma_archive_resolves(url_objects(url), 3);
    lemma_class_named("NSURL"@);
}

proof fn lemma_pair_at(caps: Seq<(Seq<char>, Tree)>, i: int)
    requires
        0 <= i < caps.len(),
    ensures
        capability_pairs(caps).len() == 2 * caps.len(),
        capability_pairs(caps)[2 * i] == Tree::String(caps[i].0),
        capability_pairs(caps)[2 * i + 1] == caps[i].1,
    decreases caps.len(),
{
    let front = caps.drop_last();
    lemma_pairs_len(caps);
    lemma_pairs_len(front);
    if i < front.len() {
        lemma_pair_at(front, i);
        assert(capability_pairs(caps)[2 * i] == capability_pairs(front)[2 * i]);
        assert(capability_pairs(caps)[2 * i + 1] == capability_pairs(front)[2 * i + 1]);
    }
}

/// The archive of capabilities is an `XCTCapabilities` that holds an `NSDictionary`; its
/// keys and values stand for the capabilities, in order.
#[verifier::spinoff_prover]
pub proof fn lemma_capabilities_archive(caps: Seq<(Seq<char>, Tree)>, i: int)
    requires
        caps.len() < 0x1000_0000_0000_0000,
    ensures
        ({
            let archive = archived(capabilities_objects(caps), (4 + 2 * caps.len()) as u64);
            &&& root_of(archive) matches Some(root)
            &&& class_of(archive, root) == Some("XCTCapabilities"@)
            &&& held(archive, root, "capabilities-dictionary"@) matches Some(able)
            &&& class_of(archive, able) == Some("NSDictionary"@)
            &&& able.at("NS.keys"@) matches Some(Tree::Array(keys))
            &&& able.at("NS.objects"@) matches Some(Tree::Array(values))
            &&& keys.len() == caps.len() && values.len() == caps.len()
            &&& 0 <= i < caps.len() ==> referred(archive, keys[i]) == Some(Tree::String(caps[i].0))
                && referred(archive, values[i]) == Some(caps[i].1)
        }),
{
    broadcast use crate::entries::lemma_lookup_with;

    reveal_strlit("NS.keys");
    reveal_strlit("NS.objects");
    reveal_strlit("$class");
    reveal_strlit("capabilities-dictionary");
    assert("NS.keys"@.len() == 7);
    assert("NS.objects"@.len() == 10);
    assert("$class"@.len() == 6);
    assert("capabilities-dictionary"@.len() == 23);
    let objects = capabilities_objects(caps);
    let n = caps.len();
    lemma_pairs_len(caps);
    assert(objects.len() == 5 + 2 * n);
    lemma_archive_resolves(objects, (4 + 2 * n) as u64);
    lemma_class_named("XCTCapabilities"@);
    lemma_class_named("NSDictionary"@);
    assert(objects[1] == class_tree("XCTCapabilities"@));
    assert(objects[2] == class_tree("NSDictionary"@));
    if 0 <= i < n {
        lemma_pair_at(caps, i);
        assert(objects[3 + 2 * i] == capability_pairs(caps)[2 * i]);
        assert(objects[4 + 2 * i] == capability_pairs(caps)[2 * i + 1]);
        assert(every_second(3, n)[i] == Tree::Uid((3 + 2 * i) as u64));
        assert(every_second(4, n)[i] == Tree::Uid((4 + 2 * i) as u64));
    }
}

} // verus!
