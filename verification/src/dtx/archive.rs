//! Keyed archives of plain values, the argument and payload format of DTX.

use vstd::prelude::*;
use crate::entries::Entries;
use crate::proplist::format::{is_binary, plist_binary, to_binary};
use crate::proplist::{no_entries, plain, plain_entries, trees, Dict, Plist, Tree};


verus! {

/// The archive of an object table: `root` is the index of its root object.
pub open spec fn archived(objects: Seq<Tree>, root: u64) -> Tree {
    Tree::Dictionary(
        no_entries().with("$version"@, Tree::Integer(100000)).with(
            "$archiver"@,
            Tree::String("NSKeyedArchiver"@),
        ).with("$top"@, Tree::Dictionary(no_entries().with("root"@, Tree::Uid(root)))).with(
            "$objects"@,
            Tree::Array(objects),
        ),
    )
}

/// The description of a class whose superclasses lead up to `NSObject`.
pub open spec fn class_tree(name: Seq<char>) -> Tree {
    Tree::Dictionary(
        no_entries().with("$classname"@, Tree::String(name)).with(
            "$classes"@,
            Tree::Array(seq![Tree::String(name), Tree::String("NSObject"@)]),
        ),
    )
}

/// Whether every object of a table holds neither dates nor reals.
pub open spec fn plain_items(items: Seq<Tree>) -> bool {
    forall|i: int| 0 <= i < items.len() ==> plain(#[trigger] items[i])
}

pub proof fn lemma_archived_plain(objects: Seq<Tree>, root: u64)
    requires
        plain_items(objects),
    ensures
        plain(archived(objects, root)),
{
    broadcast use crate::proplist::lemma_plain_with;

    let top = no_entries().with("root"@, Tree::Uid(root));
    assert(plain_entries(no_entries()));
    assert(plain(Tree::Uid(root)));
    assert(plain_entries(top));
    assert(plain(Tree::Dictionary(top)));
    assert(plain(Tree::Integer(100000)));
    assert(plain(Tree::String("NSKeyedArchiver"@)));
    assert(plain(Tree::Array(objects)));
}

pub proof fn lemma_class_plain(name: Seq<char>)
    ensures
        plain(class_tree(name)),
{
    broadcast use crate::proplist::lemma_plain_with;

    let names = seq![Tree::String(name), Tree::String("NSObject"@)];
    assert(plain_entries(no_entries()));
    assert(plain(Tree::String(name)));
    assert(plain(Tree::String("NSObject"@)));
    assert(plain(Tree::Array(names)));
    let entries = no_entries().with("$classname"@, Tree::String(name)).with(
        "$classes"@,
        Tree::Array(names),
    );
    assert(plain_entries(entries));
}

/// The archive of an object table.
pub(crate) fn archive_objects(objects: Vec<Plist>, root: u64) -> (out: Vec<u8>)
    ensures
        out@ == plist_binary(archived(trees(objects@), root)),
        out@.len() > 0,
        plain_items(trees(objects@)) ==> is_binary(out@, archived(trees(objects@), root)),
{
    let mut top: Dict = Dict::new();
    top.put("root", Plist::Uid(root));
    let mut d: Dict = Dict::new();
    d.put("$version", Plist::Int(100000));
    d.put_str("$archiver", "NSKeyedArchiver");
    d.put("$top", Plist::Dictionary(top));
    let table = Plist::Array(objects);
    assert(table@->Array_0 =~= trees(objects@));
    d.put("$objects", table);
    proof {
        if plain_items(trees(objects@)) {
            lemma_archived_plain(trees(objects@), root);
        }
    }
    to_binary(&Plist::Dictionary(d))
}

/// Adds an object to a table that holds neither dates nor reals.
pub(crate) fn push_object(objects: &mut Vec<Plist>, object: Plist)
    requires
        plain_items(trees(old(objects)@)),
        plain(object@),
    ensures
        trees(final(objects)@) == trees(old(objects)@).push(object@),
        plain_items(trees(final(objects)@)),
{
    let ghost before = trees(objects@);
    let ghost t = object@;
    objects.push(object);
    assert(trees(objects@) =~= before.push(t));
    assert forall|i: int| 0 <= i < trees(objects@).len() implies plain(
        #[trigger] trees(objects@)[i],
    ) by {
        if i < before.len() {
            assert(plain(before[i]));
        }
    }
}

/// The description of a class.
pub(crate) fn class_object(name: &str) -> (p: Plist)
    ensures
        p@ == class_tree(name@),
{
    let names: Vec<Plist> = vec![Plist::text(name), Plist::text("NSObject")];
    let classes = Plist::Array(names);
    assert(classes@->Array_0 =~= seq![Tree::String(name@), Tree::String("NSObject"@)]);
    let mut d: Dict = Dict::new();
    d.put_str("$classname", name);
    d.put("$classes", classes);
    Plist::Dictionary(d)
}

/// The object table of a single value: the null object, then the value.
pub open spec fn single(v: Tree) -> Seq<Tree> {
    seq![Tree::String("$null"@), v]
}

/// Archives a single value (string, integer, boolean, data) directly: such values
/// go into the object table as they are.
pub fn archive_primitive(v: Plist) -> (out: Vec<u8>)
    ensures
        out@ == plist_binary(archived(single(v@), 1)),
        out@.len() > 0,
        plain(v@) ==> is_binary(out@, archived(single(v@), 1)),
{
    let objects: Vec<Plist> = vec![Plist::text("$null"), v];
    assert(trees(objects@) =~= single(v@));
    assert(plain(single(v@)[0]));
    archive_objects(objects, 1)
}

/// Archives a string.
pub fn archive_string(s: &str) -> (out: Vec<u8>)
    ensures
        is_binary(out@, archived(single(Tree::String(s@)), 1)),
{
    archive_primitive(Plist::text(s))
}

/// Archives an unsigned number.
pub fn archive_u64(n: u64) -> (out: Vec<u8>)
    ensures
        is_binary(out@, archived(single(Tree::Integer(n as int)), 1)),
{
    archive_primitive(Plist::Uint(n))
}

/// Archives a truth value.
pub fn archive_bool(b: bool) -> (out: Vec<u8>)
    ensures
        is_binary(out@, archived(single(Tree::Boolean(b)), 1)),
{
    archive_primitive(Plist::Boolean(b))
}

/// The object table of the capabilities that a client announces.
pub open spec fn capability_objects() -> Seq<Tree> {
    seq![
        Tree::String("$null"@),
        class_tree("NSDictionary"@),
        Tree::String("com.apple.private.DTXBlockCompression"@),
        Tree::String("com.apple.private.DTXConnection"@),
        Tree::Integer(0),
        Tree::Integer(1),
        Tree::Dictionary(
            no_entries().with("NS.keys"@, Tree::Array(seq![Tree::Uid(2), Tree::Uid(3)])).with(
                "NS.objects"@,
                Tree::Array(seq![Tree::Uid(4), Tree::Uid(5)]),
            ).with("$class"@, Tree::Uid(1)),
        ),
    ]
}

/// An array of object references holds neither dates nor reals.
pub proof fn lemma_uids_plain(uids: Seq<Tree>)
    requires
        forall|i: int| 0 <= i < uids.len() ==> (#[trigger] uids[i]) is Uid,
    ensures
        plain(Tree::Array(uids)),
{
    assert forall|i: int| 0 <= i < uids.len() implies plain(#[trigger] uids[i]) by {
        assert(uids[i] is Uid);
    }
}

proof fn lemma_capabilities_plain()
    ensures
        plain_items(capability_objects()),
{
    broadcast use crate::proplist::lemma_plain_with;

    let objects = capability_objects();
    lemma_class_plain("NSDictionary"@);
    assert(plain_entries(no_entries()));
    lemma_uids_plain(seq![Tree::Uid(2), Tree::Uid(3)]);
    lemma_uids_plain(seq![Tree::Uid(4), Tree::Uid(5)]);
    assert(plain(Tree::Uid(1)));
    let entries = no_entries().with("NS.keys"@, Tree::Array(seq![Tree::Uid(2), Tree::Uid(3)])).with(
        "NS.objects"@,
        Tree::Array(seq![Tree::Uid(4), Tree::Uid(5)]),
    ).with("$class"@, Tree::Uid(1));
    assert(plain_entries(entries));
    assert(plain(Tree::Dictionary(entries)));
    assert forall|i: int| 0 <= i < objects.len() implies plain(#[trigger] objects[i]) by {
        if i == 1 {
            assert(objects[1] == class_tree("NSDictionary"@));
        } else if i == 6 {
            assert(objects[6] == Tree::Dictionary(entries));
        } else {
            assert(objects[i] is String || objects[i] is Integer);
        }
    }
}

fn uid_pair(a: u64, b: u64) -> (p: Plist)
    ensures
        p@ == Tree::Array(seq![Tree::Uid(a), Tree::Uid(b)]),
{
    let items: Vec<Plist> = vec![Plist::uid(a), Plist::uid(b)];
    assert(trees(items@) =~= seq![Tree::Uid(a), Tree::Uid(b)]);
    Plist::array(items)
}

/// Archives the capabilities that test services expect of a client:
/// `{"com.apple.private.DTXBlockCompression": 0, "com.apple.private.DTXConnection": 1}`.
pub fn archive_capabilities_dict() -> (out: Vec<u8>)
    ensures
        is_binary(out@, archived(capability_objects(), 6)),
{
    let mut d: Dict = Dict::new();
    d.put("NS.keys", uid_pair(2, 3));
    d.put("NS.objects", uid_pair(4, 5));
    d.put("$class", Plist::Uid(1));
    let objects: Vec<Plist> = vec![
        Plist::text("$null"),
        class_object("NSDictionary"),
        Plist::text("com.apple.private.DTXBlockCompression"),
        Plist::text("com.apple.private.DTXConnection"),
        Plist::number(0),
        Plist::number(1),
        Plist::dict(d),
    ];
    assert(trees(objects@) =~= capability_objects());
    proof {
        lemma_capabilities_plain();
    }
    archive_objects(objects, 6)
}

/// The object that a reference in an archive stands for.
pub open spec fn referred(archive: Tree, reference: Tree) -> Option<Tree> {
    match (archive.at("$objects"@), reference) {
        (Some(Tree::Array(objects)), Tree::Uid(n)) if n < objects.len() => Some(objects[n as int]),
        _ => None,
    }
}

/// The object that the reference under a key of an object stands for.
pub open spec fn held(archive: Tree, owner: Tree, key: Seq<char>) -> Option<Tree> {
    match owner.at(key) {
        Some(reference) => referred(archive, reference),
        None => None,
    }
}

/// The root object of an archive.
pub open spec fn root_of(archive: Tree) -> Option<Tree> {
    match archive.at("$top"@) {
        Some(top) => held(archive, top, "root"@),
        None => None,
    }
}

/// The name of the class of an object in an archive.
pub open spec fn class_of(archive: Tree, object: Tree) -> Option<Seq<char>> {
    match held(archive, object, "$class"@) {
        Some(class) => class.text_at("$classname"@),
        None => None,
    }
}

/// A keyed archive names its format, its root is the object that was asked for, and each
/// reference stands for the object of its index.
pub proof fn lemma_archive_resolves(objects: Seq<Tree>, root: u64)
    ensures
        ({
            let archive = archived(objects, root);
            &&& archive.at("$version"@) == Some(Tree::Integer(100000))
            &&& archive.text_at("$archiver"@) == Some("NSKeyedArchiver"@)
            &&& archive.at("$objects"@) == Some(Tree::Array(objects))
            &&& root < objects.len() ==> root_of(archive) == Some(objects[root as int])
            &&& forall|n: u64|
                n < objects.len() ==> #[trigger] referred(archive, Tree::Uid(n)) == Some(
                    objects[n as int],
                )
        }),
{
    broadcast use crate::entries::lemma_lookup_with;

    reveal_strlit("$version");
    reveal_strlit("$archiver");
    reveal_strlit("$top");
    reveal_strlit("$objects");
    assert("$version"@.len() == 8);
    assert("$archiver"@.len() == 9);
    assert("$top"@.len() == 4);
    assert("$objects"@.len() == 8);
    assert("$version"@[1] == 'v');
    assert("$objects"@[1] == 'o');
    assert(no_entries().with("root"@, Tree::Uid(root)).lookup("root"@) == Some(Tree::Uid(root)));
}

/// A class is found under its name, and its line of classes starts with it and ends with
/// `NSObject`.
pub proof fn lemma_class_named(name: Seq<char>)
    ensures
        class_tree(name).text_at("$classname"@) == Some(name),
        class_tree(name).at("$classes"@) == Some(
            Tree::Array(seq![Tree::String(name), Tree::String("NSObject"@)]),
        ),
{
    broadcast use crate::entries::lemma_lookup_with;

    reveal_strlit("$classname");
    reveal_strlit("$classes");
    assert("$classname"@.len() == 10);
    assert("$classes"@.len() == 8);
}

/// The archive of a single value has that value as its root.
pub proof fn lemma_single_resolves(v: Tree)
    ensures
        root_of(archived(single(v), 1)) == Some(v),
{
    lemma_archive_resolves(single(v), 1);
}

/// The capabilities of a client are a dictionary: block compression is off, and the
/// connection is on.
pub proof fn lemma_capabilities_named()
    ensures
        ({
            let archive = archived(capability_objects(), 6);
            &&& root_of(archive) matches Some(root)
            &&& class_of(archive, root) == Some("NSDictionary"@)
            &&& root.at("NS.keys"@) matches Some(Tree::Array(keys))
            &&& root.at("NS.objects"@) matches Some(Tree::Array(values))
            &&& keys.len() == 2 && values.len() == 2
            &&& referred(archive, keys[0]) == Some(
                Tree::String("com.apple.private.DTXBlockCompression"@),
            )
            &&& referred(archive, values[0]) == Some(Tree::Integer(0))
            &&& referred(archive, keys[1]) == Some(
                Tree::String("com.apple.private.DTXConnection"@),
            )
            &&& referred(archive, values[1]) == Some(Tree::Integer(1))
        }),
{
    broadcast use crate::entries::lemma_lookup_with;

    reveal_strlit("NS.keys");
    reveal_strlit("NS.objects");
    reveal_strlit("$class");
    assert("NS.keys"@.len() == 7);
    assert("NS.objects"@.len() == 10);
    assert("$class"@.len() == 6);
    lemma_archive_resolves(capability_objects(), 6);
    lemma_class_named("NSDictionary"@);
}

} // verus!
