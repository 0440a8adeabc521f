//! The test configuration that a test runner asks for, as a keyed archive.

use vstd::prelude::*;
use crate::dtx::archive::{
    archive_objects, archived, class_object, class_of, class_tree, held, lemma_archive_resolves,
    lemma_class_named, lemma_class_plain, plain_items, push_object, root_of,
};
use crate::entries::Entries;
use crate::proplist::format::{is_binary, plist_parse};
use crate::proplist::{no_entries, plain, plain_entries, trees, Dict, Plist, Tree};
use crate::text::join2;

verus! {

/// What a configuration is made of.
pub struct XCTestConfigArgs<'a> {
    pub session_id: &'a [u8; 16],
    pub test_bundle_path: &'a str,
    pub product_module_name: &'a str,
    pub target_bundle_id: &'a str,
    pub target_path: &'a str,
    pub tests_to_run: &'a [String],
    pub tests_to_skip: &'a [String],
    pub is_xctest: bool,
}

/// What [`XCTestConfigArgs`] hold.
pub struct ConfigModel {
    pub session_id: Seq<u8>,
    pub test_bundle_path: Seq<char>,
    pub product_module_name: Seq<char>,
    pub target_bundle_id: Seq<char>,
    pub target_path: Seq<char>,
    pub tests_to_run: Seq<String>,
    pub tests_to_skip: Seq<String>,
    pub is_xctest: bool,
}

impl View for XCTestConfigArgs<'_> {
    type V = ConfigModel;

    open spec fn view(&self) -> ConfigModel {
        ConfigModel {
            session_id: self.session_id@,
            test_bundle_path: self.test_bundle_path@,
            product_module_name: self.product_module_name@,
            target_bundle_id: self.target_bundle_id@,
            target_path: self.target_path@,
            tests_to_run: self.tests_to_run@,
            tests_to_skip: self.tests_to_skip@,
            is_xctest: self.is_xctest,
        }
    }
}

/// The strings of a list.
pub open spec fn text_trees(items: Seq<String>) -> Seq<Tree> {
    items.map_values(|s: String| Tree::String(s@))
}

/// The description of the mutable array class.
pub open spec fn mutable_array_class() -> Tree {
    Tree::Dictionary(
        no_entries().with("$classname"@, Tree::String("NSMutableArray"@)).with(
            "$classes"@,
            Tree::Array(
                seq![
                    Tree::String("NSMutableArray"@),
                    Tree::String("NSArray"@),
                    Tree::String("NSObject"@),
                ],
            ),
        ),
    )
}

/// A unique identifier; its class is object `class`.
pub open spec fn uuid_tree(bytes: Seq<u8>, class: u64) -> Tree {
    Tree::Dictionary(
        no_entries().with("NS.uuidbytes"@, Tree::Data(bytes)).with("$class"@, Tree::Uid(class)),
    )
}

/// A URL whose text is object `text`; its class is object `class`.
pub open spec fn url_tree(text: u64, class: u64) -> Tree {
    Tree::Dictionary(
        no_entries().with("NS.base"@, Tree::Uid(0)).with("NS.relative"@, Tree::Uid(text)).with(
            "$class"@,
            Tree::Uid(class),
        ),
    )
}

/// A set of strings; its class is object `class`.
pub open spec fn set_tree(items: Seq<Tree>, class: u64) -> Tree {
    Tree::Dictionary(
        no_entries().with("NS.objects"@, Tree::Array(items)).with("$class"@, Tree::Uid(class)),
    )
}

/// The capabilities that the test host announces, each of them set.
pub open spec fn host_capabilities() -> Seq<(Seq<char>, Tree)> {
    let yes = Tree::Boolean(true);
    no_entries().with("XCTIssue capability"@, yes).with(
        "daemon container sandbox extension"@,
        yes,
    ).with("delayed attachment transfer"@, yes).with("expected failure test capability"@, yes).with(
        "request diagnostics for specific devices"@,
        yes,
    ).with("skipped test capability"@, yes).with("test case run configurations"@, yes).with(
        "test iterations"@,
        yes,
    ).with("test timeout capability"@, yes).with("ubiquitous test identifiers"@, yes)
}

/// The objects that every configuration starts with.
pub open spec fn first_objects(args: ConfigModel) -> Seq<Tree> {
    seq![
        Tree::String("$null"@),
        class_tree("XCTestConfiguration"@),
        class_tree("NSUUID"@),
        class_tree("NSURL"@),
        class_tree("NSSet"@),
        class_tree("NSDictionary"@),
        class_tree("XCTCapabilities"@),
        mutable_array_class(),
        uuid_tree(args.session_id, 2),
        Tree::String("file://"@ + args.test_bundle_path),
        url_tree(9, 3),
        Tree::String(args.product_module_name),
    ]
}

/// An optional set of tests: nothing stands for "all", or for "none skipped".
pub open spec fn optional_set(items: Seq<String>) -> Seq<Tree> {
    if items.len() == 0 {
        Seq::empty()
    } else {
        seq![set_tree(text_trees(items), 4)]
    }
}

/// An optional string: nothing stands for an empty one.
pub open spec fn optional_text(s: Seq<char>) -> Seq<Tree> {
    if s.len() == 0 {
        Seq::empty()
    } else {
        seq![Tree::String(s)]
    }
}

/// The objects between the test sets and the target application.
pub open spec fn middle_objects() -> Seq<Tree> {
    seq![
        Tree::Dictionary(
            no_entries().with("XCSuiteRecordsKey"@, Tree::Dictionary(no_entries())).with(
                "$class"@,
                Tree::Uid(5),
            ),
        ),
        Tree::String(
            "/System/Developer/Library/PrivateFrameworks/XCTAutomationSupport.framework"@,
        ),
        Tree::Dictionary(
            no_entries().with(
                "capabilities-dictionary"@,
                Tree::Dictionary(host_capabilities()),
            ).with("$class"@, Tree::Uid(6)),
        ),
    ]
}

/// Every object but the configuration itself.
pub open spec fn leading_objects(args: ConfigModel) -> Seq<Tree> {
    first_objects(args) + optional_set(args.tests_to_run) + optional_set(args.tests_to_skip)
        + middle_objects() + optional_text(args.target_bundle_id) + optional_text(
        args.target_path,
    )
}

/// The fields of a configuration that do not depend on what is optional. `middle`
/// is the index of the first object behind the test sets.
pub open spec fn fixed_fields(args: ConfigModel, middle: u64) -> Seq<(Seq<char>, Tree)> {
    last_fields(further_fields(first_fields(no_entries(), middle), args), middle)
}

/// The first of the fixed fields, put behind others.
#[verifier::opaque]
pub open spec fn first_fields(fields: Seq<(Seq<char>, Tree)>, middle: u64) -> Seq<(Seq<char>, Tree)> {
    fields.with(
        "$class"@,
        Tree::Uid(1),
    ).with(
        "aggregateStatisticsBeforeCrash"@,
        Tree::Uid(middle),
    ).with(
        "automationFrameworkPath"@,
        Tree::Uid((middle + 1) as u64),
    ).with(
        "baselineFileRelativePath"@,
        Tree::Uid(0),
    ).with(
        "baselineFileURL"@,
        Tree::Uid(0),
    ).with(
        "defaultTestExecutionTimeAllowance"@,
        Tree::Uid(0),
    ).with(
        "disablePerformanceMetrics"@,
        Tree::Boolean(false),
    ).with(
        "emitOSLogs"@,
        Tree::Boolean(false),
    ).with(
        "gatherLocalizableStringsData"@,
        Tree::Boolean(false),
    )
}

/// The further of the fixed fields, put behind others.
#[verifier::opaque]
pub open spec fn further_fields(fields: Seq<(Seq<char>, Tree)>, args: ConfigModel) -> Seq<(Seq<char>, Tree)> {
    fields.with(
        "initializeForUITesting"@,
        Tree::Boolean(!args.is_xctest),
    ).with(
        "maximumTestExecutionTimeAllowance"@,
        Tree::Uid(0),
    ).with(
        "randomExecutionOrderingSeed"@,
        Tree::Uid(0),
    ).with(
        "reportActivities"@,
        Tree::Boolean(true),
    ).with(
        "reportResultsToIDE"@,
        Tree::Boolean(true),
    ).with(
        "sessionIdentifier"@,
        Tree::Uid(8),
    ).with(
        "systemAttachmentLifetime"@,
        Tree::Integer(2),
    ).with(
        "testApplicationUserOverrides"@,
        Tree::Uid(0),
    ).with(
        "testBundleRelativePath"@,
        Tree::Uid(0),
    ).with(
        "testBundleURL"@,
        Tree::Uid(10),
    )
}

/// The last of the fixed fields, put behind others.
#[verifier::opaque]
pub open spec fn last_fields(fields: Seq<(Seq<char>, Tree)>, middle: u64) -> Seq<(Seq<char>, Tree)> {
    fields.with(
        "testExecutionOrdering"@,
        Tree::Integer(0),
    ).with(
        "testTimeoutsEnabled"@,
        Tree::Boolean(false),
    ).with(
        "testsDrivenByIDE"@,
        Tree::Boolean(false),
    ).with(
        "testsMustRunOnMainThread"@,
        Tree::Boolean(true),
    ).with(
        "treatMissingBaselinesAsFailures"@,
        Tree::Boolean(false),
    ).with(
        "userAttachmentLifetime"@,
        Tree::Integer(1),
    ).with(
        "preferredScreenCaptureFormat"@,
        Tree::Integer(2),
    ).with(
        "IDECapabilities"@,
        Tree::Uid((middle + 2) as u64),
    ).with(
        "productModuleName"@,
        Tree::Uid(11),
    )
}

/// One more field, where there is an object for it.
pub open spec fn with_reference(
    fields: Seq<(Seq<char>, Tree)>,
    key: Seq<char>,
    present: bool,
    index: nat,
) -> Seq<(Seq<char>, Tree)> {
    if present {
        fields.with(key, Tree::Uid(index as u64))
    } else {
        fields
    }
}

/// The configuration object.
pub open spec fn configuration(args: ConfigModel) -> Tree {
    let run = optional_set(args.tests_to_run);
    let skip = optional_set(args.tests_to_skip);
    let bundle = optional_text(args.target_bundle_id);
    let path = optional_text(args.target_path);
    let middle = 12 + run.len() + skip.len();
    let f0 = fixed_fields(args, middle as u64);
    let f1 = with_reference(f0, "testsToRun"@, run.len() > 0, 12);
    let f2 = with_reference(f1, "testsToSkip"@, skip.len() > 0, 12 + run.len());
    let f3 = with_reference(f2, "targetApplicationBundleID"@, bundle.len() > 0, middle + 3);
    let f4 = with_reference(
        f3,
        "targetApplicationPath"@,
        path.len() > 0,
        middle + 3 + bundle.len(),
    );
    Tree::Dictionary(f4)
}

/// The whole archive.
pub open spec fn configuration_archive(args: ConfigModel) -> Tree {
    let leading = leading_objects(args);
    archived(leading.push(configuration(args)), leading.len() as u64)
}

fn text_items(items: &[String]) -> (out: Vec<Plist>)
    ensures
        trees(out@) == text_trees(items@),
{
    let mut out: Vec<Plist> = Vec::new();
    let mut i: usize = 0;
    while i < items.len()
        invariant
            i <= items@.len(),
            out@.len() == i,
            forall|j: int| 0 <= j < i ==> (#[trigger] out@[j])@ == Tree::String(items@[j]@),
        decreases items@.len() - i,
    {
        out.push(Plist::text(items[i].as_str()));
        i += 1;
    }
    assert(trees(out@) =~= text_trees(items@));
    out
}

fn push_set(objects: &mut Vec<Plist>, items: &[String])
    requires
        plain_items(trees(old(objects)@)),
    ensures
        trees(final(objects)@) == trees(old(objects)@) + optional_set(items@),
        plain_items(trees(final(objects)@)),
{
    broadcast use crate::proplist::lemma_plain_with;

    if items.len() > 0 {
        let mut d: Dict = Dict::new();
        d.put("NS.objects", Plist::array(text_items(items)));
        d.put("$class", Plist::uid(4));
        proof {
            assert(plain_entries(no_entries()));
            let texts = text_trees(items@);
            assert forall|i: int| 0 <= i < texts.len() implies plain(#[trigger] texts[i]) by {
                assert(texts[i] is String);
            }
            assert(plain(Tree::Array(texts)));
            assert(plain(Tree::Uid(4)));
            assert(plain_entries(d@));
        }
        push_object(objects, Plist::dict(d));
    }
    assert(trees(objects@) =~= trees(old(objects)@) + optional_set(items@));
}

fn push_text(objects: &mut Vec<Plist>, s: &str)
    requires
        plain_items(trees(old(objects)@)),
    ensures
        trees(final(objects)@) == trees(old(objects)@) + optional_text(s@),
        plain_items(trees(final(objects)@)),
{
    if !s.is_empty() {
        push_object(objects, Plist::text(s));
    }
    assert(trees(objects@) =~= trees(old(objects)@) + optional_text(s@));
}

fn push_class(objects: &mut Vec<Plist>, name: &str)
    requires
        plain_items(trees(old(objects)@)),
    ensures
        trees(final(objects)@) == trees(old(objects)@).push(class_tree(name@)),
        plain_items(trees(final(objects)@)),
{
    proof {
        lemma_class_plain(name@);
    }
    push_object(objects, class_object(name));
}

fn mutable_array_object() -> (p: Plist)
    ensures
        p@ == mutable_array_class(),
        plain(p@),
{
    broadcast use crate::proplist::lemma_plain_with;

    let names: Vec<Plist> = vec![
        Plist::text("NSMutableArray"),
        Plist::text("NSArray"),
        Plist::text("NSObject"),
    ];
    let ghost expected = seq![
        Tree::String("NSMutableArray"@),
        Tree::String("NSArray"@),
        Tree::String("NSObject"@),
    ];
    assert(trees(names@) =~= expected);
    let mut d: Dict = Dict::new();
    d.put_str("$classname", "NSMutableArray");
    d.put("$classes", Plist::array(names));
    proof {
        assert forall|i: int| 0 <= i < expected.len() implies plain(#[trigger] expected[i]) by {
            assert(expected[i] is String);
        }
        assert(plain(Tree::Array(expected)));
        assert(plain_entries(no_entries()));
        assert(plain(Tree::String("NSMutableArray"@)));
        assert(plain_entries(d@));
    }
    Plist::dict(d)
}

/// A unique identifier.
pub(crate) fn uuid_object(bytes: &[u8; 16], class: u64) -> (p: Plist)
    ensures
        p@ == uuid_tree(bytes@, class),
        plain(p@),
{
    broadcast use crate::proplist::lemma_plain_with;

    let mut d: Dict = Dict::new();
    d.put("NS.uuidbytes", Plist::bytes(bytes.as_slice()));
    d.put("$class", Plist::uid(class));
    proof {
        assert(plain_entries(no_entries()));
        assert(plain(Tree::Data(bytes@)));
        assert(plain(Tree::Uid(class)));
        assert(plain_entries(d@));
    }
    Plist::dict(d)
}

/// A URL.
pub(crate) fn url_object(text: u64, class: u64) -> (p: Plist)
    ensures
        p@ == url_tree(text, class),
        plain(p@),
{
    broadcast use crate::proplist::lemma_plain_with;

    let mut d: Dict = Dict::new();
    d.put("NS.base", Plist::uid(0));
    d.put("NS.relative", Plist::uid(text));
    d.put("$class", Plist::uid(class));
    proof {
        assert(plain_entries(no_entries()));
        assert(plain(Tree::Uid(0)));
        assert(plain(Tree::Uid(text)));
        assert(plain(Tree::Uid(class)));
        assert(plain_entries(d@));
    }
    Plist::dict(d)
}

/// The capabilities that the test host announces.
pub(crate) fn capability_dict() -> (d: Dict)
    ensures
        d@ == host_capabilities(),
        plain_entries(d@),
{
    broadcast use crate::proplist::lemma_plain_with;

    let mut d: Dict = Dict::new();
    d.put("XCTIssue capability", Plist::truth(true));
    d.put("daemon container sandbox extension", Plist::truth(true));
    d.put("delayed attachment transfer", Plist::truth(true));
    d.put("expected failure test capability", Plist::truth(true));
    d.put("request diagnostics for specific devices", Plist::truth(true));
    d.put("skipped test capability", Plist::truth(true));
    d.put("test case run configurations", Plist::truth(true));
    d.put("test iterations", Plist::truth(true));
    d.put("test timeout capability", Plist::truth(true));
    d.put("ubiquitous test identifiers", Plist::truth(true));
    proof {
        assert(plain_entries(no_entries()));
        assert(plain(Tree::Boolean(true)));
        assert(plain_entries(d@));
    }
    d
}

fn push_middle(objects: &mut Vec<Plist>)
    requires
        plain_items(trees(old(objects)@)),
    ensures
        trees(final(objects)@) == trees(old(objects)@) + middle_objects(),
        plain_items(trees(final(objects)@)),
{
    broadcast use crate::proplist::lemma_plain_with;

    let mut stats: Dict = Dict::new();
    stats.put("XCSuiteRecordsKey", Plist::dict(Dict::new()));
    stats.put("$class", Plist::uid(5));
    let mut caps: Dict = Dict::new();
    caps.put("capabilities-dictionary", Plist::dict(capability_dict()));
    caps.put("$class", Plist::uid(6));
    proof {
        assert(plain_entries(no_entries()));
        assert(plain(Tree::Dictionary(no_entries())));
        assert(plain(Tree::Uid(5)));
        assert(plain_entries(stats@));
        assert(plain(Tree::Dictionary(stats@)));
        assert(plain(Tree::Dictionary(host_capabilities())));
        assert(plain(Tree::Uid(6)));
        assert(plain_entries(caps@));
        assert(plain(Tree::Dictionary(caps@)));
    }
    push_object(objects, Plist::dict(stats));
    push_object(
        objects,
        Plist::text("/System/Developer/Library/PrivateFrameworks/XCTAutomationSupport.framework"),
    );
    push_object(objects, Plist::dict(caps));
    assert(trees(objects@) =~= trees(old(objects)@) + middle_objects());
}

fn push_first(objects: &mut Vec<Plist>, args: &XCTestConfigArgs)
    requires
        old(objects)@.len() == 0,
    ensures
        trees(final(objects)@) == first_objects(args@),
        plain_items(trees(final(objects)@)),
{
    push_object(objects, Plist::text("$null"));
    push_class(objects, "XCTestConfiguration");
    push_class(objects, "NSUUID");
    push_class(objects, "NSURL");
    push_class(objects, "NSSet");
    push_class(objects, "NSDictionary");
    push_class(objects, "XCTCapabilities");
    push_object(objects, mutable_array_object());
    push_object(objects, uuid_object(args.session_id, 2));
    push_object(objects, Plist::String(join2("file://", args.test_bundle_path)));
    push_object(objects, url_object(9, 3));
    push_object(objects, Plist::text(args.product_module_name));
    assert(trees(objects@) =~= first_objects(args@));
}

fn fixed_dict(args: &XCTestConfigArgs, middle: u64) -> (cfg: Dict)
    requires
        middle < 100,
    ensures
        cfg@ == fixed_fields(args@, middle),
        plain_entries(cfg@),
{
    let mut cfg: Dict = Dict::new();
    assert(plain_entries(cfg@));
    put_plain(&mut cfg, "$class", Plist::uid(1));
    put_plain(&mut cfg, "aggregateStatisticsBeforeCrash", Plist::uid(middle));
    put_plain(&mut cfg, "automationFrameworkPath", Plist::uid(middle + 1));
    put_plain(&mut cfg, "baselineFileRelativePath", Plist::uid(0));
    put_plain(&mut cfg, "baselineFileURL", Plist::uid(0));
    put_plain(&mut cfg, "defaultTestExecutionTimeAllowance", Plist::uid(0));
    put_plain(&mut cfg, "disablePerformanceMetrics", Plist::truth(false));
    put_plain(&mut cfg, "emitOSLogs", Plist::truth(false));
    put_plain(&mut cfg, "gatherLocalizableStringsData", Plist::truth(false));
    put_plain(&mut cfg, "initializeForUITesting", Plist::truth(!args.is_xctest));
    put_plain(&mut cfg, "maximumTestExecutionTimeAllowance", Plist::uid(0));
    put_plain(&mut cfg, "randomExecutionOrderingSeed", Plist::uid(0));
    put_plain(&mut cfg, "reportActivities", Plist::truth(true));
    put_plain(&mut cfg, "reportResultsToIDE", Plist::truth(true));
    put_plain(&mut cfg, "sessionIdentifier", Plist::uid(8));
    put_plain(&mut cfg, "systemAttachmentLifetime", Plist::number(2));
    put_plain(&mut cfg, "testApplicationUserOverrides", Plist::uid(0));
    put_plain(&mut cfg, "testBundleRelativePath", Plist::uid(0));
    put_plain(&mut cfg, "testBundleURL", Plist::uid(10));
    put_plain(&mut cfg, "testExecutionOrdering", Plist::number(0));
    put_plain(&mut cfg, "testTimeoutsEnabled", Plist::truth(false));
    put_plain(&mut cfg, "testsDrivenByIDE", Plist::truth(false));
    put_plain(&mut cfg, "testsMustRunOnMainThread", Plist::truth(true));
    put_plain(&mut cfg, "treatMissingBaselinesAsFailures", Plist::truth(false));
    put_plain(&mut cfg, "userAttachmentLifetime", Plist::number(1));
    put_plain(&mut cfg, "preferredScreenCaptureFormat", Plist::number(2));
    put_plain(&mut cfg, "IDECapabilities", Plist::uid(middle + 2));
    put_plain(&mut cfg, "productModuleName", Plist::uid(11));
    proof {
        reveal(first_fields);
        reveal(further_fields);
        reveal(last_fields);
    }
    cfg
}

fn put_plain(d: &mut Dict, key: &str, value: Plist)
    requires
        plain_entries(old(d)@),
        value@ is Uid || value@ is Boolean || value@ is Integer,
    ensures
        final(d)@ == old(d)@.with(key@, value@),
        plain_entries(final(d)@),
{
    proof {
        crate::proplist::lemma_plain_with(d@, key@, value@);
    }
    d.put(key, value);
}

/// Builds a test configuration and archives it.
pub fn build_xctest_configuration_bytes(args: XCTestConfigArgs<'_>) -> (out: Vec<u8>)
    ensures
        is_binary(out@, configuration_archive(args@)),
        plist_parse(out@) matches Ok(archive) && names_tests(
            archive,
            args.tests_to_run@,
            args.tests_to_skip@,
        ) && names_target(archive, args.target_bundle_id@, args.target_path@) && names_bundle(
            archive,
            args.session_id@,
            args.test_bundle_path@,
            args.product_module_name@,
        ) && has_settings(archive, !args.is_xctest) && has_capabilities(archive),
{
    proof {
        lemma_configuration_tells(args@);
    }
    let mut objects: Vec<Plist> = Vec::new();
    push_first(&mut objects, &args);
    push_set(&mut objects, args.tests_to_run);
    push_set(&mut objects, args.tests_to_skip);
    let run: u64 = if args.tests_to_run.len() > 0 { 1 } else { 0 };
    let skip: u64 = if args.tests_to_skip.len() > 0 { 1 } else { 0 };
    let bundle: u64 = if args.target_bundle_id.is_empty() { 0 } else { 1 };
    let path: u64 = if args.target_path.is_empty() { 0 } else { 1 };
    push_middle(&mut objects);
    push_text(&mut objects, args.target_bundle_id);
    push_text(&mut objects, args.target_path);
    assert(trees(objects@) =~= leading_objects(args@));
    let middle: u64 = 12 + run + skip;
    assert(run == optional_set(args.tests_to_run@).len());
    assert(skip == optional_set(args.tests_to_skip@).len());
    assert(bundle == optional_text(args.target_bundle_id@).len());
    assert(path == optional_text(args.target_path@).len());
    let mut cfg: Dict = fixed_dict(&args, middle);
    if run > 0 {
        put_plain(&mut cfg, "testsToRun", Plist::uid(12));
    }
    if skip > 0 {
        put_plain(&mut cfg, "testsToSkip", Plist::uid(12 + run));
    }
    if bundle > 0 {
        put_plain(&mut cfg, "targetApplicationBundleID", Plist::uid(middle + 3));
    }
    if path > 0 {
        put_plain(&mut cfg, "targetApplicationPath", Plist::uid(middle + 3 + bundle));
    }
    let root: u64 = 12 + run + skip + 3 + bundle + path;
    assert(root == leading_objects(args@).len());
    assert(Tree::Dictionary(cfg@) == configuration(args@));
    push_object(&mut objects, Plist::dict(cfg));
    archive_objects(objects, root)
}

/// Whether an object in an archive is a set of just some strings, in their order.
pub open spec fn is_set_of(archive: Tree, object: Option<Tree>, items: Seq<String>) -> bool {
    &&& object matches Some(set)
    &&& class_of(archive, set) == Some("NSSet"@)
    &&& set.at("NS.objects"@) matches Some(Tree::Array(members))
    &&& members.len() == items.len()
    &&& forall|i: int|
        0 <= i < items.len() ==> (#[trigger] members[i]) == Tree::String(items[i]@)
}

/// Whether an archived configuration names just these tests to run and those to skip. No
/// tests to run stands for all of them.
pub open spec fn names_tests(archive: Tree, run: Seq<String>, skip: Seq<String>) -> bool {
    &&& root_of(archive) matches Some(c)
    &&& if run.len() == 0 {
        c.at("testsToRun"@) is None
    } else {
        is_set_of(archive, held(archive, c, "testsToRun"@), run)
    }
    &&& if skip.len() == 0 {
        c.at("testsToSkip"@) is None
    } else {
        is_set_of(archive, held(archive, c, "testsToSkip"@), skip)
    }
}

/// Whether an archived configuration names a target application; an empty text stands for
/// none.
pub open spec fn names_target(archive: Tree, bundle_id: Seq<char>, path: Seq<char>) -> bool {
    &&& root_of(archive) matches Some(c)
    &&& if bundle_id.len() == 0 {
        c.at("targetApplicationBundleID"@) is None
    } else {
        held(archive, c, "targetApplicationBundleID"@) == Some(Tree::String(bundle_id))
    }
    &&& if path.len() == 0 {
        c.at("targetApplicationPath"@) is None
    } else {
        held(archive, c, "targetApplicationPath"@) == Some(Tree::String(path))
    }
}

/// Whether an archived configuration belongs to a session, and its bundle and module are
/// the given ones.
pub open spec fn names_bundle(
    archive: Tree,
    session_id: Seq<u8>,
    bundle_path: Seq<char>,
    module: Seq<char>,
) -> bool {
    &&& root_of(archive) matches Some(c)
    &&& class_of(archive, c) == Some("XCTestConfiguration"@)
    &&& held(archive, c, "sessionIdentifier"@) matches Some(session)
    &&& class_of(archive, session) == Some("NSUUID"@)
    &&& session.data_at("NS.uuidbytes"@) == Some(session_id)
    &&& held(archive, c, "testBundleURL"@) matches Some(url)
    &&& class_of(archive, url) == Some("NSURL"@)
    &&& held(archive, url, "NS.base"@) == Some(Tree::String("$null"@))
    &&& held(archive, url, "NS.relative"@) == Some(Tree::String("file://"@ + bundle_path))
    &&& held(archive, c, "productModuleName"@) == Some(Tree::String(module))
}

/// Whether an archived configuration has a flag for UI tests and, for the rest, the
/// settings that every run has.
pub open spec fn has_settings(archive: Tree, for_ui: bool) -> bool {
    let null = Some(Tree::String("$null"@));
    &&& root_of(archive) matches Some(c)
    &&& c.truth_at("initializeForUITesting"@) == Some(for_ui)
    &&& c.truth_at("disablePerformanceMetrics"@) == Some(false)
    &&& c.truth_at("emitOSLogs"@) == Some(false)
    &&& c.truth_at("gatherLocalizableStringsData"@) == Some(false)
    &&& c.truth_at("reportActivities"@) == Some(true)
    &&& c.truth_at("reportResultsToIDE"@) == Some(true)
    &&& c.truth_at("testTimeoutsEnabled"@) == Some(false)
    &&& c.truth_at("testsDrivenByIDE"@) == Some(false)
    &&& c.truth_at("testsMustRunOnMainThread"@) == Some(true)
    &&& c.truth_at("treatMissingBaselinesAsFailures"@) == Some(false)
    &&& c.unsigned_at("systemAttachmentLifetime"@) == Some(2u64)
    &&& c.unsigned_at("userAttachmentLifetime"@) == Some(1u64)
    &&& c.unsigned_at("preferredScreenCaptureFormat"@) == Some(2u64)
    &&& c.unsigned_at("testExecutionOrdering"@) == Some(0u64)
    &&& held(archive, c, "baselineFileRelativePath"@) == null
    &&& held(archive, c, "baselineFileURL"@) == null
    &&& held(archive, c, "defaultTestExecutionTimeAllowance"@) == null
    &&& held(archive, c, "maximumTestExecutionTimeAllowance"@) == null
    &&& held(archive, c, "randomExecutionOrderingSeed"@) == null
    &&& held(archive, c, "testApplicationUserOverrides"@) == null
    &&& held(archive, c, "testBundleRelativePath"@) == null
    &&& held(archive, c, "automationFrameworkPath"@) == Some(
        Tree::String(
            "/System/Developer/Library/PrivateFrameworks/XCTAutomationSupport.framework"@,
        ),
    )
}

/// Whether an archived configuration starts without statistics, and announces what the host
/// is able to.
pub open spec fn has_capabilities(archive: Tree) -> bool {
    &&& root_of(archive) matches Some(c)
    &&& held(archive, c, "aggregateStatisticsBeforeCrash"@) matches Some(statistics)
    &&& class_of(archive, statistics) == Some("NSDictionary"@)
    &&& statistics.at("XCSuiteRecordsKey"@) == Some(Tree::Dictionary(no_entries()))
    &&& held(archive, c, "IDECapabilities"@) matches Some(told)
    &&& class_of(archive, told) == Some("XCTCapabilities"@)
    &&& told.at("capabilities-dictionary"@) matches Some(able)
    &&& able.truth_at("XCTIssue capability"@) == Some(true)
    &&& able.truth_at("daemon container sandbox extension"@) == Some(true)
    &&& able.truth_at("delayed attachment transfer"@) == Some(true)
    &&& able.truth_at("expected failure test capability"@) == Some(true)
    &&& able.truth_at("request diagnostics for specific devices"@) == Some(true)
    &&& able.truth_at("skipped test capability"@) == Some(true)
    &&& able.truth_at("test case run configurations"@) == Some(true)
    &&& able.truth_at("test iterations"@) == Some(true)
    &&& able.truth_at("test timeout capability"@) == Some(true)
    &&& able.truth_at("ubiquitous test identifiers"@) == Some(true)
}

proof fn lemma_capabilities_told()
    ensures
        ({
            let able = Tree::Dictionary(host_capabilities());
            &&& able.truth_at("XCTIssue capability"@) == Some(true)
            &&& able.truth_at("daemon container sandbox extension"@) == Some(true)
            &&& able.truth_at("delayed attachment transfer"@) == Some(true)
            &&& able.truth_at("expected failure test capability"@) == Some(true)
            &&& able.truth_at("request diagnostics for specific devices"@) == Some(true)
            &&& able.truth_at("skipped test capability"@) == Some(true)
            &&& able.truth_at("test case run configurations"@) == Some(true)
            &&& able.truth_at("test iterations"@) == Some(true)
            &&& able.truth_at("test timeout capability"@) == Some(true)
            &&& able.truth_at("ubiquitous test identifiers"@) == Some(true)
        }),
{
    broadcast use crate::entries::lemma_lookup_with;

    reveal_strlit("XCTIssue capability");
    reveal_strlit("daemon container sandbox extension");
    reveal_strlit("delayed attachment transfer");
    reveal_strlit("expected failure test capability");
    reveal_strlit("request diagnostics for specific devices");
    reveal_strlit("skipped test capability");
    reveal_strlit("test case run configurations");
    reveal_strlit("test iterations");
    reveal_strlit("test timeout capability");
    reveal_strlit("ubiquitous test identifiers");
    assert("XCTIssue capability"@.len() == 19);
    assert("daemon container sandbox extension"@.len() == 34);
    assert("delayed attachment transfer"@.len() == 27);
    assert("expected failure test capability"@.len() == 32);
    assert("request diagnostics for specific devices"@.len() == 40);
    assert("skipped test capability"@.len() == 23);
    assert("test case run configurations"@.len() == 28);
    assert("test iterations"@.len() == 15);
    assert("test timeout capability"@.len() == 23);
    assert("ubiquitous test identifiers"@.len() == 27);
    assert("delayed attachment transfer"@[0] == 'd');
    assert("ubiquitous test identifiers"@[0] == 'u');
    assert("skipped test capability"@[0] == 's');
    assert("test timeout capability"@[0] == 't');
}

proof fn lemma_configuration_fields(args: ConfigModel)
    ensures
        ({
            let run = optional_set(args.tests_to_run).len();
            let skip = optional_set(args.tests_to_skip).len();
            let bundle = optional_text(args.target_bundle_id).len();
            let path = optional_text(args.target_path).len();
            let middle = 12 + run + skip;
            let c = configuration(args);
            let f0 = fixed_fields(args, middle as u64);
            &&& forall|key: Seq<char>|
                key != "testsToRun"@ && key != "testsToSkip"@ && key
                    != "targetApplicationBundleID"@ && key != "targetApplicationPath"@
                    ==> #[trigger] c.at(key) == f0.lookup(key)
            &&& c.at("testsToRun"@) == if run > 0 {
                Some(Tree::Uid(12))
            } else {
                f0.lookup("testsToRun"@)
            }
            &&& c.at("testsToSkip"@) == if skip > 0 {
                Some(Tree::Uid((12 + run) as u64))
            } else {
                f0.lookup("testsToSkip"@)
            }
            &&& c.at("targetApplicationBundleID"@) == if bundle > 0 {
                Some(Tree::Uid((middle + 3) as u64))
            } else {
                f0.lookup("targetApplicationBundleID"@)
            }
            &&& c.at("targetApplicationPath"@) == if path > 0 {
                Some(Tree::Uid((middle + 3 + bundle) as u64))
            } else {
                f0.lookup("targetApplicationPath"@)
            }
        }),
{
    broadcast use crate::entries::lemma_lookup_with;

    reveal_strlit("testsToRun");
    reveal_strlit("testsToSkip");
    reveal_strlit("targetApplicationBundleID");
    reveal_strlit("targetApplicationPath");
    assert("testsToRun"@.len() == 10);
    assert("testsToSkip"@.len() == 11);
    assert("targetApplicationBundleID"@.len() == 25);
    assert("targetApplicationPath"@.len() == 21);
}

proof fn lemma_configuration_objects(args: ConfigModel)
    ensures
        ({
            let run = optional_set(args.tests_to_run);
            let skip = optional_set(args.tests_to_skip);
            let bundle = optional_text(args.target_bundle_id);
            let path = optional_text(args.target_path);
            let middle = 12int + run.len() + skip.len();
            let leading = leading_objects(args);
            let objects = leading.push(configuration(args));
            &&& leading.len() == middle + 3 + bundle.len() + path.len()
            &&& forall|i: int| 0 <= i < 12 ==> (#[trigger] objects[i]) == first_objects(args)[i]
            &&& run.len() > 0 ==> objects[12] == run[0]
            &&& skip.len() > 0 ==> objects[12int + run.len()] == skip[0]
            &&& objects[middle] == middle_objects()[0]
            &&& objects[middle + 1] == middle_objects()[1]
            &&& objects[middle + 2] == middle_objects()[2]
            &&& bundle.len() > 0 ==> objects[middle + 3] == bundle[0]
            &&& path.len() > 0 ==> objects[middle + 3 + bundle.len()] == path[0]
            &&& objects[leading.len() as int] == configuration(args)
        }),
{
}

proof fn lemma_first_fields(fields: Seq<(Seq<char>, Tree)>, middle: u64)
    ensures
        ({
            let f = first_fields(fields, middle);
            &&& f.lookup("$class"@) == Some(Tree::Uid(1))
            &&& f.lookup("aggregateStatisticsBeforeCrash"@) == Some(Tree::Uid(middle))
            &&& f.lookup("automationFrameworkPath"@) == Some(Tree::Uid((middle + 1) as u64))
            &&& f.lookup("baselineFileRelativePath"@) == Some(Tree::Uid(0))
            &&& f.lookup("baselineFileURL"@) == Some(Tree::Uid(0))
            &&& f.lookup("defaultTestExecutionTimeAllowance"@) == Some(Tree::Uid(0))
            &&& f.lookup("disablePerformanceMetrics"@) == Some(Tree::Boolean(false))
            &&& f.lookup("emitOSLogs"@) == Some(Tree::Boolean(false))
            &&& f.lookup("gatherLocalizableStringsData"@) == Some(Tree::Boolean(false))
            &&& forall|key: Seq<char>|
                key != "$class"@
                    && key != "aggregateStatisticsBeforeCrash"@
                    && key != "automationFrameworkPath"@
                    && key != "baselineFileRelativePath"@
                    && key != "baselineFileURL"@
                    && key != "defaultTestExecutionTimeAllowance"@
                    && key != "disablePerformanceMetrics"@
                    && key != "emitOSLogs"@
                    && key != "gatherLocalizableStringsData"@
                    ==> #[trigger] f.lookup(key) == fields.lookup(key)
        }),
{
    broadcast use crate::entries::lemma_lookup_with;

    reveal(first_fields);
    reveal_strlit("$class");
    reveal_strlit("aggregateStatisticsBeforeCrash");
    reveal_strlit("automationFrameworkPath");
    reveal_strlit("baselineFileRelativePath");
    reveal_strlit("baselineFileURL");
    reveal_strlit("defaultTestExecutionTimeAllowance");
    reveal_strlit("disablePerformanceMetrics");
    reveal_strlit("emitOSLogs");
    reveal_strlit("gatherLocalizableStringsData");
    assert("$class"@.len() == 6);
    assert("aggregateStatisticsBeforeCrash"@.len() == 30);
    assert("automationFrameworkPath"@.len() == 23);
    assert("baselineFileRelativePath"@.len() == 24);
    assert("baselineFileURL"@.len() == 15);
    assert("defaultTestExecutionTimeAllowance"@.len() == 33);
    assert("disablePerformanceMetrics"@.len() == 25);
    assert("emitOSLogs"@.len() == 10);
    assert("gatherLocalizableStringsData"@.len() == 28);
}

proof fn lemma_further_fields(fields: Seq<(Seq<char>, Tree)>, args: ConfigModel)
    ensures
        ({
            let f = further_fields(fields, args);
            &&& f.lookup("initializeForUITesting"@) == Some(Tree::Boolean(!args.is_xctest))
            &&& f.lookup("maximumTestExecutionTimeAllowance"@) == Some(Tree::Uid(0))
            &&& f.lookup("randomExecutionOrderingSeed"@) == Some(Tree::Uid(0))
            &&& f.lookup("reportActivities"@) == Some(Tree::Boolean(true))
            &&& f.lookup("reportResultsToIDE"@) == Some(Tree::Boolean(true))
            &&& f.lookup("sessionIdentifier"@) == Some(Tree::Uid(8))
            &&& f.lookup("systemAttachmentLifetime"@) == Some(Tree::Integer(2))
            &&& f.lookup("testApplicationUserOverrides"@) == Some(Tree::Uid(0))
            &&& f.lookup("testBundleRelativePath"@) == Some(Tree::Uid(0))
            &&& f.lookup("testBundleURL"@) == Some(Tree::Uid(10))
            &&& forall|key: Seq<char>|
                key != "initializeForUITesting"@
                    && key != "maximumTestExecutionTimeAllowance"@
                    && key != "randomExecutionOrderingSeed"@
                    && key != "reportActivities"@
                    && key != "reportResultsToIDE"@
                    && key != "sessionIdentifier"@
                    && key != "systemAttachmentLifetime"@
                    && key != "testApplicationUserOverrides"@
                    && key != "testBundleRelativePath"@
                    && key != "testBundleURL"@
                    ==> #[trigger] f.lookup(key) == fields.lookup(key)
        }),
{
    broadcast use crate::entries::lemma_lookup_with;

    reveal(further_fields);
    reveal_strlit("initializeForUITesting");
    reveal_strlit("maximumTestExecutionTimeAllowance");
    reveal_strlit("randomExecutionOrderingSeed");
    reveal_strlit("reportActivities");
    reveal_strlit("reportResultsToIDE");
    reveal_strlit("sessionIdentifier");
    reveal_strlit("systemAttachmentLifetime");
    reveal_strlit("testApplicationUserOverrides");
    reveal_strlit("testBundleRelativePath");
    reveal_strlit("testBundleURL");
    assert("initializeForUITesting"@.len() == 22);
    assert("maximumTestExecutionTimeAllowance"@.len() == 33);
    assert("randomExecutionOrderingSeed"@.len() == 27);
    assert("reportActivities"@.len() == 16);
    assert("reportResultsToIDE"@.len() == 18);
    assert("sessionIdentifier"@.len() == 17);
    assert("systemAttachmentLifetime"@.len() == 24);
    assert("testApplicationUserOverrides"@.len() == 28);
    assert("testBundleRelativePath"@.len() == 22);
    assert("testBundleURL"@.len() == 13);
    assert("initializeForUITesting"@[0] == 'i');
    assert("testBundleRelativePath"@[0] == 't');
}

proof fn lemma_last_fields(fields: Seq<(Seq<char>, Tree)>, middle: u64)
    ensures
        ({
            let f = last_fields(fields, middle);
            &&& f.lookup("testExecutionOrdering"@) == Some(Tree::Integer(0))
            &&& f.lookup("testTimeoutsEnabled"@) == Some(Tree::Boolean(false))
            &&& f.lookup("testsDrivenByIDE"@) == Some(Tree::Boolean(false))
            &&& f.lookup("testsMustRunOnMainThread"@) == Some(Tree::Boolean(true))
            &&& f.lookup("treatMissingBaselinesAsFailures"@) == Some(Tree::Boolean(false))
            &&& f.lookup("userAttachmentLifetime"@) == Some(Tree::Integer(1))
            &&& f.lookup("preferredScreenCaptureFormat"@) == Some(Tree::Integer(2))
            &&& f.lookup("IDECapabilities"@) == Some(Tree::Uid((middle + 2) as u64))
            &&& f.lookup("productModuleName"@) == Some(Tree::Uid(11))
            &&& forall|key: Seq<char>|
                key != "testExecutionOrdering"@
                    && key != "testTimeoutsEnabled"@
                    && key != "testsDrivenByIDE"@
                    && key != "testsMustRunOnMainThread"@
                    && key != "treatMissingBaselinesAsFailures"@
                    && key != "userAttachmentLifetime"@
                    && key != "preferredScreenCaptureFormat"@
                    && key != "IDECapabilities"@
                    && key != "productModuleName"@
                    ==> #[trigger] f.lookup(key) == fields.lookup(key)
        }),
{
    broadcast use crate::entries::lemma_lookup_with;

    reveal(last_fields);
    reveal_strlit("testExecutionOrdering");
    reveal_strlit("testTimeoutsEnabled");
    reveal_strlit("testsDrivenByIDE");
    reveal_strlit("testsMustRunOnMainThread");
    reveal_strlit("treatMissingBaselinesAsFailures");
    reveal_strlit("userAttachmentLifetime");
    reveal_strlit("preferredScreenCaptureFormat");
    reveal_strlit("IDECapabilities");
    reveal_strlit("productModuleName");
    assert("testExecutionOrdering"@.len() == 21);
    assert("testTimeoutsEnabled"@.len() == 19);
    assert("testsDrivenByIDE"@.len() == 16);
    assert("testsMustRunOnMainThread"@.len() == 24);
    assert("treatMissingBaselinesAsFailures"@.len() == 31);
    assert("userAttachmentLifetime"@.len() == 22);
    assert("preferredScreenCaptureFormat"@.len() == 28);
    assert("IDECapabilities"@.len() == 15);
    assert("productModuleName"@.len() == 17);
}

proof fn lemma_fixed_fields(args: ConfigModel, middle: u64)
    ensures
        ({
            let f = fixed_fields(args, middle);
            &&& f.lookup("$class"@) == Some(Tree::Uid(1))
            &&& f.lookup("aggregateStatisticsBeforeCrash"@) == Some(Tree::Uid(middle))
            &&& f.lookup("automationFrameworkPath"@) == Some(Tree::Uid((middle + 1) as u64))
            &&& f.lookup("baselineFileRelativePath"@) == Some(Tree::Uid(0))
            &&& f.lookup("baselineFileURL"@) == Some(Tree::Uid(0))
            &&& f.lookup("defaultTestExecutionTimeAllowance"@) == Some(Tree::Uid(0))
            &&& f.lookup("disablePerformanceMetrics"@) == Some(Tree::Boolean(false))
            &&& f.lookup("emitOSLogs"@) == Some(Tree::Boolean(false))
            &&& f.lookup("gatherLocalizableStringsData"@) == Some(Tree::Boolean(false))
            &&& f.lookup("initializeForUITesting"@) == Some(Tree::Boolean(!args.is_xctest))
            &&& f.lookup("maximumTestExecutionTimeAllowance"@) == Some(Tree::Uid(0))
            &&& f.lookup("randomExecutionOrderingSeed"@) == Some(Tree::Uid(0))
            &&& f.lookup("reportActivities"@) == Some(Tree::Boolean(true))
            &&& f.lookup("reportResultsToIDE"@) == Some(Tree::Boolean(true))
            &&& f.lookup("sessionIdentifier"@) == Some(Tree::Uid(8))
            &&& f.lookup("systemAttachmentLifetime"@) == Some(Tree::Integer(2))
            &&& f.lookup("testApplicationUserOverrides"@) == Some(Tree::Uid(0))
            &&& f.lookup("testBundleRelativePath"@) == Some(Tree::Uid(0))
            &&& f.lookup("testBundleURL"@) == Some(Tree::Uid(10))
            &&& f.lookup("testExecutionOrdering"@) == Some(Tree::Integer(0))
            &&& f.lookup("testTimeoutsEnabled"@) == Some(Tree::Boolean(false))
            &&& f.lookup("testsDrivenByIDE"@) == Some(Tree::Boolean(false))
            &&& f.lookup("testsMustRunOnMainThread"@) == Some(Tree::Boolean(true))
            &&& f.lookup("treatMissingBaselinesAsFailures"@) == Some(Tree::Boolean(false))
            &&& f.lookup("userAttachmentLifetime"@) == Some(Tree::Integer(1))
            &&& f.lookup("preferredScreenCaptureFormat"@) == Some(Tree::Integer(2))
            &&& f.lookup("IDECapabilities"@) == Some(Tree::Uid((middle + 2) as u64))
            &&& f.lookup("productModuleName"@) == Some(Tree::Uid(11))
            &&& f.lookup("testsToRun"@) is None
            &&& f.lookup("testsToSkip"@) is None
            &&& f.lookup("targetApplicationBundleID"@) is None
            &&& f.lookup("targetApplicationPath"@) is None
        }),
{
    let one = first_fields(no_entries(), middle);
    let two = further_fields(one, args);
    lemma_first_fields(no_entries(), middle);
    lemma_further_fields(one, args);
    lemma_last_fields(two, middle);
    reveal_strlit("$class");
    reveal_strlit("aggregateStatisticsBeforeCrash");
    reveal_strlit("automationFrameworkPath");
    reveal_strlit("baselineFileRelativePath");
    reveal_strlit("baselineFileURL");
    reveal_strlit("defaultTestExecutionTimeAllowance");
    reveal_strlit("disablePerformanceMetrics");
    reveal_strlit("emitOSLogs");
    reveal_strlit("gatherLocalizableStringsData");
    reveal_strlit("initializeForUITesting");
    reveal_strlit("maximumTestExecutionTimeAllowance");
    reveal_strlit("randomExecutionOrderingSeed");
    reveal_strlit("reportActivities");
    reveal_strlit("reportResultsToIDE");
    reveal_strlit("sessionIdentifier");
    reveal_strlit("systemAttachmentLifetime");
    reveal_strlit("testApplicationUserOverrides");
    reveal_strlit("testBundleRelativePath");
    reveal_strlit("testBundleURL");
    reveal_strlit("testExecutionOrdering");
    reveal_strlit("testTimeoutsEnabled");
    reveal_strlit("testsDrivenByIDE");
    reveal_strlit("testsMustRunOnMainThread");
    reveal_strlit("treatMissingBaselinesAsFailures");
    reveal_strlit("userAttachmentLifetime");
    reveal_strlit("preferredScreenCaptureFormat");
    reveal_strlit("IDECapabilities");
    reveal_strlit("productModuleName");
    reveal_strlit("testsToRun");
    reveal_strlit("testsToSkip");
    reveal_strlit("targetApplicationBundleID");
    reveal_strlit("targetApplicationPath");
    assert("$class"@.len() == 6);
    assert("aggregateStatisticsBeforeCrash"@.len() == 30);
    assert("automationFrameworkPath"@.len() == 23);
    assert("baselineFileRelativePath"@.len() == 24);
    assert("baselineFileURL"@.len() == 15);
    assert("defaultTestExecutionTimeAllowance"@.len() == 33);
    assert("disablePerformanceMetrics"@.len() == 25);
    assert("emitOSLogs"@.len() == 10);
    assert("gatherLocalizableStringsData"@.len() == 28);
    assert("initializeForUITesting"@.len() == 22);
    assert("maximumTestExecutionTimeAllowance"@.len() == 33);
    assert("randomExecutionOrderingSeed"@.len() == 27);
    assert("reportActivities"@.len() == 16);
    assert("reportResultsToIDE"@.len() == 18);
    assert("sessionIdentifier"@.len() == 17);
    assert("systemAttachmentLifetime"@.len() == 24);
    assert("testApplicationUserOverrides"@.len() == 28);
    assert("testBundleRelativePath"@.len() == 22);
    assert("testBundleURL"@.len() == 13);
    assert("testExecutionOrdering"@.len() == 21);
    assert("testTimeoutsEnabled"@.len() == 19);
    assert("testsDrivenByIDE"@.len() == 16);
    assert("testsMustRunOnMainThread"@.len() == 24);
    assert("treatMissingBaselinesAsFailures"@.len() == 31);
    assert("userAttachmentLifetime"@.len() == 22);
    assert("preferredScreenCaptureFormat"@.len() == 28);
    assert("IDECapabilities"@.len() == 15);
    assert("productModuleName"@.len() == 17);
    assert("testsToRun"@.len() == 10);
    assert("testsToSkip"@.len() == 11);
    assert("targetApplicationBundleID"@.len() == 25);
    assert("targetApplicationPath"@.len() == 21);
    assert("baselineFileRelativePath"@[0] == 'b');
    assert("systemAttachmentLifetime"@[0] == 's');
    assert("testsMustRunOnMainThread"@[0] == 't');
    assert("baselineFileURL"@[0] == 'b');
    assert("IDECapabilities"@[0] == 'I');
    assert("defaultTestExecutionTimeAllowance"@[0] == 'd');
    assert("maximumTestExecutionTimeAllowance"@[0] == 'm');
    assert("disablePerformanceMetrics"@[0] == 'd');
    assert("targetApplicationBundleID"@[0] == 't');
    assert("emitOSLogs"@[0] == 'e');
    assert("testsToRun"@[0] == 't');
    assert("gatherLocalizableStringsData"@[0] == 'g');
    assert("testApplicationUserOverrides"@[0] == 't');
    assert("preferredScreenCaptureFormat"@[0] == 'p');
    assert("initializeForUITesting"@[0] == 'i');
    assert("testBundleRelativePath"@[0] == 't');
    assert("userAttachmentLifetime"@[0] == 'u');
    assert("reportActivities"@[0] == 'r');
    assert("testsDrivenByIDE"@[0] == 't');
    assert("sessionIdentifier"@[0] == 's');
    assert("productModuleName"@[0] == 'p');
    assert("testExecutionOrdering"@[1] == 'e');
    assert("targetApplicationPath"@[1] == 'a');
}

proof fn lemma_configuration_tests(args: ConfigModel)
    ensures
        names_tests(configuration_archive(args), args.tests_to_run, args.tests_to_skip),
{
    broadcast use crate::entries::lemma_lookup_with;

    let leading = leading_objects(args);
    let middle = 12 + optional_set(args.tests_to_run).len() + optional_set(args.tests_to_skip).len();
    lemma_configuration_fields(args);
    lemma_fixed_fields(args, middle as u64);
    lemma_configuration_objects(args);
    lemma_archive_resolves(leading.push(configuration(args)), leading.len() as u64);
    lemma_class_named("NSSet"@);
    reveal_strlit("NS.objects");
    reveal_strlit("$class");
    assert("NS.objects"@.len() == 10);
    assert("$class"@.len() == 6);
}

proof fn lemma_configuration_target(args: ConfigModel)
    ensures
        names_target(configuration_archive(args), args.target_bundle_id, args.target_path),
{
    broadcast use crate::entries::lemma_lookup_with;

    let leading = leading_objects(args);
    let middle = 12 + optional_set(args.tests_to_run).len() + optional_set(args.tests_to_skip).len();
    lemma_configuration_fields(args);
    lemma_fixed_fields(args, middle as u64);
    lemma_configuration_objects(args);
    lemma_archive_resolves(leading.push(configuration(args)), leading.len() as u64);
}

proof fn lemma_configuration_bundle(args: ConfigModel)
    ensures
        names_bundle(
            configuration_archive(args),
            args.session_id,
            args.test_bundle_path,
            args.product_module_name,
        ),
{
    broadcast use crate::entries::lemma_lookup_with;

    let leading = leading_objects(args);
    let middle = 12 + optional_set(args.tests_to_run).len() + optional_set(args.tests_to_skip).len();
    lemma_configuration_fields(args);
    lemma_fixed_fields(args, middle as u64);
    lemma_configuration_objects(args);
    lemma_archive_resolves(leading.push(configuration(args)), leading.len() as u64);
    lemma_class_named("XCTestConfiguration"@);
    lemma_class_named("NSUUID"@);
    lemma_class_named("NSURL"@);
    reveal_strlit("testsToRun");
    reveal_strlit("testsToSkip");
    reveal_strlit("targetApplicationBundleID");
    reveal_strlit("targetApplicationPath");
    reveal_strlit("$class");
    reveal_strlit("sessionIdentifier");
    reveal_strlit("testBundleURL");
    reveal_strlit("productModuleName");
    assert("testsToRun"@.len() == 10);
    assert("testsToSkip"@.len() == 11);
    assert("targetApplicationBundleID"@.len() == 25);
    assert("targetApplicationPath"@.len() == 21);
    assert("$class"@.len() == 6);
    assert("sessionIdentifier"@.len() == 17);
    assert("testBundleURL"@.len() == 13);
    assert("productModuleName"@.len() == 17);
    assert("sessionIdentifier"@[0] == 's');
    assert("productModuleName"@[0] == 'p');
    reveal_strlit("$class");
    reveal_strlit("NS.uuidbytes");
    reveal_strlit("NS.base");
    reveal_strlit("NS.relative");
    assert("$class"@.len() == 6);
    assert("NS.uuidbytes"@.len() == 12);
    assert("NS.base"@.len() == 7);
    assert("NS.relative"@.len() == 11);
}

proof fn lemma_configuration_settings(args: ConfigModel)
    ensures
        has_settings(configuration_archive(args), !args.is_xctest),
{
    broadcast use crate::entries::lemma_lookup_with;

    let leading = leading_objects(args);
    let middle = 12 + optional_set(args.tests_to_run).len() + optional_set(args.tests_to_skip).len();
    lemma_configuration_fields(args);
    lemma_fixed_fields(args, middle as u64);
    lemma_configuration_objects(args);
    lemma_archive_resolves(leading.push(configuration(args)), leading.len() as u64);
    reveal_strlit("testsToRun");
    reveal_strlit("testsToSkip");
    reveal_strlit("targetApplicationBundleID");
    reveal_strlit("targetApplicationPath");
    reveal_strlit("automationFrameworkPath");
    reveal_strlit("baselineFileRelativePath");
    reveal_strlit("baselineFileURL");
    reveal_strlit("defaultTestExecutionTimeAllowance");
    reveal_strlit("disablePerformanceMetrics");
    reveal_strlit("emitOSLogs");
    reveal_strlit("gatherLocalizableStringsData");
    reveal_strlit("initializeForUITesting");
    reveal_strlit("maximumTestExecutionTimeAllowance");
    reveal_strlit("randomExecutionOrderingSeed");
    reveal_strlit("reportActivities");
    reveal_strlit("reportResultsToIDE");
    reveal_strlit("systemAttachmentLifetime");
    reveal_strlit("testApplicationUserOverrides");
    reveal_strlit("testBundleRelativePath");
    reveal_strlit("testExecutionOrdering");
    reveal_strlit("testTimeoutsEnabled");
    reveal_strlit("testsDrivenByIDE");
    reveal_strlit("testsMustRunOnMainThread");
    reveal_strlit("treatMissingBaselinesAsFailures");
    reveal_strlit("userAttachmentLifetime");
    reveal_strlit("preferredScreenCaptureFormat");
    assert("testsToRun"@.len() == 10);
    assert("testsToSkip"@.len() == 11);
    assert("targetApplicationBundleID"@.len() == 25);
    assert("targetApplicationPath"@.len() == 21);
    assert("automationFrameworkPath"@.len() == 23);
    assert("baselineFileRelativePath"@.len() == 24);
    assert("baselineFileURL"@.len() == 15);
    assert("defaultTestExecutionTimeAllowance"@.len() == 33);
    assert("disablePerformanceMetrics"@.len() == 25);
    assert("emitOSLogs"@.len() == 10);
    assert("gatherLocalizableStringsData"@.len() == 28);
    assert("initializeForUITesting"@.len() == 22);
    assert("maximumTestExecutionTimeAllowance"@.len() == 33);
    assert("randomExecutionOrderingSeed"@.len() == 27);
    assert("reportActivities"@.len() == 16);
    assert("reportResultsToIDE"@.len() == 18);
    assert("systemAttachmentLifetime"@.len() == 24);
    assert("testApplicationUserOverrides"@.len() == 28);
    assert("testBundleRelativePath"@.len() == 22);
    assert("testExecutionOrdering"@.len() == 21);
    assert("testTimeoutsEnabled"@.len() == 19);
    assert("testsDrivenByIDE"@.len() == 16);
    assert("testsMustRunOnMainThread"@.len() == 24);
    assert("treatMissingBaselinesAsFailures"@.len() == 31);
    assert("userAttachmentLifetime"@.len() == 22);
    assert("preferredScreenCaptureFormat"@.len() == 28);
    assert("testsToRun"@[0] == 't');
    assert("emitOSLogs"@[0] == 'e');
    assert("targetApplicationBundleID"@[0] == 't');
    assert("disablePerformanceMetrics"@[0] == 'd');
    assert("targetApplicationPath"@[1] == 'a');
    assert("testExecutionOrdering"@[1] == 'e');
    assert("baselineFileRelativePath"@[0] == 'b');
    assert("systemAttachmentLifetime"@[0] == 's');
    assert("testsMustRunOnMainThread"@[0] == 't');
    assert("defaultTestExecutionTimeAllowance"@[0] == 'd');
    assert("maximumTestExecutionTimeAllowance"@[0] == 'm');
    assert("gatherLocalizableStringsData"@[0] == 'g');
    assert("testApplicationUserOverrides"@[0] == 't');
    assert("preferredScreenCaptureFormat"@[0] == 'p');
    assert("initializeForUITesting"@[0] == 'i');
    assert("testBundleRelativePath"@[0] == 't');
    assert("userAttachmentLifetime"@[0] == 'u');
    assert("reportActivities"@[0] == 'r');
    assert("testsDrivenByIDE"@[0] == 't');
}

proof fn lemma_configuration_capabilities(args: ConfigModel)
    ensures
        has_capabilities(configuration_archive(args)),
{
    broadcast use crate::entries::lemma_lookup_with;

    let leading = leading_objects(args);
    let middle = 12 + optional_set(args.tests_to_run).len() + optional_set(args.tests_to_skip).len();
    lemma_configuration_fields(args);
    lemma_fixed_fields(args, middle as u64);
    lemma_configuration_objects(args);
    lemma_archive_resolves(leading.push(configuration(args)), leading.len() as u64);
    lemma_class_named("NSDictionary"@);
    lemma_class_named("XCTCapabilities"@);
    reveal_strlit("testsToRun");
    reveal_strlit("testsToSkip");
    reveal_strlit("targetApplicationBundleID");
    reveal_strlit("targetApplicationPath");
    reveal_strlit("aggregateStatisticsBeforeCrash");
    reveal_strlit("IDECapabilities");
    assert("testsToRun"@.len() == 10);
    assert("testsToSkip"@.len() == 11);
    assert("targetApplicationBundleID"@.len() == 25);
    assert("targetApplicationPath"@.len() == 21);
    assert("aggregateStatisticsBeforeCrash"@.len() == 30);
    assert("IDECapabilities"@.len() == 15);
    reveal_strlit("$class");
    reveal_strlit("XCSuiteRecordsKey");
    reveal_strlit("capabilities-dictionary");
    assert("$class"@.len() == 6);
    assert("XCSuiteRecordsKey"@.len() == 17);
    assert("capabilities-dictionary"@.len() == 23);
    lemma_capabilities_told();
}

/// A configuration tells the runner just what it was asked to: which tests to run and to
/// skip, of which bundle and module, in which session, against which application, and
/// whether for UI tests.
pub proof fn lemma_configuration_tells(args: ConfigModel)
    ensures
        names_tests(configuration_archive(args), args.tests_to_run, args.tests_to_skip),
        names_target(configuration_archive(args), args.target_bundle_id, args.target_path),
        names_bundle(
            configuration_archive(args),
            args.session_id,
            args.test_bundle_path,
            args.product_module_name,
        ),
        has_settings(configuration_archive(args), !args.is_xctest),
        has_capabilities(configuration_archive(args)),
{
    lemma_configuration_tests(args);
    lemma_configuration_target(args);
    lemma_configuration_bundle(args);
    lemma_configuration_settings(args);
    lemma_configuration_capabilities(args);
}

} // verus!
