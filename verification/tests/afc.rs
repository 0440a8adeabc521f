//! The file service: helpers, replies, and the bytes of requests.

use ios_rs::lockdown::services::afc::{
    expect_status, file_info, file_system, house_arrest_len, house_arrest_reply,
    house_arrest_request, le_u64, listed, made_dir, nul_str, opened, parse_kv_pairs,
    parse_nul_strings, read_bytes, read_head, status_name, OP_DATA, OP_FILE_OPEN_RES, OP_STATUS,
};
use ios_rs::lockdown::services::copying::{
    Fetch, FetchAction, FetchEvent, Store, StoreAction, StoreEvent,
};
use ios_rs::lockdown::services::{AfcClient, AfcDeviceInfo, FileInfo, FileType};
use ios_rs::lockdown::Error;

#[test]
fn nul_str_appends_zero() {
    let out = nul_str("hello");
    assert_eq!(out, b"hello\0");
}

#[test]
fn nul_str_empty() {
    assert_eq!(nul_str(""), b"\0");
}

#[test]
fn le_u64_reads_correctly() {
    let buf = 0x0102030405060708u64.to_le_bytes();
    assert_eq!(le_u64(&buf, 0), 0x0102030405060708);
}

#[test]
fn le_u64_at_offset() {
    let mut buf = vec![0u8; 16];
    buf[8..16].copy_from_slice(&42u64.to_le_bytes());
    assert_eq!(le_u64(&buf, 8), 42);
}

#[test]
fn le_u64_short_buffer_returns_zero() {
    let buf = [1u8; 4];
    assert_eq!(le_u64(&buf, 0), 0); // needs 8 bytes
}

#[test]
fn le_u64_far_offset_returns_zero() {
    let buf = [1u8; 16];
    assert_eq!(le_u64(&buf, 9), 0);
    assert_eq!(le_u64(&buf, usize::MAX), 0);
}

#[test]
fn parse_nul_strings_basic() {
    let data = b"DCIM\0Books\0Podcasts\0";
    let out = parse_nul_strings(data);
    assert_eq!(out, vec!["DCIM", "Books", "Podcasts"]);
}

#[test]
fn parse_nul_strings_filters_empty() {
    // Double-NUL or trailing NUL must not produce empty strings
    let data = b"foo\0\0bar\0";
    let out = parse_nul_strings(data);
    assert_eq!(out, vec!["foo", "bar"]);
}

#[test]
fn parse_nul_strings_replaces_bad_utf8() {
    assert_eq!(parse_nul_strings(b"a\xffb\0c"), vec!["a\u{fffd}b", "c"]);
}

#[test]
fn parse_kv_pairs_basic() {
    let data = b"st_ifmt\0S_IFREG\0st_size\0123456\0";
    let map = parse_kv_pairs(data);
    assert_eq!(map.get("st_ifmt").map(String::as_str), Some("S_IFREG"));
    assert_eq!(map.get("st_size").map(String::as_str), Some("123456"));
}

#[test]
fn parse_kv_pairs_odd_count_ignored() {
    // Trailing key without value should be silently dropped
    let data = b"st_ifmt\0S_IFDIR\0orphan\0";
    let map = parse_kv_pairs(data);
    assert!(map.contains_key("st_ifmt"));
    assert!(!map.contains_key("orphan"));
}

#[test]
fn parse_kv_pairs_keeps_empty_values() {
    let map = parse_kv_pairs(b"a\0\0b\0c\0");
    assert_eq!(map.get("a").map(String::as_str), Some(""));
    assert_eq!(map.get("b").map(String::as_str), Some("c"));
    assert_eq!(map.pairs.len(), 2);
    assert_eq!(parse_kv_pairs(b"a\0b").get("a").map(String::as_str), Some("b"));
}

#[test]
fn parse_nul_strings_any_zeros() {
    for data in [&b"x\0yz\0"[..], b"x\0yz", b"\0\0x\0\0\0yz\0\0"] {
        assert_eq!(parse_nul_strings(data), vec!["x", "yz"]);
    }
    for text in parse_nul_strings(b"\xff\0\xc3\0\x80\x80\0\0") {
        assert!(!text.is_empty() && !text.contains('\0'));
    }
}

#[test]
fn file_info_of_directories_and_links() {
    let info = FileInfo::parse("DCIM", b"st_ifmt\0S_IFDIR\0st_size\064\0st_mtime\00\0");
    assert!(matches!(info.file_type, FileType::Directory));
    assert_eq!(info.size, 0);
    let info = FileInfo::parse("a", b"st_ifmt\0S_IFREG\0st_size\05\0LinkTarget\0/b\0");
    assert_eq!((info.size, info.link_target), (5, None));
    let info = FileInfo::parse("a", b"st_ifmt\0S_IFLNK\0LinkTarget\0\0");
    assert_eq!(info.link_target.as_deref(), Some(""));
}

#[test]
fn parse_kv_pairs_last_wins() {
    let map = parse_kv_pairs(b"k\0one\0k\0two\0");
    assert_eq!(map.get("k").map(String::as_str), Some("two"));
}

#[test]
fn file_info_parses_regular_file() {
    let data = b"st_ifmt\0S_IFREG\0st_size\099\0st_mtime\01700000000000000000\0";
    let info = FileInfo::parse("photo.jpg", data);
    assert_eq!(info.name, "photo.jpg");
    assert!(matches!(info.file_type, FileType::Regular));
    assert_eq!(info.size, 99);
    assert_eq!(info.modified_nanos, 1700000000000000000);
    assert!(info.link_target.is_none());
}

#[test]
fn file_info_parses_directory() {
    let data = b"st_ifmt\0S_IFDIR\0st_size\00\0st_mtime\00\0";
    let info = FileInfo::parse("DCIM", data);
    assert!(matches!(info.file_type, FileType::Directory));
    assert_eq!(info.size, 0);
}

#[test]
fn file_info_parses_symlink_with_target() {
    let data = b"st_ifmt\0S_IFLNK\0st_size\00\0st_mtime\00\0LinkTarget\0/private/var/mobile/Media\0";
    let info = FileInfo::parse("Media", data);
    assert!(matches!(info.file_type, FileType::Symlink));
    assert_eq!(info.link_target.as_deref(), Some("/private/var/mobile/Media"));
}

#[test]
fn file_info_unknown_type() {
    let data = b"st_ifmt\0S_IFBLK\0st_size\00\0st_mtime\00\0";
    let info = FileInfo::parse("dev", data);
    assert!(matches!(info.file_type, FileType::Other));
}

#[test]
fn file_info_bad_numbers_are_zero() {
    let info = FileInfo::parse("x", b"st_size\0-5\0st_mtime\018446744073709551616\0");
    assert_eq!(info.size, 0);
    assert_eq!(info.modified_nanos, 0);
}

#[test]
fn indicators() {
    assert_eq!(FileType::Regular.indicator(), '-');
    assert_eq!(FileType::Directory.indicator(), 'd');
    assert_eq!(FileType::Symlink.indicator(), 'l');
    assert_eq!(FileType::Other.indicator(), '?');
}

#[test]
fn device_info_parses_correctly() {
    let data = b"Model\0D421AP\0FSTotalBytes\016000000000\0FSFreeBytes\08000000000\0FSBlockSize\04096\0";
    let dev = AfcDeviceInfo::parse(data);
    assert_eq!(dev.model, "D421AP");
    assert_eq!(dev.total_bytes, 16_000_000_000);
    assert_eq!(dev.free_bytes, 8_000_000_000);
    assert_eq!(dev.block_size, 4_096);
}

#[test]
fn status_name_known_codes() {
    assert!(status_name(0).contains("success"));
    assert!(status_name(8).contains("not found"));
    assert!(status_name(16).contains("exists"));
}

#[test]
fn status_name_unknown_code() {
    let s = status_name(255);
    assert!(s.contains("255"));
    assert_eq!(s, "unknown (code 255)");
}

/// A request to make a directory, and the answer that it was made.
#[test]
fn request_header_format() {
    let magic = b"CFA6LPAA";
    let mut response = Vec::new();
    response.extend_from_slice(magic); // [0..8]   magic
    response.extend_from_slice(&48u64.to_le_bytes()); // [8..16]  entire_length = 40+8
    response.extend_from_slice(&48u64.to_le_bytes()); // [16..24] this_length
    response.extend_from_slice(&1u64.to_le_bytes()); // [24..32] packet_num
    response.extend_from_slice(&1u64.to_le_bytes()); // [32..40] op = STATUS
    response.extend_from_slice(&0u64.to_le_bytes()); // [40..48] status = SUCCESS

    let mut afc = AfcClient::new();
    let written = afc.mkdir("/");
    assert_eq!(&written[0..8], magic);
    assert_eq!(le_u64(&written, 8), 42);
    assert_eq!(le_u64(&written, 16), 42);
    assert_eq!(le_u64(&written, 24), 1);
    assert_eq!(le_u64(&written, 32), 9);
    assert_eq!(&written[40..], b"/\0");

    let head = read_head(&response[..40]).unwrap();
    assert_eq!(head.len, 8);
    made_dir("/", head.op, &response[40..]).expect("mkdir with mocked success response");
}

#[test]
fn requests_are_numbered() {
    let mut afc = AfcClient::new();
    let first = afc.file_write(7, b"abc");
    let second = afc.file_close(7);
    assert_eq!(le_u64(&first, 8), 51);
    assert_eq!(le_u64(&first, 16), 48);
    assert_eq!(le_u64(&first, 24), 1);
    assert_eq!(&first[48..], b"abc");
    assert_eq!(le_u64(&second, 24), 2);
    assert_eq!(afc.count(), 2);
    let head = read_head(&first[..40]).unwrap();
    assert_eq!(head.op, 0x10);
    assert_eq!(head.len, 11);
}

#[test]
fn wrong_magic_is_refused() {
    let err = read_head(&[0u8; 40]).unwrap_err();
    assert!(matches!(err, Error::Afc(t) if t == "bad AFC magic in response"));
}

#[test]
fn directory_listing_drops_dots() {
    let names = listed("/", OP_DATA, b".\0..\0DCIM\0.hidden\0").unwrap();
    assert_eq!(names, vec!["DCIM", ".hidden"]);
    let err = listed("/x", OP_STATUS, &8u64.to_le_bytes()).unwrap_err();
    assert!(matches!(err, Error::Afc(t) if t == "list_dir /x: not found (code 8)"));
    let err = listed("/x", 0x2a, &[]).unwrap_err();
    assert!(matches!(err, Error::Afc(t) if t == "list_dir: unexpected op 0x2a"));
}

#[test]
fn file_info_takes_the_leaf_name() {
    let info = file_info("/a/b/c.txt", OP_DATA, b"st_size\012\0").unwrap();
    assert_eq!(info.name, "c.txt");
    assert_eq!(info.size, 12);
}

#[test]
fn mkdir_accepts_existing_directories() {
    assert!(made_dir("/d", OP_STATUS, &16u64.to_le_bytes()).is_ok());
    assert!(made_dir("/d", OP_STATUS, &10u64.to_le_bytes()).is_err());
}

#[test]
fn replies_to_open_read_and_close() {
    assert_eq!(opened("/f", OP_FILE_OPEN_RES, &5u64.to_le_bytes()).unwrap(), 5);
    assert_eq!(read_bytes(OP_DATA, b"xyz").unwrap(), b"xyz");
    assert!(read_bytes(OP_STATUS, &14u64.to_le_bytes()).unwrap().is_empty());
    assert!(read_bytes(OP_STATUS, &4u64.to_le_bytes()).is_err());
    assert!(expect_status("file_close", OP_STATUS, &0u64.to_le_bytes()).is_ok());
    let err = expect_status("file_close", OP_STATUS, &5u64.to_le_bytes()).unwrap_err();
    assert!(matches!(err, Error::Afc(t) if t == "file_close: write error (code 5)"));
}

#[test]
fn containers_of_applications() {
    let req = house_arrest_request("VendContainer", "com.example").unwrap();
    assert_eq!(u32::from_be_bytes([req[0], req[1], req[2], req[3]]) as usize, req.len() - 4);
    let text = String::from_utf8(req[4..].to_vec()).unwrap();
    assert!(text.contains("<string>VendContainer</string>"));
    assert!(house_arrest_len("com.example", 0).is_err());
    assert!(house_arrest_len("com.example", 1_048_577).is_err());
    assert_eq!(house_arrest_len("com.example", 1_048_576).unwrap(), 1_048_576);
    let ok = b"<plist version=\"1.0\"><dict><key>Status</key><string>Complete</string></dict></plist>";
    assert_eq!(house_arrest_reply("com.example", ok).unwrap().count(), 0);
    let no = b"<plist version=\"1.0\"><dict><key>Error</key><string>ApplicationLookupFailed</string></dict></plist>";
    let err = house_arrest_reply("com.example", no).unwrap_err();
    assert!(matches!(err, Error::Afc(t) if t == "house_arrest(com.example): ApplicationLookupFailed"));
    assert!(matches!(house_arrest_reply("com.example", b"junk"), Err(Error::Plist(_))));
}

/// The operation and the arguments of a request without data.
fn request_parts(bytes: &[u8]) -> (u64, u64, Vec<u8>) {
    assert_eq!(&bytes[..8], b"CFA6LPAA");
    assert_eq!(le_u64(bytes, 8), bytes.len() as u64);
    assert_eq!(le_u64(bytes, 16), bytes.len() as u64);
    (le_u64(bytes, 24), le_u64(bytes, 32), bytes[40..].to_vec())
}

#[test]
fn path_requests_are_numbered_and_carry_their_paths() {
    let mut client = AfcClient::new();
    assert_eq!(request_parts(&client.get_file_info("/a")), (1, 0x0a, b"/a\0".to_vec()));
    assert_eq!(request_parts(&client.remove_path("/b")), (2, 0x08, b"/b\0".to_vec()));
    assert_eq!(request_parts(&client.rename("/c", "/d")), (3, 0x22, b"/c\0/d\0".to_vec()));
    assert_eq!(client.count(), 3);
}

#[test]
fn links_and_opens_carry_a_kind_before_the_path() {
    let mut client = AfcClient::new();
    let mut hard = 1u64.to_le_bytes().to_vec();
    hard.extend_from_slice(b"/t\0/l\0");
    assert_eq!(request_parts(&client.make_link(true, "/t", "/l")), (1, 0x28, hard));
    let mut soft = 2u64.to_le_bytes().to_vec();
    soft.extend_from_slice(b"/t\0/l\0");
    assert_eq!(request_parts(&client.make_link(false, "/t", "/l")), (2, 0x28, soft));
    let mut read = 1u64.to_le_bytes().to_vec();
    read.extend_from_slice(b"/f\0");
    assert_eq!(request_parts(&client.file_open_read("/f")), (3, 0x0d, read));
}

#[test]
fn file_system_reads_data_and_refuses_the_rest() {
    let data = b"Model\0iPhone\0FSTotalBytes\064\0FSFreeBytes\016\0FSBlockSize\04\0";
    let info = file_system(OP_DATA, data).unwrap();
    assert_eq!(info.model, "iPhone");
    assert_eq!((info.total_bytes, info.free_bytes, info.block_size), (64, 16, 4));
    let refused = file_system(OP_STATUS, &10u64.to_le_bytes());
    assert!(matches!(refused, Err(Error::Afc(t)) if t.starts_with("device_info: ")));
    let odd = file_system(0x55, &[]);
    assert!(matches!(odd, Err(Error::Afc(t)) if t == "device_info: unexpected op 0x55"));
}

#[test]
fn fetch_reads_saves_and_reports_until_nothing_comes() {
    let mut fetch = Fetch::new();
    assert!(matches!(fetch.next(FetchEvent::Begin), FetchAction::Open));
    assert!(matches!(fetch.next(FetchEvent::Opened(9)), FetchAction::Create));
    let read = fetch.next(FetchEvent::Succeeded);
    assert!(matches!(read, FetchAction::Read { handle: 9, size: 4_194_304 }));
    assert!(matches!(fetch.next(FetchEvent::Got(5)), FetchAction::Save));
    assert!(matches!(fetch.next(FetchEvent::Succeeded), FetchAction::Report(5)));
    assert!(matches!(fetch.next(FetchEvent::Succeeded), FetchAction::Read { handle: 9, .. }));
    assert!(matches!(fetch.next(FetchEvent::Got(2)), FetchAction::Save));
    assert!(matches!(fetch.next(FetchEvent::Succeeded), FetchAction::Report(7)));
    assert!(matches!(fetch.next(FetchEvent::Succeeded), FetchAction::Read { handle: 9, .. }));
    assert!(matches!(fetch.next(FetchEvent::Got(0)), FetchAction::Close(9)));
    assert!(matches!(fetch.next(FetchEvent::Succeeded), FetchAction::Finish(Ok(()))));
    assert_eq!(fetch.done, 7);
}

#[test]
fn fetch_closes_after_a_failed_read_but_not_after_a_failed_save() {
    let mut fetch = Fetch::new();
    fetch.next(FetchEvent::Begin);
    fetch.next(FetchEvent::Opened(3));
    fetch.next(FetchEvent::Succeeded);
    let failed = fetch.next(FetchEvent::Failed(Error::Afc("gone".into())));
    assert!(matches!(failed, FetchAction::Close(3)));
    let end = fetch.next(FetchEvent::Failed(Error::Closed));
    assert!(matches!(end, FetchAction::Finish(Err(Error::Afc(t))) if t == "gone"));

    let mut fetch = Fetch::new();
    fetch.next(FetchEvent::Begin);
    fetch.next(FetchEvent::Opened(3));
    fetch.next(FetchEvent::Succeeded);
    fetch.next(FetchEvent::Got(1));
    let full = fetch.next(FetchEvent::Failed(Error::Afc("disk full".into())));
    assert!(matches!(full, FetchAction::Finish(Err(Error::Afc(t))) if t == "disk full"));
}

#[test]
fn store_sends_what_it_reads_and_closes() {
    let mut store = Store::new();
    assert!(matches!(store.next(StoreEvent::Begin), StoreAction::Find));
    assert!(matches!(store.next(StoreEvent::Succeeded), StoreAction::Open));
    assert!(matches!(store.next(StoreEvent::Opened(4)), StoreAction::Read(262_144)));
    assert!(matches!(store.next(StoreEvent::Got(10)), StoreAction::Write(4)));
    assert!(matches!(store.next(StoreEvent::Succeeded), StoreAction::Read(262_144)));
    assert!(matches!(store.next(StoreEvent::Got(0)), StoreAction::Close(4)));
    assert!(matches!(store.next(StoreEvent::Succeeded), StoreAction::Finish(Ok(()))));
}

#[test]
fn store_closes_after_a_failed_write() {
    let mut store = Store::new();
    store.next(StoreEvent::Begin);
    store.next(StoreEvent::Succeeded);
    store.next(StoreEvent::Opened(4));
    store.next(StoreEvent::Got(10));
    let failed = store.next(StoreEvent::Failed(Error::Afc("no space left".into())));
    assert!(matches!(failed, StoreAction::Close(4)));
    let end = store.next(StoreEvent::Succeeded);
    assert!(matches!(end, StoreAction::Finish(Err(Error::Afc(t))) if t == "no space left"));
}
