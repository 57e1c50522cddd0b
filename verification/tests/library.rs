use rch::api::library::{
    book_key_of, build_book_query, cloud_has_credentials, db_search_books, db_source_books,
    db_source_dir_entries, db_source_tree, device_name, library_path_of,
    normalized_library_path_sql, run_book_query, source_status, BookRow, Credentials, DeviceEntry,
    LibEntryDto, LibIndexRow, SourceRow, SqlParam,
};
use rch::number::{dec_i64, hex_u64, parse_i64, parse_unsigned};
use rch::order::{natural_key_of, sort_texts, stable_order};
use rch::text::{ascii_lower, contains, join, rsplit_once, split, tail_after, trim, CharClass};

fn no_credentials() -> Credentials {
    Credentials {
        username: None,
        password: None,
        refresh_token: None,
        cookie: None,
    }
}

fn devices() -> Vec<DeviceEntry> {
    vec![
        DeviceEntry {
            device_id: "other".into(),
            device_name: "Tablet".into(),
        },
        DeviceEntry {
            device_id: "me".into(),
            device_name: "Desk".into(),
        },
    ]
}

fn source(id: &str, source_type: &str, remote_only: i64, origin: Option<&str>) -> SourceRow {
    SourceRow {
        id: id.into(),
        source_type: source_type.into(),
        name: id.into(),
        path: "/p".into(),
        credentials: no_credentials(),
        fingerprint: "f".into(),
        remote_only,
        origin_device_id: origin.map(str::to_owned),
        path_exists: source_type == "local",
    }
}

#[test]
fn sources_are_shown_under_their_devices() {
    let rows = vec![
        source("far", "webdav", 1, Some("other")),
        source("near", "local", 0, None),
        source("cloud", "quark", 0, None),
    ];
    let counts = vec![("far".to_string(), 12)];
    let tree = db_source_tree("me", &devices(), &counts, &rows);
    assert_eq!(tree.len(), 2);
    assert_eq!((tree[0].device_id.as_str(), tree[0].device_name.as_str()), ("me", "Desk"));
    assert_eq!(tree[0].sources.len(), 2);
    assert_eq!(tree[0].sources[0].status, "read");
    assert_eq!(tree[0].sources[1].status, "index_only");
    assert_eq!(tree[1].device_name, "Tablet");
    let far = &tree[1].sources[0];
    assert!(far.is_remote && !far.has_local_source);
    assert_eq!((far.offline_index_count, far.can_browse_offline), (12, true));
}

#[test]
fn statuses_follow_what_is_at_hand() {
    assert_eq!(source_status("local", true, true, false), "read");
    assert_eq!(source_status("smb", true, false, false), "needs_network");
    assert_eq!(source_status("quark", true, true, true), "needs_network");
    assert_eq!(source_status("quark", true, true, false), "index_only");
    assert_eq!(source_status("quark", false, false, true), "index_only");
    let mut c = no_credentials();
    assert!(!cloud_has_credentials("webdav", &c));
    c.username = Some("u".into());
    c.password = Some("p".into());
    assert!(cloud_has_credentials("webdav", &c));
    assert!(!cloud_has_credentials("baidu", &c));
    c.cookie = Some("".into());
    assert!(!cloud_has_credentials("115", &c));
    assert!(!cloud_has_credentials("local", &c));
    assert_eq!(device_name(&Vec::new(), "me", "me"), "本机");
    assert_eq!(device_name(&Vec::new(), "x", "me"), "其他设备");
}

#[test]
fn books_have_the_same_key_in_every_archive_format() {
    for ending in [".cbz", ".ZIP", ".cbr", ".rar", ".cb7", ".7z", ".cbt", ".tar"] {
        let path = format!("/a/Book{ending}");
        assert_eq!(book_key_of("webdav", "s", &path), "webdav|s|/a/Book");
    }
    assert_eq!(library_path_of("/b.azw3"), "/b.mobi");
    assert_eq!(library_path_of("/b.azw"), "/b.mobi");
    assert_eq!(library_path_of("/b.pdf"), "/b.pdf");
    let sql = normalized_library_path_sql("p");
    assert!(sql.starts_with("CASE WHEN "));
    assert!(sql.ends_with(" ELSE p END"));
}

fn param(p: &SqlParam) -> String {
    match p {
        SqlParam::Text(text) => text.clone(),
        SqlParam::Number(number) => number.to_string(),
    }
}

#[test]
fn queries_number_their_parameters() {
    let tags = vec!["t1".to_string(), "t2".to_string()];
    let query = build_book_query(Some("s"), "me", " title ", &tags, false, 20, 40);
    let params: Vec<String> = query.params.iter().map(param).collect();
    assert_eq!(params, vec!["s", "%title%", "me", "t1", "t2", "20", "40"]);
    assert!(query.sql.contains(" AND s.id = ?1"));
    assert!(query.sql.contains("li.name LIKE ?2"));
    assert!(query.sql.contains("COALESCE(s.origin_device_id, ?3)"));
    assert!(query.sql.contains("t.name IN (?4,?5)") || query.sql.contains("t.name IN (?4, ?5)"));
    assert!(query.sql.contains(" AND s.remote_only = 0"));
    assert!(query.sql.ends_with(" LIMIT ?6 OFFSET ?7"));
    let plain = db_search_books("me", "  ", &Vec::new(), true, 1, 2);
    let params: Vec<String> = plain.params.iter().map(param).collect();
    assert_eq!(params, vec!["1", "2"]);
    assert!(!plain.sql.contains("LIKE ?"));
    let of_source = db_source_books("s", "me", "", &Vec::new(), 1, 2);
    assert_eq!(of_source.params.len(), 3);
}

#[test]
fn found_books_are_shown_with_their_device() {
    let row = BookRow {
        book_id: "b".into(),
        source_id: "s".into(),
        source_name: "S".into(),
        source_type: "local".into(),
        path: "/b.cbz".into(),
        title: "B".into(),
        remote_only: 0,
        origin_device_id: Some("other".into()),
        last_read_at: 5,
        credentials: no_credentials(),
        tags: None,
        path_exists: true,
    };
    let shown = run_book_query(&vec![row], "me", &devices());
    assert_eq!(shown[0].status, "read");
    assert_eq!((shown[0].tags.as_str(), shown[0].last_read_at), ("", 5));
    assert!(!shown[0].is_remote);
    assert_eq!(shown[0].device_id, "me");
}

fn entry(name: &str, entry_type: &str, parent: Option<&str>, deleted: bool) -> LibIndexRow {
    LibIndexRow {
        parent_id: parent.map(str::to_owned),
        deleted,
        entry: LibEntryDto {
            id: name.into(),
            name: name.into(),
            path: format!("/{name}"),
            entry_type: entry_type.into(),
            size: None,
            modified_at: None,
            cover_path: None,
            hash: None,
        },
    }
}

#[test]
fn directories_come_before_files() {
    let rows = vec![
        entry("b", "file", Some("root"), false),
        entry("z", "dir", Some("root"), false),
        entry("a", "file", Some("root"), false),
        entry("gone", "dir", Some("root"), true),
        entry("deep", "file", Some("z"), false),
    ];
    let names = |parent: Option<String>| -> Vec<String> {
        let found = db_source_dir_entries(&rows, &parent);
        found.iter().map(|e| e.name.clone()).collect()
    };
    assert_eq!(names(Some("root".into())), vec!["z", "a", "b"]);
    assert!(names(None).is_empty());
    assert_eq!(names(Some("z".into())), vec!["deep"]);
}

// ------------------------------------------------------------------
// Texts, numbers, orders
// ------------------------------------------------------------------

#[test]
fn numbers_are_written_and_read() {
    for n in [0, -1, 42, i64::MIN, i64::MAX] {
        assert_eq!(dec_i64(n), n.to_string());
        assert_eq!(parse_i64(&n.to_string()), Some(n));
    }
    assert_eq!(parse_i64("9223372036854775808"), None);
    assert_eq!(parse_i64("1x"), None);
    assert_eq!(parse_unsigned("256", 255), None);
    assert_eq!(parse_unsigned("255", 255), Some(255));
    assert_eq!(hex_u64(0xdead_beef), "deadbeef");
}

#[test]
fn texts_are_cut_and_joined() {
    assert_eq!(split("a//b", '/'), vec!["a", "", "b"]);
    assert_eq!(join(&split("a//b", '/'), "/"), "a//b");
    assert_eq!(tail_after("a.b.c", '.'), "c");
    assert_eq!(
        rsplit_once("h:1:2", ':'),
        Some(("h:1".to_string(), "2".to_string()))
    );
    assert_eq!(trim(" \u{3000}x\n", CharClass::White), "x");
    assert_eq!(ascii_lower("AÄ漫"), "aÄ漫");
    assert!(contains("abc", "bc") && !contains("abc", "cb"));
}

#[test]
fn names_are_ordered() {
    let names = vec!["b".to_string(), "a".to_string(), "B".to_string()];
    assert_eq!(sort_texts(&names), vec!["B", "a", "b"]);
    let natural = |names: &[&str]| -> Vec<usize> {
        stable_order(&names.iter().map(|n| natural_key_of(n)).collect())
    };
    assert_eq!(natural(&["p10", "p2", "P1"]), vec![2, 1, 0]);
    assert_eq!(natural(&["x", "X", "x"]), vec![0, 1, 2]);
}
