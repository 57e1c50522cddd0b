use std::io::Read;

use rch::api::db::{
    db_ensure_tag, db_list_devices, db_load_all_ai_tasks, db_load_all_book_tags,
    db_load_all_records, db_load_all_settings, db_load_all_sources, db_load_all_tags,
    db_reorder_ai_tasks, db_upsert_ai_task, db_upsert_record, db_upsert_source, AiTaskDto,
    BookSourceDto, BookTagRow, DeviceRow, ReadRecordDto, SettingEntryRow, TagRow,
};
use rch::api::eh_subscription::{creators_read, import_creators};
use rch::api::export::{
    export_folder_to_cbz, is_image_name, pack_cbz, Descriptions, FolderEntry,
};
use rch::api::package::{
    rchpkg_default_sync_dir, rchpkg_export, rchpkg_export_with_credentials, rchpkg_import,
    rchpkg_import_with_credentials, source_bundle_decrypt, source_bundle_encrypt, ExportInfo,
    ImportInfo, SourceBundleDto,
};
use rch::api::sync::{
    sync_devices_list, sync_history_recent, sync_local_counts, sync_now, sync_remote_revision,
    sync_status, SyncCounts, SyncDeviceRow, SyncHistoryRow, SyncMeta, SyncOutcome,
};

// ------------------------------------------------------------------
// Export
// ------------------------------------------------------------------

fn page(name: &str) -> FolderEntry {
    FolderEntry {
        name: name.into(),
        is_dir: false,
    }
}

fn described(comic_info: bool, metadata: bool) -> Descriptions {
    Descriptions {
        comic_info,
        metadata,
    }
}

#[test]
fn descriptions_are_packed_where_their_paths_lead_somewhere() {
    let entries = vec![page("1.jpg"), page("comicinfo.xml"), page("metadata.json")];
    let names = |found| export_folder_to_cbz("/d", true, &entries, &found).unwrap();
    assert_eq!(names(described(true, false)), vec!["1.jpg", "ComicInfo.xml"]);
    assert_eq!(names(described(false, true)), vec!["1.jpg", "metadata.json"]);
    assert_eq!(
        names(described(true, true)),
        vec!["1.jpg", "ComicInfo.xml", "metadata.json"]
    );
    assert_eq!(names(described(false, false)), vec!["1.jpg"]);
}

#[test]
fn folder_export_orders_pages_naturally() {
    let entries = vec![
        page("page10.jpg"),
        page("page2.jpg"),
        page("page1.jpg"),
        page("ComicInfo.xml"),
    ];
    let names = export_folder_to_cbz("/tmp/x", true, &entries, &described(true, false)).unwrap();
    let bytes = |name: &str| -> Vec<u8> {
        match name {
            "page10.jpg" => b"ten".to_vec(),
            "page2.jpg" => b"two".to_vec(),
            "page1.jpg" => b"one".to_vec(),
            _ => b"<ComicInfo/>".to_vec(),
        }
    };
    let files: Vec<(String, Vec<u8>)> = names.iter().map(|n| (n.clone(), bytes(n))).collect();
    let packed = pack_cbz(&files).unwrap();

    let mut zip = zip::ZipArchive::new(std::io::Cursor::new(packed)).unwrap();
    let names: Vec<String> = (0..zip.len())
        .map(|i| zip.by_index(i).unwrap().name().to_string())
        .collect();
    assert_eq!(
        names,
        vec!["page1.jpg", "page2.jpg", "page10.jpg", "ComicInfo.xml"]
    );
    let mut first = String::new();
    zip.by_name("page1.jpg")
        .unwrap()
        .read_to_string(&mut first)
        .unwrap();
    assert_eq!(first, "one");
}

#[test]
fn folder_export_rejects_empty_dir() {
    assert_eq!(
        export_folder_to_cbz("/d", true, &Vec::new(), &described(true, true)).unwrap_err(),
        "目录下没有图片文件: /d"
    );
    assert_eq!(
        export_folder_to_cbz("/d", true, &vec![page("a.txt")], &described(false, false)).unwrap_err(),
        "目录下没有图片文件: /d"
    );
    assert_eq!(
        export_folder_to_cbz("/f", false, &Vec::new(), &described(false, false)).unwrap_err(),
        "不是目录: /f"
    );
}

#[test]
fn repeated_names_cannot_be_packed() {
    let files = vec![
        ("a.jpg".to_string(), vec![1u8]),
        ("a.jpg".to_string(), vec![2u8]),
    ];
    assert_eq!(
        pack_cbz(&files).unwrap_err(),
        "invalid Zip archive: Duplicate filename: a.jpg"
    );
}

#[test]
fn creators_are_a_list_of_texts() {
    assert_eq!(
        import_creators("[\"Artist\", \"作者\\n\"]").unwrap(),
        vec!["Artist", "作者\n"]
    );
    assert_eq!(import_creators(" [] ").unwrap(), Vec::<String>::new());
    let refused = import_creators("{}").unwrap_err();
    assert!(refused.starts_with("creators 解析失败："));
    assert!(refused.len() > "creators 解析失败：".len());
    assert!(import_creators("[1]").is_err());
    assert_eq!(creators_read(Err("x".into())).unwrap_err(), "creators 解析失败：x");
    assert_eq!(creators_read(Ok(vec!["a".into()])).unwrap(), vec!["a"]);
}

#[test]
fn empty_files_and_names_outside_ascii_are_packed() {
    let files = vec![("漫画.jpg".to_string(), Vec::new())];
    let packed = pack_cbz(&files).unwrap();
    let mut zip = zip::ZipArchive::new(std::io::Cursor::new(packed)).unwrap();
    assert_eq!(zip.len(), 1);
    let found = zip.by_index(0).unwrap();
    assert_eq!((found.name(), found.size()), ("漫画.jpg", 0));
}

#[test]
fn images_are_known_by_their_names() {
    for name in ["a.JPG", "b.avif", "c.webp", "漫画.Png"] {
        assert!(is_image_name(name), "{name}");
    }
    for name in [".a.jpg", "x.txt", "jpg.", "__MACOSX.jpg", "x.DS_Store"] {
        assert!(!is_image_name(name), "{name}");
    }
}

// ------------------------------------------------------------------
// Synchronisation
// ------------------------------------------------------------------

#[test]
fn outcomes_are_shown_by_entity() {
    let outcome = SyncOutcome {
        initialized: true,
        revision: 9,
        changed_entities: vec![("tags".into(), 2), ("books".into(), 5)],
        counts: SyncCounts {
            local: 1,
            remote: 2,
            merged: 3,
            deleted: 4,
        },
        plan_json: None,
    };
    let shown = sync_now(&outcome);
    assert_eq!(shown.changed_entities[0].entity, "books");
    assert_eq!(shown.changed_entities[0].count, 5);
    assert_eq!((shown.pull_count, shown.push_count), (2, 8));
    assert_eq!((shown.merge_count, shown.deleted_count), (3, 4));
    assert_eq!(shown.plan_json, "[]");
    assert_eq!((sync_remote_revision(None), sync_remote_revision(Some(4))), (0, 4));
}

#[test]
fn statuses_read_stored_numbers() {
    let status = sync_status(&SyncMeta {
        last_revision: Some("12".into()),
        last_sync_at: Some("x".into()),
        last_error: None,
        library_id: Some("lib".into()),
    });
    assert_eq!((status.initialized, status.revision), (true, 12));
    assert_eq!((status.last_sync_at, status.last_error.as_str()), (0, ""));
    assert_eq!(status.library_id, "lib");
    let counts = sync_local_counts(&vec![("tags".to_string(), 3)]);
    assert_eq!(counts, vec![("tags".to_string(), 3)]);
    let history = sync_history_recent(&vec![SyncHistoryRow {
        id: 1,
        start_time: 2,
        end_time: 3,
        revision_before: 4,
        revision_after: 5,
        pull_count: 6,
        push_count: 7,
        merge_count: 8,
        conflict_count: 9,
        error: "e".into(),
        summary: "s".into(),
    }]);
    assert_eq!((history[0].revision_after, history[0].conflict_count), (5, 9));
    let devices = sync_devices_list(&vec![SyncDeviceRow {
        device_id: "d".into(),
        device_name: "n".into(),
        platform: "p".into(),
        last_seen_at: 1,
        last_revision: 2,
    }]);
    assert_eq!((devices[0].platform.as_str(), devices[0].last_revision), ("p", 2));
}

// ------------------------------------------------------------------
// Packages
// ------------------------------------------------------------------

#[test]
fn packages_are_counted() {
    let info = ExportInfo {
        device_id: "d".into(),
        created_at: 1,
        since: 2,
        tags: 3,
        book_tags: 4,
        metas: 5,
        records: 6,
        sources: 7,
        settings: 8,
        tombstones: 9,
    };
    assert_eq!(rchpkg_export(&info).tombstones, 9);
    assert_eq!(rchpkg_export_with_credentials(&info).book_tags, 4);
    let info = ImportInfo {
        schema_version: 1,
        tags: 2,
        book_tags: 3,
        metas: 4,
        records: 5,
        sources: 6,
        settings: 7,
        tombstones: 8,
        ghosts: 9,
        skipped: 10,
    };
    assert_eq!(rchpkg_import(&info).ghosts, 9);
    assert_eq!(rchpkg_import_with_credentials(&info).skipped, 10);
    assert_eq!(
        rchpkg_default_sync_dir("/home".into()),
        vec!["/home", "RCH", "sync"]
    );
}

#[test]
fn credentials_come_back_as_they_went_in() {
    let bundle = SourceBundleDto {
        id: "i".into(),
        source_type: "quark".into(),
        name: "n".into(),
        path: "/p".into(),
        root_id: None,
        password: None,
        refresh_token: Some("r".into()),
        client_secret: None,
        cookie: Some("c".into()),
    };
    let back = source_bundle_decrypt(&source_bundle_encrypt(&vec![bundle]));
    assert_eq!(back.len(), 1);
    assert_eq!((back[0].id.as_str(), back[0].name.as_str()), ("i", "n"));
    assert_eq!((back[0].path.as_str(), back[0].source_type.as_str()), ("/p", "quark"));
    assert_eq!(back[0].refresh_token.as_deref(), Some("r"));
    assert_eq!(back[0].cookie.as_deref(), Some("c"));
    assert_eq!(back[0].password, None);
}

// ------------------------------------------------------------------
// Rows
// ------------------------------------------------------------------

#[test]
fn rows_are_read_as_they_were_stored() {
    let stored = db_upsert_source(BookSourceDto {
        id: "s".into(),
        source_type: "webdav".into(),
        name: "n".into(),
        path: "/".into(),
        url: Some("u".into()),
        username: None,
        password: None,
        port: Some(1),
        refresh_token: None,
        client_id: None,
        client_secret: None,
        root_id: None,
        cookie: None,
        note: "note".into(),
        capability_label: "webdav".into(),
        remote_only: true,
        origin_device_id: None,
    });
    let shown = db_load_all_sources(&vec![stored]);
    assert_eq!((shown[0].note.as_str(), shown[0].port), ("note", Some(1)));
    assert!(shown[0].remote_only);
    let record = db_upsert_record(ReadRecordDto {
        key: "k".into(),
        source_id: "s".into(),
        source_type: "t".into(),
        path: "p".into(),
        title: "T".into(),
        last_page: 3,
        read_count: 4,
        last_read_at: 5,
    });
    let shown = db_load_all_records(&vec![record]);
    assert_eq!((shown[0].last_page, shown[0].read_count), (3, 4));
    let task = db_upsert_ai_task(AiTaskDto {
        id: "a".into(),
        book_key: "b".into(),
        source_type: "t".into(),
        source_id: "s".into(),
        path: "p".into(),
        title: "T".into(),
        scale: 2,
        total: 3,
        done: 1,
        status: "running".into(),
        sort_order: 4,
        created_at: 5,
        updated_at: 6,
    });
    let shown = db_load_all_ai_tasks(&vec![task]);
    assert_eq!((shown[0].scale, shown[0].sort_order), (2, 4));
    let tag = || TagRow {
        id: "t".into(),
        name: "N".into(),
        created_at: 1,
    };
    assert_eq!(db_load_all_tags(&vec![tag()])[0].name, "N");
    let there = db_ensure_tag(&vec![tag()], "N", "new".into(), 9);
    assert_eq!((there.tag.id.as_str(), there.tag.created_at), ("t", 1));
    assert!(there.insert.is_none());
    let made = db_ensure_tag(&vec![tag()], "M", "new".into(), 9);
    assert_eq!(made.tag.name, "M");
    let mut rows = vec![tag()];
    rows.push(made.insert.unwrap());
    let again = db_ensure_tag(&rows, "M", "other".into(), 10);
    assert_eq!((again.tag.id.as_str(), again.tag.created_at), ("new", 9));
    assert!(again.insert.is_none());
    let link = BookTagRow {
        book_key: "b".into(),
        tag_id: "t".into(),
    };
    assert_eq!(db_load_all_book_tags(&vec![link])[0].tag_id, "t");
    let setting = SettingEntryRow {
        key: "k".into(),
        value: "v".into(),
    };
    assert_eq!(db_load_all_settings(&vec![setting])[0].value, "v");
    let device = DeviceRow {
        id: "d".into(),
        name: "n".into(),
    };
    assert_eq!(db_list_devices(&vec![device])[0].name, "n");
    assert_eq!(
        db_reorder_ai_tasks(&vec!["x".into(), "y".into()]),
        vec![("x".to_string(), 1), ("y".to_string(), 2)]
    );
}
