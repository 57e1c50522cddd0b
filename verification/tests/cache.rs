use rch::api::cache::{
    cache_root_path, cache_sizes, default_cache_root_path, origin_of, origin_of_parts,
    page_cache_size, path_is_within, purge_remote_book_content_cache, purge_stale_book_cache,
    purge_verified_remote_asset, set_cache_root_path, sftp_endpoint, total_cache_size,
    webdav_origin, CoverDependency, IndexPath, SourceIdentity, Tombstone,
};
use rch::api::library::book_key_of;
use rch::cache::{
    clear_all_caches, clear_cover_cache, clear_legacy_artifacts, clear_mobi_table_cache,
    cover_cache_key, cover_cache_read, cover_part_name, decode_cover, delete_cover_cache_for_path,
    delete_page_cache_for_ns, delete_raw_cache_for_key, encode_cover, encode_remote_cover,
    ensure_all_cache_dirs, legacy_name, raw_packages, remote_cover_cache_filename,
    remote_cover_cache_present, remote_cover_cache_read, remote_cover_cache_relative_path, remote_cover_length_fits, AtomicCacheFile, CacheDir,
    CacheRoots, CacheSnapshot, PublishStep, RawEviction, RAW_CACHE_LIMIT_BYTES,
    REMOTE_COVER_MAX_BYTES,
};
use rch::digest::{hash_text, sha256_hex, sha256_text, short_hash, stable_hash};
use rch::migration::{
    check_migration, delete_migrated_items, marked_roots, migrate_cache_root, migration_marker,
    pending_migration, Migration, MigrationAction, MigrationEvent, MIGRATION_MARKER,
};
use rch::tree::{dir_size, file_count, newest_mtime, Node, PathParts};
use std::hash::{Hash, Hasher};

fn file(name: &str, len: u64, modified: u64) -> (String, Node) {
    (name.to_string(), Node::File { len, modified })
}

fn dir(name: &str, entries: Vec<(String, Node)>) -> (String, Node) {
    (
        name.to_string(),
        Node::Dir {
            modified: 1,
            entries,
        },
    )
}

fn empty_snapshot() -> CacheSnapshot {
    CacheSnapshot {
        page: None,
        raw: None,
        cover: None,
        ai: None,
        temp: None,
        mobi_table: None,
        download: None,
        cache: None,
    }
}

fn parts(anchor: &str, names: &[&str]) -> PathParts {
    PathParts {
        anchor: anchor.to_string(),
        names: names.iter().map(|n| n.to_string()).collect(),
    }
}

// ------------------------------------------------------------------
// Roots and directories
// ------------------------------------------------------------------

#[test]
fn cache_root_defaults_to_appdata() {
    let roots = CacheRoots::new();
    let root = roots.cache_root(Some("C:\\AppData".into()), "C:\\Temp".into());
    assert_eq!(root, vec!["C:\\AppData", "RCH"]);
    assert_eq!(
        roots.cache_root(None, "C:\\Temp".into()),
        vec!["C:\\Temp", "RCH"]
    );
    assert_eq!(
        default_cache_root_path(Some("a".into()), "t".into()),
        vec!["a", "RCH"]
    );
}

#[test]
fn custom_cache_root_works() {
    let mut roots = CacheRoots::new();
    roots.set_custom_cache_root("C:\\TestRCH");
    assert_eq!(
        roots.cache_root(Some("a".into()), "t".into()),
        vec!["C:\\TestRCH"]
    );
    set_cache_root_path(&mut roots, "");
    let root = cache_root_path(&roots, Some("a".into()), "t".into());
    assert!(root.contains(&"RCH".to_string()));
}

#[test]
fn cache_dir_paths_are_distinct() {
    let page = CacheDir::Page.path();
    let raw = CacheDir::Raw.path();
    let cover = CacheDir::Cover.path();
    assert_ne!(page, raw);
    assert_ne!(page, cover);
    assert_ne!(raw, cover);
    assert_eq!(page, (false, vec!["cache".to_string(), "page".to_string()]));
    assert_eq!(
        CacheDir::Temp.path(),
        (true, vec!["RCH".to_string(), "temp".to_string()])
    );
    assert_eq!(
        ensure_all_cache_dirs(),
        vec![
            CacheDir::Page,
            CacheDir::Raw,
            CacheDir::Cover,
            CacheDir::Ai,
            CacheDir::Temp,
            CacheDir::MobiTable,
        ]
    );
}

#[test]
fn dir_size_of_empty_dir_returns_zero() {
    assert_eq!(dir_size(&dir("empty", Vec::new()).1), 0);
}

#[test]
fn trees_are_measured_with_all_they_hold() {
    let tree = dir(
        "root",
        vec![
            file("a", 3, 50),
            dir("sub", vec![file("b", 4, 70), file("c", 0, 9)]),
            ("link".to_string(), Node::Other { len: 5, modified: 99 }),
        ],
    )
    .1;
    assert_eq!((dir_size(&tree), file_count(&tree)), (7, 3));
    assert!(newest_mtime(&tree) >= 70);
}

#[test]
fn a_package_is_as_old_as_its_newest_file() {
    let touched = |modified, entries| Node::Dir { modified, entries };
    let inner = ("sub".to_string(), touched(900, vec![file("b", 4, 70)]));
    assert_eq!(newest_mtime(&touched(800, vec![file("a", 3, 50), inner])), 70);
    assert_eq!(newest_mtime(&touched(800, Vec::new())), 800);
    let hollow = ("sub".to_string(), touched(900, Vec::new()));
    assert_eq!(newest_mtime(&touched(800, vec![hollow])), 800);
    assert_eq!(newest_mtime(&file("a", 3, 50).1), 50);
}

// ------------------------------------------------------------------
// Digests
// ------------------------------------------------------------------

#[test]
fn digests_are_the_known_ones() {
    let abc = "ba7816bf8f01cfea414140de5dae2223b00361a396177a9cb410ff61f20015ad";
    assert_eq!(sha256_hex(&b"abc".to_vec()), abc);
    assert_eq!(sha256_text("abc"), abc);
    assert_eq!(
        sha256_text(""),
        "e3b0c44298fc1c149afbf4c8996fb92427ae41e4649b934ca495991b7852b855"
    );
}

#[test]
fn texts_are_hashed_as_std_hashes_them() {
    for text in ["", "a", "webdav|https://host:443|/a.cbz", "漫画"] {
        let mut hasher = std::collections::hash_map::DefaultHasher::new();
        text.hash(&mut hasher);
        assert_eq!(hash_text(text), hasher.finish());
        assert_eq!(stable_hash(text), format!("{:016x}", hasher.finish()));
        assert_eq!(short_hash(text), format!("{:x}", hasher.finish()));
    }
}

// ------------------------------------------------------------------
// Removal by book
// ------------------------------------------------------------------

#[test]
fn delete_by_book_helpers_only_remove_matching() {
    let ns_a = "webdav|https://host:443|/a.cbz";
    let ns_b = "webdav|https://host:443|/b.cbz";
    let pages = vec![
        dir(&stable_hash(ns_b), Vec::new()),
        dir(&stable_hash(ns_a), vec![file("data.bin", 32, 1)]),
    ];
    let removed = delete_page_cache_for_ns(&pages, ns_a).unwrap();
    assert_eq!(removed.freed, 32);
    assert_eq!(removed.name, stable_hash(ns_a));
    assert!(delete_page_cache_for_ns(&pages, "webdav|https://x|/n.cbz").is_none());

    let key_a = "https://host:443/dav/漫画.cbz";
    let key_b = "https://host:443/dav/另一本.cbz";
    let raw = vec![
        dir(&stable_hash(key_a), vec![file("本.cbz", 64, 1)]),
        dir(&stable_hash(key_b), Vec::new()),
    ];
    let removed = delete_raw_cache_for_key(&raw, key_a).unwrap();
    assert_eq!(removed.freed, 64);
    assert_eq!(removed.name, stable_hash(key_a));

    let hash_of = |s: &str| {
        let mut h = std::collections::hash_map::DefaultHasher::new();
        s.hash(&mut h);
        format!("{:x}", h.finish())
    };
    let path_a = "/dav/漫画A.cbz";
    let path_b = "/dav/漫画B.cbz";
    let f_a1 = format!("{}_0_100_100.cover", hash_of(path_a));
    let f_a2 = format!("{}_3_200_200.cover", hash_of(path_a));
    let f_b = format!("{}_0_100_100.cover", hash_of(path_b));
    let covers = vec![file(&f_a1, 16, 1), file(&f_b, 16, 1), file(&f_a2, 16, 1)];
    let plan = delete_cover_cache_for_path(&covers, path_a);
    assert_eq!(plan.freed, 32);
    assert_eq!(plan.remove, vec![f_a1.clone(), f_a2]);
    assert_eq!(cover_cache_key(path_a, 0, 100, 100, ""), f_a1);
}

#[test]
fn cropped_covers_have_their_own_files() {
    let plain = cover_cache_key("/a", 0, 1, 2, "");
    let cropped = cover_cache_key("/a", 0, 1, 2, "_c1");
    assert_eq!(plain, format!("{}_0_1_2.cover", short_hash("/a")));
    assert_eq!(cropped, format!("{}_0_1_2_c1.cover", short_hash("/a")));
}

// ------------------------------------------------------------------
// Clearing
// ------------------------------------------------------------------

#[test]
fn clearing_frees_what_was_counted() {
    let mut snapshot = empty_snapshot();
    snapshot.page = Some(dir("page", vec![file("a", 5, 1)]).1);
    snapshot.cover = Some(dir("cover", vec![file("b", 7, 1), dir("d", vec![file("c", 1, 1)])]).1);
    snapshot.mobi_table = Some(dir("m", vec![file("t", 2, 1)]).1);
    snapshot.download = Some(dir("download", vec![file("x", 11, 1)]).1);
    snapshot.cache = Some(
        dir(
            "cache",
            vec![
                dir("0123456789abcdef", vec![file("y", 13, 1)]),
                dir("page", vec![file("a", 5, 1)]),
            ],
        )
        .1,
    );
    let sizes = cache_sizes(&snapshot);
    assert_eq!((sizes.page, sizes.raw, sizes.cover, sizes.total), (5, 0, 8, 13));
    assert_eq!(page_cache_size(&snapshot), 5);
    assert_eq!(total_cache_size(&snapshot), sizes.total);
    let cleared = clear_cover_cache(&snapshot);
    assert_eq!(cleared.freed, 8);
    assert_eq!(cleared.remove, vec!["b", "d"]);
    assert_eq!(clear_mobi_table_cache(&snapshot).freed, 2);
    let legacy = clear_legacy_artifacts(&snapshot);
    assert!(legacy.remove_download);
    assert_eq!(legacy.remove, vec!["0123456789abcdef"]);
    assert_eq!(legacy.freed, 24);
    let all = clear_all_caches(&snapshot);
    assert_eq!(all.freed, 5 + 8 + 24);
    assert!(legacy_name("0123456789ABCDEF"));
    assert!(!legacy_name("0123456789abcdeg"));
    assert!(!legacy_name("abc"));
}

// ------------------------------------------------------------------
// Eviction
// ------------------------------------------------------------------

fn evict(packages: &[(&str, u64, u64)], limit: u64) -> (Vec<String>, u64) {
    let entries: Vec<(String, Node)> = packages
        .iter()
        .map(|(name, size, time)| dir(name, vec![file("book.bin", *size, *time)]))
        .collect();
    let mut eviction = RawEviction::enforce_raw_cache_limit(raw_packages(&entries), limit);
    let mut gone = Vec::new();
    while let Some(victim) = eviction.next() {
        let size = eviction.packages[victim].size;
        gone.push(eviction.packages[victim].name.clone());
        eviction.evicted(size);
    }
    (gone, eviction.freed)
}

#[test]
fn raw_cache_limit_evicts_oldest_packages_and_keeps_the_newest() {
    const MIB: u64 = 1024 * 1024;
    let base = 1_700_000_000;
    let packages = [
        ("old", MIB, base),
        ("mid", MIB, base + 60),
        ("new", MIB, base + 120),
    ];
    assert_eq!(evict(&packages, RAW_CACHE_LIMIT_BYTES), (vec![], 0));
    assert_eq!(
        evict(&packages, MIB * 5 / 2),
        (vec!["old".to_string()], MIB)
    );
    let (gone, freed) = evict(&packages, 1);
    assert_eq!(gone, vec!["old", "mid"]);
    assert_eq!(freed, 2 * MIB);
}

#[test]
fn links_count_with_their_own_length_in_the_raw_cache() {
    let link = Node::Other { len: 12, modified: 3 };
    let inner = ("l".to_string(), Node::Other { len: 7, modified: 1 });
    let entries = vec![
        ("link".to_string(), link),
        dir("package", vec![file("book.bin", 30, 9), inner]),
        file("loose.bin", 4, 5),
    ];
    let packages = raw_packages(&entries);
    let sizes: Vec<(u64, u64)> = packages.iter().map(|p| (p.size, p.newest)).collect();
    assert_eq!(sizes, vec![(12, 3), (30, 9), (4, 5)]);
    let eviction = RawEviction::enforce_raw_cache_limit(packages, 40);
    assert_eq!(eviction.total, 46);
    assert_eq!(eviction.next(), Some(0));
}

#[test]
fn migrated_items_are_removed_where_they_are() {
    let root = parts("/", &["old"]);
    let link = Some(Node::Other { len: 8, modified: 1 });
    let removal = delete_migrated_items(&root, &link, &None).ok().unwrap();
    assert_eq!((removal.database, removal.cache, removal.freed), (true, false, 8));
    let removal = delete_migrated_items(&root, &None, &None).ok().unwrap();
    assert_eq!((removal.database, removal.cache, removal.freed), (false, false, 0));
}

// ------------------------------------------------------------------
// Files that appear whole
// ------------------------------------------------------------------

/// A directory of files by name.
struct Files(Vec<(String, String)>);

impl Files {
    fn read(&self, name: &str) -> Option<&str> {
        let found = self.0.iter().find(|(n, _)| n == name);
        found.map(|(_, bytes)| bytes.as_str())
    }

    fn write(&mut self, name: &str, bytes: &str) {
        self.0.retain(|(n, _)| n != name);
        self.0.push((name.to_string(), bytes.to_string()));
    }

    fn parts(&self) -> usize {
        self.0.iter().filter(|(n, _)| n.contains(".part-")).count()
    }

    fn commit(&mut self, writer: &mut AtomicCacheFile) {
        let exists = self.read(&writer.target).is_some();
        for step in writer.commit_steps(exists).unwrap() {
            match step {
                PublishStep::SyncTemp => {}
                PublishStep::RemoveTarget => {
                    let target = writer.target.clone();
                    self.0.retain(|(n, _)| *n != target);
                }
                PublishStep::Rename => {
                    assert!(self.read(&writer.target).is_none());
                    let bytes = self.read(&writer.temp).unwrap().to_string();
                    let temp = writer.temp.clone();
                    self.0.retain(|(n, _)| *n != temp);
                    self.write(&writer.target.clone(), &bytes);
                }
            }
        }
        writer.renamed();
        self.end(writer);
    }

    fn end(&mut self, writer: &AtomicCacheFile) {
        if let Some(temp) = writer.leftover() {
            self.0.retain(|(n, _)| *n != temp);
        }
    }
}

fn begin(files: &mut Files, number: u64, bytes: &str) -> AtomicCacheFile {
    let writer = AtomicCacheFile::create("book.cbz", 7, number);
    files.write(&writer.temp, bytes);
    writer
}

#[test]
fn rg_a_atomic_target_is_invisible_until_commit() {
    let mut files = Files(Vec::new());
    let mut writer = begin(&mut files, 0, "partial");
    assert_eq!(writer.temp, ".book.cbz.part-7-0");
    assert!(files.read("book.cbz").is_none());
    assert_eq!(files.parts(), 1);
    files.commit(&mut writer);
    assert_eq!(files.read("book.cbz"), Some("partial"));
    assert_eq!(files.parts(), 0);
    assert_eq!(
        writer.commit_steps(true).err().unwrap(),
        "缓存临时文件已关闭"
    );
}

#[test]
fn rg_a_atomic_abort_removes_temp_and_leaves_no_target() {
    let mut files = Files(Vec::new());
    let writer = begin(&mut files, 0, "half");
    files.end(&writer);
    assert!(files.read("book.cbz").is_none());
    assert_eq!(files.parts(), 0);
}

#[test]
fn rg_a_atomic_commit_replaces_existing_stale_target() {
    let mut files = Files(Vec::new());
    files.write("book.cbz", "");
    let mut writer = begin(&mut files, 0, "complete");
    files.commit(&mut writer);
    assert_eq!(files.read("book.cbz"), Some("complete"));
    assert_eq!(files.parts(), 0);
}

#[test]
fn rg_a_atomic_temp_names_are_unique_per_writer() {
    let mut files = Files(Vec::new());
    let mut first = begin(&mut files, 0, "AAAA");
    let mut second = begin(&mut files, 1, "BBBBBB");
    assert_eq!(files.parts(), 2);
    files.commit(&mut first);
    assert_eq!(files.read("book.cbz"), Some("AAAA"));
    files.commit(&mut second);
    assert_eq!(files.read("book.cbz"), Some("BBBBBB"));
    assert_eq!(files.parts(), 0);
}

#[test]
fn rg_a_atomic_abort_does_not_disturb_another_writer() {
    let mut files = Files(Vec::new());
    let aborted = begin(&mut files, 0, "stale");
    let mut good = begin(&mut files, 1, "final");
    files.end(&aborted);
    files.commit(&mut good);
    assert_eq!(files.read("book.cbz"), Some("final"));
    assert_eq!(files.parts(), 0);
}

// ------------------------------------------------------------------
// Cover files
// ------------------------------------------------------------------

#[test]
fn covers_are_read_as_they_were_written() {
    let rgba = vec![9u8; 2 * 3 * 4];
    let bytes = encode_cover(2, 3, &rgba);
    assert_eq!(bytes[..8], [2, 0, 0, 0, 3, 0, 0, 0]);
    assert_eq!(decode_cover(&bytes), Some((rgba.clone(), 2, 3)));
    assert_eq!(encode_remote_cover(2, 3, &rgba), Ok(bytes));
    assert_eq!(decode_cover(&vec![1, 2, 3]), None);
    assert_eq!(decode_cover(&vec![1, 0, 0, 0, 1, 0, 0, 0, 5]), None);
    assert_eq!(decode_cover(&vec![0xff; 9]), None);
}

#[test]
fn remote_covers_must_be_whole_and_small() {
    assert!(encode_remote_cover(2, 3, &vec![0; 5]).is_err());
    assert!(encode_remote_cover(0, 3, &Vec::new()).is_err());
    assert!(remote_cover_length_fits(8));
    assert!(!remote_cover_length_fits(REMOTE_COVER_MAX_BYTES as u64 + 9));
}

#[test]
fn remote_cover_names_keep_their_parts_apart() {
    let name = remote_cover_cache_filename("s", "a", "c", "sel", "170x240@1");
    assert_eq!(
        name,
        "224e782b5fde7780042f60cfbcb7b125a3f5d643b0a03a08de86cad13aca8957.cover-v2"
    );
    assert_ne!(name, remote_cover_cache_filename("sa", "", "c", "sel", "170x240@1"));
    let path = remote_cover_cache_relative_path("s", "a", "c", "sel", "170x240@1");
    assert_eq!(path, format!("cache/cover/{name}"));
    assert_eq!(cover_part_name(&name, 42), format!(".{name}.part-42"));
}

// ------------------------------------------------------------------
// Migration
// ------------------------------------------------------------------

#[test]
fn migrate_copies_db_cache_skips_support() {
    let from = parts("/", &["base", "from"]);
    let to = parts("/", &["base", "to"]);
    let support = parts("/", &["base", "from", "RCH"]);
    let entries = vec![
        dir("cache", vec![dir("page", vec![file("a.bin", 100, 1)])]),
        dir("RCH", vec![file("library.json", 2, 1)]),
        file("database.db", 500, 1),
        file("note.txt", 9, 1),
        file(MIGRATION_MARKER, 4, 1),
    ];
    let mut migration = migrate_cache_root(&from, &to, &support, &entries).ok().unwrap();
    assert_eq!(migration.total, 500 + 100 + 9);
    let names: Vec<&str> = migration.items.iter().map(|i| i.name.as_str()).collect();
    assert_eq!(names, vec!["cache", "database.db", "note.txt"]);
    let mut action = migration.step(MigrationEvent::Marked);
    for (item, len) in [(0, 100), (1, 500), (2, 9)] {
        assert!(matches!(action, MigrationAction::Copy { item: i } if i == item));
        migration.file_copied(len);
        action = migration.step(MigrationEvent::ItemCopied);
    }
    assert_eq!(migration.migration_progress(), (609, 609));
    for (item, count) in [(0, 1), (1, 500), (2, 9)] {
        assert!(matches!(action, MigrationAction::Look { item: i, ms: 0 } if i == item));
        action = migration.step(MigrationEvent::Looked {
            original: Some(count),
            copy: Some(count),
        });
    }
    match action {
        MigrationAction::Finish { copied } => assert!(copied >= 600),
        _ => panic!("all has been copied and looked at"),
    }
    let found = |name: &str| {
        let mut all = vec![
            dir("cache", vec![dir("page", vec![file("a.bin", 100, 1)])]),
            file("database.db", 500, 1),
        ];
        let at = all.iter().position(|(entry, _)| entry == name)?;
        Some(all.remove(at).1)
    };
    let removal =
        delete_migrated_items(&from, &found("database.db"), &found("cache")).ok().unwrap();
    assert!(removal.freed >= 600);
    assert!(removal.database && removal.cache);
}

#[test]
fn migrate_rejects_unsafe_paths() {
    let base = parts("/", &["base"]);
    let a = parts("/", &["base", "a"]);
    let support = parts("/", &["base", "sup"]);
    let none: Vec<(String, Node)> = Vec::new();
    assert!(migrate_cache_root(&a, &a, &support, &none).is_err());
    assert!(migrate_cache_root(&base, &a, &support, &none).is_err());
    assert!(migrate_cache_root(&a, &base, &support, &none).is_err());
    let disk = parts("C:\\", &[]);
    let target = parts("D:\\", &["tmp_x2"]);
    assert_eq!(
        migrate_cache_root(&disk, &target, &support, &none).err().unwrap(),
        "缓存目录不能是磁盘根目录"
    );
    assert_eq!(
        delete_migrated_items(&disk, &None, &None).err().unwrap(),
        "缓存目录不能是磁盘根目录"
    );
    assert_eq!(
        check_migration(&a, &base).unwrap_err(),
        "目标目录不能与源目录相同或互为子目录"
    );
}

fn two_items() -> Migration {
    let from = parts("/", &["base", "from"]);
    let to = parts("/", &["base", "to"]);
    let support = parts("/", &["base", "sup"]);
    let entries = vec![
        dir("cache", vec![file("a.bin", 3, 1)]),
        file("note.txt", 0, 1),
    ];
    migrate_cache_root(&from, &to, &support, &entries).ok().unwrap()
}

fn taken_back(action: MigrationAction) -> (Vec<(String, bool)>, String) {
    match action {
        MigrationAction::Undo { remove, text } => (remove, text),
        _ => panic!("the migration has failed"),
    }
}

#[test]
fn a_failed_copy_is_taken_back_with_what_was_under_way() {
    let cache = ("cache".to_string(), true);
    let note = ("note.txt".to_string(), false);
    let mut migration = two_items();
    migration.step(MigrationEvent::Marked);
    migration.file_copied(2);
    let (remove, text) = taken_back(migration.step(MigrationEvent::Failed("disk full".into())));
    assert_eq!((remove, text.as_str()), (vec![cache.clone()], "disk full"));

    let mut migration = two_items();
    migration.step(MigrationEvent::Marked);
    migration.step(MigrationEvent::ItemCopied);
    let (remove, _) = taken_back(migration.step(MigrationEvent::Failed("x".into())));
    assert_eq!(remove, vec![cache.clone(), note.clone()]);
    assert_eq!(migration.rollback(), vec![cache, note]);
}

#[test]
fn copies_are_looked_at_again_before_they_fail() {
    let mut migration = two_items();
    migration.step(MigrationEvent::Marked);
    migration.step(MigrationEvent::ItemCopied);
    migration.step(MigrationEvent::ItemCopied);
    let bad = || MigrationEvent::Looked {
        original: Some(3),
        copy: Some(2),
    };
    for ms in [50, 100, 150, 200] {
        match migration.step(bad()) {
            MigrationAction::Look { item: 0, ms: found } => assert_eq!(found, ms),
            _ => panic!("the copy is looked at again"),
        }
    }
    let (remove, text) = taken_back(migration.step(bad()));
    assert_eq!(text, "迁移校验失败：cache 文件数量不一致");
    assert_eq!(remove.len(), 2);
}

#[test]
fn empty_files_are_good_copies_and_unreadable_ones_are_not() {
    let mut migration = two_items();
    migration.step(MigrationEvent::Marked);
    migration.step(MigrationEvent::ItemCopied);
    migration.step(MigrationEvent::ItemCopied);
    let looked = |original, copy| MigrationEvent::Looked { original, copy };
    assert!(matches!(
        migration.step(looked(Some(1), Some(1))),
        MigrationAction::Look { item: 1, ms: 0 }
    ));
    assert!(matches!(
        migration.step(looked(None, None)),
        MigrationAction::Look { item: 1, ms: 50 }
    ));
    assert!(matches!(
        migration.step(looked(Some(0), Some(0))),
        MigrationAction::Finish { copied: 0 }
    ));
    migration = two_items();
    migration.step(MigrationEvent::Marked);
    migration.step(MigrationEvent::ItemCopied);
    migration.step(MigrationEvent::ItemCopied);
    migration.step(looked(Some(1), Some(1)));
    for _ in 0..4 {
        migration.step(looked(Some(0), Some(7)));
    }
    let (_, text) = taken_back(migration.step(looked(Some(0), Some(7))));
    assert_eq!(text, "迁移校验失败：note.txt 大小不一致");
}

#[test]
fn interrupted_migrations_are_found_by_their_markers() {
    let (from, to) = ("C:\\data \"old\"", "/新/位置\n");
    let marker = migration_marker(from, to);
    assert_eq!(
        pending_migration(&Some(marker)),
        Some((from.to_string(), to.to_string()))
    );
    for text in ["", "{", "[]", "{\"from\":\"a\"}", "{\"from\":\"a\",\"to\":1}", "\"from\""] {
        assert_eq!(pending_migration(&Some(text.to_string())), None, "{text}");
    }
    assert_eq!(
        pending_migration(&Some("{\"to\":\"b\",\"x\":[],\"from\":\"a\"}".to_string())),
        Some(("a".to_string(), "b".to_string()))
    );
    assert_eq!(pending_migration(&None), None);
    assert_eq!(marked_roots(Some("a".into()), None), None);
    assert_eq!(
        marked_roots(Some("a".into()), Some("b".into())),
        Some(("a".to_string(), "b".to_string()))
    );
}

// ------------------------------------------------------------------
// Looking covers up
// ------------------------------------------------------------------

#[test]
fn covers_are_found_only_where_their_files_are() {
    let data = encode_cover(1, 2, &vec![7u8; 8]);
    let found = Some((vec![7u8; 8], 1, 2));
    assert_eq!(cover_cache_read(&Some(data.clone())), found);
    assert_eq!(remote_cover_cache_read(&Some(data)), found);
    assert_eq!(cover_cache_read(&None), None);
    assert_eq!(remote_cover_cache_read(&None), None);
    assert_eq!(remote_cover_cache_read(&Some(vec![1, 2, 3])), None);
    assert!(remote_cover_cache_present(Some(1)));
    assert!(!remote_cover_cache_present(Some(0)));
    assert!(!remote_cover_cache_present(None));
    let mut snapshot = empty_snapshot();
    snapshot.cover = Some(dir("cover", vec![file("a.cover", 9, 1), file("b.cover-v2", 9, 1)]).1);
    assert_eq!(clear_cover_cache(&snapshot).remove, vec!["a.cover", "b.cover-v2"]);
}

#[test]
fn remote_covers_are_named_by_their_digest() {
    let name = remote_cover_cache_filename("ab", "c", "x", "y", "z");
    assert_eq!(name.len(), 64 + ".cover-v2".len());
    assert!(name.ends_with(".cover-v2"));
    assert!(name[..64].bytes().all(|b| b.is_ascii_digit() || (b'a'..=b'f').contains(&b)));
    assert_ne!(name, remote_cover_cache_filename("a", "bc", "x", "y", "z"));
}

// ------------------------------------------------------------------
// Origins
// ------------------------------------------------------------------

#[test]
fn origins_follow_the_address() {
    for (url, origin) in [
        ("https://dav.example.com/dav", Some("https://dav.example.com")),
        (" https://host:443/x ", Some("https://host")),
        ("http://HOST:8080", Some("http://host:8080")),
        ("data:text/plain,x", None),
        ("nonsense", None),
    ] {
        assert_eq!(webdav_origin(url).as_deref(), origin, "{url}");
    }
    assert_eq!(origin_of_parts("http", None, Some(1)), None);
    for (url, port, endpoint) in [
        (Some("nas.local"), Some(22), Some("nas.local")),
        (Some("nas.local/"), Some(2222), Some("nas.local:2222")),
        (Some("nas.local:2200"), None, Some("nas.local:2200")),
        (Some("nas.local:22"), Some(9), Some("nas.local")),
        (Some("nas.local"), None, Some("nas.local")),
        (Some("  "), None, None),
        (None, Some(22), None),
    ] {
        let url = url.map(|u| u.to_string());
        assert_eq!(sftp_endpoint(&url, port).as_deref(), endpoint);
    }
}

fn identity(source_type: &str) -> SourceIdentity {
    SourceIdentity {
        source_type: source_type.into(),
        url: None,
        port: None,
        root_path: "/".into(),
        client_id: None,
        root_id: None,
        cookie_mode: false,
    }
}

fn webdav() -> SourceIdentity {
    let mut source = identity("webdav");
    source.url = Some("https://host/dav".into());
    source
}

#[test]
fn cloud_origins_name_the_application() {
    let mut baidu = identity("baidu");
    baidu.client_id = Some("appkey".into());
    assert_eq!(origin_of(&baidu).as_deref(), Some("baidu:appkey:/"));
    let mut cloud = identity("115");
    cloud.client_id = Some("appid".into());
    assert_eq!(origin_of(&cloud).as_deref(), Some("115:appid:0"));
    cloud.cookie_mode = true;
    assert_eq!(origin_of(&cloud).as_deref(), Some("115web:0"));
    assert_eq!(origin_of(&identity("quark")).as_deref(), Some("quark:0"));
    assert_eq!(origin_of(&identity("m8")), None);
}

#[test]
fn remote_folder_completion_removes_pages_but_preserves_raw_and_cover() {
    let purge = purge_remote_book_content_cache(&webdav(), "/Series/Book", true);
    assert_eq!(
        purge.page_ns.as_deref(),
        Some("webdav|https://host|/Series/Book")
    );
    assert_eq!(purge.raw_key, None);
    assert_eq!(purge.cover_path, None);
    let pages = vec![dir(
        &stable_hash("webdav|https://host|/Series/Book"),
        vec![file("0.bin", 4, 1)],
    )];
    let removed = delete_page_cache_for_ns(&pages, &purge.page_ns.unwrap()).unwrap();
    assert_eq!(removed.freed, 4);
}

#[test]
fn stale_books_lose_everything_that_is_cached() {
    let purge = purge_stale_book_cache(&webdav(), "/b.cbz");
    assert_eq!(purge.page_ns.as_deref(), Some("webdav|https://host|/b.cbz"));
    assert_eq!(purge.raw_key.as_deref(), Some("https://host/b.cbz"));
    assert_eq!(purge.cover_path.as_deref(), Some("/b.cbz"));
    let local = purge_stale_book_cache(&identity("local"), "/b.cbz");
    assert_eq!(local.page_ns.as_deref(), Some("local|/b.cbz"));
    assert_eq!(local.raw_key, None);
    assert_eq!(purge_stale_book_cache(&webdav(), "").cover_path, None);
}

// ------------------------------------------------------------------
// Cleanup by proof
// ------------------------------------------------------------------

fn proof_of(path: &str, dependencies: &[&str]) -> Vec<Tombstone> {
    vec![Tombstone {
        logical_path: path.into(),
        dependency_paths: dependencies.iter().map(|d| d.to_string()).collect(),
    }]
}

fn dependency(book_key: &str, path: &str) -> CoverDependency {
    CoverDependency {
        book_key: book_key.into(),
        dependency_path: path.into(),
    }
}

fn indexed(path: &str, deleted: bool) -> IndexPath {
    IndexPath {
        path: path.into(),
        deleted,
    }
}

#[test]
fn verified_folder_deletion_removes_alias_dependency_page_and_raw_caches_only() {
    let index: Vec<IndexPath> = [
        ("/Series", true),
        ("/Series/book.zip", false),
        ("/Series/book.cbz", false),
        ("/book.zip", true),
        ("/book.cbz", false),
        ("/Other/book.cbz", false),
    ]
    .iter()
    .map(|(path, deleted)| indexed(path, *deleted))
    .collect();
    let book_key = book_key_of("webdav", "source", "/Series/book.cbz");
    let unrelated_key = book_key_of("webdav", "source", "/Other/book.cbz");
    let alias_key = book_key_of("webdav", "source", "/book.zip");
    let rows = vec![
        dependency(&book_key, "/Series/001.jpg"),
        dependency(&book_key, "/Series/new.jpg"),
        dependency(&unrelated_key, "/Other/001.jpg"),
        dependency(&alias_key, "/outside/cover.jpg"),
    ];
    let proof = proof_of("/Series", &["/Series/001.jpg"]);
    let purge =
        purge_verified_remote_asset("source", "/Series", &proof, Some(webdav()), &index, &rows)
            .ok()
            .unwrap();
    for path in [
        "/Series",
        "/Series/book.zip",
        "/Series/book.cbz",
        "/Series/001.jpg",
    ] {
        assert!(purge.paths.iter().any(|p| p == path), "{path}");
    }
    assert!(!purge.paths.iter().any(|p| p == "/Other/book.cbz"));
    assert!(!purge.paths.iter().any(|p| p == "/book.cbz"));
    assert_eq!(purge.dependencies.len(), 2);
    assert!(purge.dependencies.iter().all(|d| d.book_key == book_key));
    let mut partials = purge.partials;
    partials.sort();
    let own_key = book_key_of("webdav", "source", "/Series");
    assert_eq!(partials, vec![own_key, book_key]);

    let rest = vec![
        dependency(&unrelated_key, "/Other/001.jpg"),
        dependency(&alias_key, "/outside/cover.jpg"),
    ];
    let proof = proof_of("/book.zip", &[]);
    let purge =
        purge_verified_remote_asset("source", "/book.zip", &proof, Some(webdav()), &index, &rest)
            .ok()
            .unwrap();
    assert!(purge.paths.iter().any(|p| p == "/book.zip"));
    assert!(!purge.paths.iter().any(|p| p == "/book.cbz"));
    assert_eq!(book_key_of("webdav", "source", "/book.cbz"), alias_key);
    assert!(purge.dependencies.is_empty());
    assert!(purge.partials.is_empty());
}

#[test]
fn deleted_cover_dependency_preserves_newly_queued_replacement_for_live_book() {
    let book_key = book_key_of("webdav", "source", "/Series");
    let index = vec![indexed("/Series", false), indexed("/Series/001.jpg", true)];
    let rows = vec![
        dependency(&book_key, "/Series/001.jpg"),
        dependency(&book_key, "/Series/new.jpg"),
    ];
    let proof = proof_of("/Series/001.jpg", &["/Series/001.jpg"]);
    let purge = purge_verified_remote_asset(
        "source",
        "/Series/001.jpg",
        &proof,
        Some(webdav()),
        &index,
        &rows,
    )
    .ok()
    .unwrap();
    assert_eq!(purge.dependencies.len(), 1);
    assert_eq!(purge.dependencies[0].dependency_path, "/Series/001.jpg");
    assert!(purge.paths.iter().any(|p| p == "/Series"));
    assert!(purge.partials.contains(&book_key));
}

#[test]
fn unverified_remote_deletion_does_not_remove_any_cache() {
    let none: Vec<Tombstone> = Vec::new();
    let index: Vec<IndexPath> = Vec::new();
    let rows: Vec<CoverDependency> = Vec::new();
    assert_eq!(
        purge_verified_remote_asset("source", "/book.cbz", &none, Some(webdav()), &index, &rows)
            .err()
            .unwrap(),
        "remote deletion is not backed by current complete-listing proof"
    );
    let proof = proof_of("/book.cbz", &[]);
    assert_eq!(
        purge_verified_remote_asset("source", "/book.cbz", &proof, None, &index, &rows)
            .err()
            .unwrap(),
        "remote source no longer exists"
    );
    let local = Some(identity("local"));
    assert_eq!(
        purge_verified_remote_asset("source", "/book.cbz", &proof, local, &index, &rows)
            .err()
            .unwrap(),
        "verified remote cleanup is unavailable for this source type"
    );
}

#[test]
fn verified_cleanup_matches_source_id_literally() {
    let unrelated = book_key_of("webdav", "sourceX", "/other.cbz");
    let rows = vec![dependency(&unrelated, "/gone.cbz")];
    let index = vec![indexed("/gone.cbz", true)];
    let proof = proof_of("/gone.cbz", &[]);
    let purge =
        purge_verified_remote_asset("source%", "/gone.cbz", &proof, Some(webdav()), &index, &rows)
            .ok()
            .unwrap();
    assert!(purge.dependencies.is_empty());
    assert!(!purge.partials.contains(&unrelated));
}

#[test]
fn paths_lie_within_whole_directories() {
    assert!(path_is_within("/a/b", "/a"));
    assert!(path_is_within("/a", "/a"));
    assert!(!path_is_within("/ab", "/a"));
}
