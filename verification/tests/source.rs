use rch::api::book::{book_reader, close_book, folder_cover_path, local_cache_ns, register_book};
use rch::api::opening::{
    cached_document_name, cover_lookup_path, cover_step, document_name, legacy_cover_authority,
    legacy_cover_keys, open_cached_remote_book, parse_strategy, read_legacy_cover_local,
    CoverAction, LegacyCoverLocalLookupDto, OpenAction, OpenBook, OpenStrategy, StepResult,
};
use rch::api::source::{
    baidu_has_raw_cache, cloud115_cookie_has_raw_cache, cloud115_has_raw_cache, cloud_connect,
    find_session, open_remote_folder_book, prime_remote_folder_locator, quark_has_raw_cache, remote_folder_cache_ns,
    remote_image_folder_manifest_complete, remote_provider_adapter, retry_after_ms, scan_error,
    scan_io_error, sftp_connect, sftp_has_raw_cache, supports_remote_scan, webdav_connect,
    webdav_has_raw_cache, ListedEntry, Provider, RemoteSession, SessionRemoteAdapter,
};
use rch::cache::{cover_cache_key, encode_cover};
use rch::remote_scan::model::{canonical_child_path, RemoteAssetKind, RemoteScanError};
use rch::session::Sessions;

// ------------------------------------------------------------------
// Adapters
// ------------------------------------------------------------------

#[test]
fn opaque_child_ids_keep_canonical_nested_hierarchy() {
    assert_eq!(
        canonical_child_path("/series", "volume 1"),
        "/series/volume 1"
    );
    assert_eq!(
        canonical_child_path("/series/volume 1", "book.cbz"),
        "/series/volume 1/book.cbz"
    );
}

#[test]
fn retry_after_metadata_is_preserved_without_exposing_the_error() {
    assert!(matches!(
        scan_error("HTTP 429 retry-after-ms=275 secret=hidden"),
        RemoteScanError::RateLimited {
            retry_after_ms: Some(275)
        }
    ));
    let sanitized = format!(
        "{:?}",
        scan_error(
            "network Authorization=Bearer-secret cookie=session-secret https://signed.example/x?token=secret"
        )
    );
    for secret in [
        "Bearer-secret",
        "session-secret",
        "signed.example",
        "token=secret",
    ] {
        assert!(!sanitized.contains(secret));
    }
}

#[test]
fn provider_factory_contract_covers_every_remote_source_and_excludes_local_only_sources() {
    for source_type in ["webdav", "sftp", "baidu", "115", "quark"] {
        assert!(supports_remote_scan(source_type), "{source_type}");
    }
    for source_type in ["local", "smb", "m8", "unknown"] {
        assert!(!supports_remote_scan(source_type), "{source_type}");
    }
}

#[test]
fn waits_are_read_behind_either_word() {
    assert_eq!(retry_after_ms("retry_after_ms=12x"), Some(12));
    assert_eq!(retry_after_ms("retry-after-ms=x retry_after_ms=7"), Some(7));
    assert_eq!(retry_after_ms("retry-after-ms=99999999999999999999"), None);
    assert_eq!(retry_after_ms("retry after 3"), None);
}

#[test]
fn provider_errors_fall_into_their_classes() {
    for (text, error) in [
        ("需要登录", RemoteScanError::Unauthorized),
        ("Forbidden", RemoteScanError::Forbidden),
        ("file not found", RemoteScanError::NotFound),
        (
            "request Timeout",
            RemoteScanError::TransientNetwork("provider_unavailable".into()),
        ),
        (
            "something else",
            RemoteScanError::Provider("provider_error".into()),
        ),
        (
            "HTTP 405",
            RemoteScanError::HttpStatus {
                stage: "downurl".into(),
                status: 405,
            },
        ),
    ] {
        assert_eq!(scan_error(text), error, "{text}");
    }
    for (text, error) in [
        ("status 200 without Range", RemoteScanError::RangeUnavailable),
        (
            "请求失败",
            RemoteScanError::TransientNetwork("range_read_failed".into()),
        ),
        (
            "something else",
            RemoteScanError::Provider("range_read_failed".into()),
        ),
        (
            "HTTP: 405",
            RemoteScanError::HttpStatus {
                stage: "range_read".into(),
                status: 405,
            },
        ),
        ("unauthorized", RemoteScanError::Unauthorized),
        (
            "频繁",
            RemoteScanError::RateLimited {
                retry_after_ms: None,
            },
        ),
    ] {
        assert_eq!(scan_io_error(text), error, "{text}");
    }
}

fn sessions() -> Sessions<RemoteSession<u32>> {
    let mut sessions: Sessions<RemoteSession<u32>> = Sessions::new();
    webdav_connect(&mut sessions, 10, "https://host".into(), "/dav".into(), false, true);
    cloud_connect(&mut sessions, Provider::Quark, 20, "quark:0".into(), "0".into());
    cloud_connect(&mut sessions, Provider::Cloud115, 30, "115:a:0".into(), "root".into());
    cloud_connect(&mut sessions, Provider::Cloud115Cookie, 40, "115web:0".into(), "web".into());
    sessions
}

#[test]
fn sessions_are_found_by_their_kind() {
    let open = sessions();
    assert_eq!(find_session(&open, Provider::WebDav, 1).ok().unwrap().client, 10);
    assert_eq!(find_session(&open, Provider::Quark, 2).ok().unwrap().client, 20);
    for (provider, text) in [
        (Provider::WebDav, "无效的 WebDAV 会话: 9"),
        (Provider::Sftp, "无效的 SFTP 会话: 9"),
        (Provider::Baidu, "无效的百度网盘会话: 9"),
        (Provider::Cloud115, "无效的 115 网盘会话: 9"),
        (Provider::Cloud115Cookie, "115 Cookie 会话不存在，请重新连接"),
        (Provider::Quark, "无效的夸克网盘会话: 9"),
    ] {
        assert_eq!(find_session(&open, provider, 9).err().unwrap(), text);
    }
    assert!(find_session(&open, Provider::Sftp, 1).is_err());
}

#[test]
fn connecting_labels_the_session() {
    let mut open: Sessions<RemoteSession<u32>> = Sessions::new();
    let near = webdav_connect(&mut open, 1, "o".into(), "/".into(), true, false);
    assert_eq!((near.id, near.capability_label.as_str()), (1, "local"));
    let far = webdav_connect(&mut open, 1, "o".into(), "/".into(), false, false);
    assert_eq!((far.id, far.capability_label.as_str()), (2, "webdav_norange"));
    let sftp = sftp_connect(&mut open, 1, "nas".into());
    assert_eq!((sftp.id, sftp.root.as_str()), (3, "/"));
    assert_eq!(sftp.capability_label, "sftp");
}

#[test]
fn raw_caches_need_an_open_session_of_their_kind() {
    let open = sessions();
    assert!(webdav_has_raw_cache(&open, 1, true));
    assert!(!webdav_has_raw_cache(&open, 1, false));
    assert!(!webdav_has_raw_cache(&open, 2, true));
    assert!(quark_has_raw_cache(&open, 2, true));
    assert!(cloud115_has_raw_cache(&open, 3, true));
    assert!(cloud115_cookie_has_raw_cache(&open, 4, true));
    assert!(!sftp_has_raw_cache(&open, 1, true));
    assert!(!baidu_has_raw_cache(&open, 1, true));
}

#[test]
fn adapters_begin_at_the_right_root() {
    let open = sessions();
    let refused = |source_type: &str, session: u64| {
        remote_provider_adapter(&open, source_type, session, "/").err().unwrap()
    };
    assert_eq!(
        refused("smb", 1),
        "local-only source is not eligible for remote scan"
    );
    assert_eq!(refused("m8", 1), "unsupported remote source type");
    assert_eq!(refused("sftp", 1), "无效的 SFTP 会话: 1");
    let webdav = remote_provider_adapter(&open, "webdav", 1, "/").ok().unwrap();
    assert_eq!(webdav.root, "/");
    assert_eq!(webdav.provider_path("/a/b"), "/a/b");
    let quark = remote_provider_adapter(&open, "quark", 2, " ").ok().unwrap();
    assert_eq!(quark.root, "0");
    assert_eq!(quark.provider_path("/"), "0");
    let chosen = remote_provider_adapter(&open, "quark", 2, "fid").ok().unwrap();
    assert_eq!(chosen.root, "fid");
    let cookie = remote_provider_adapter(&open, "115", 4, "/").ok().unwrap();
    assert_eq!(cookie.provider, Provider::Cloud115Cookie);
    let app = remote_provider_adapter(&open, "115", 3, "/").ok().unwrap();
    assert_eq!((app.provider, app.root.as_str()), (Provider::Cloud115, "root"));
}

#[test]
fn opaque_sources_learn_ids_from_listings() {
    let open = sessions();
    let mut adapter = remote_provider_adapter(&open, "quark", 2, "/").ok().unwrap();
    let entries = vec![ListedEntry {
        name: "book.cbz".into(),
        path: "fid-1".into(),
        is_dir: false,
        size: 0,
        mtime: 5,
        asset_kind: RemoteAssetKind::ArchiveFile,
    }];
    let listed = adapter.list("/series", &entries);
    assert_eq!(listed[0].logical_path, "/series/book.cbz");
    assert_eq!(listed[0].provider_path.as_deref(), Some("fid-1"));
    assert_eq!((listed[0].size, listed[0].mtime), (None, Some(5)));
    assert_eq!(adapter.provider_path("/series/book.cbz"), "fid-1");
    assert_eq!(adapter.cache_path("/series/book.cbz").as_deref(), Some("fid-1"));
    assert_eq!(adapter.cache_path("/other"), None);
    assert_eq!(adapter.provider_path("/other"), "0");
    adapter.register_path("series//book.cbz", "fid-2");
    assert_eq!(adapter.provider_path("/series/book.cbz"), "fid-2");
    assert!(SessionRemoteAdapter::check_cursor(&None).is_ok());
    assert_eq!(
        SessionRemoteAdapter::check_cursor(&Some("x".into())).unwrap_err(),
        RemoteScanError::MalformedResponse("unexpected_cursor".into())
    );
}

#[test]
fn plain_sources_keep_their_own_paths() {
    let open = sessions();
    let mut adapter = remote_provider_adapter(&open, "webdav", 1, "/").ok().unwrap();
    let entries = vec![ListedEntry {
        name: "b".into(),
        path: "/dav//b/".into(),
        is_dir: true,
        size: 9,
        mtime: 0,
        asset_kind: RemoteAssetKind::Directory,
    }];
    let listed = adapter.list("/ignored", &entries);
    assert_eq!(listed[0].logical_path, "/dav/b");
    assert_eq!((listed[0].size, listed[0].mtime), (Some(9), None));
    assert_eq!(adapter.cache_path("dav/b").as_deref(), Some("/dav/b"));
}

#[test]
fn folders_are_reached_from_the_root_down() {
    assert_eq!(prime_remote_folder_locator("/"), vec!["/"]);
    assert_eq!(
        prime_remote_folder_locator("a/b/c"),
        vec!["/", "/a", "/a/b", "/a/b/c"]
    );
    let open = sessions();
    assert_eq!(
        remote_folder_cache_ns(&open, "quark", 2, "x//y"),
        Ok("quark|quark:0|/x/y".to_string())
    );
    assert_eq!(
        remote_folder_cache_ns(&open, "smb", 2, "x"),
        Err("unsupported remote folder source type".to_string())
    );
    assert_eq!(
        remote_folder_cache_ns(&open, "quark", 1, "x"),
        Err("无效的夸克网盘会话: 1".to_string())
    );
    assert!(remote_image_folder_manifest_complete(&Ok(1)));
    assert!(!remote_image_folder_manifest_complete(&Ok(0)));
    assert!(!remote_image_folder_manifest_complete(&Err("x".into())));
    let opened = open_remote_folder_book(&open, &Ok(3), "quark", 2, "x//y").ok().unwrap();
    assert_eq!(opened.listed_first, prime_remote_folder_locator("x//y"));
    assert_eq!(Ok(opened.cache_ns), remote_folder_cache_ns(&open, "quark", 2, "x//y"));
    let refused = |manifest, kind, session| {
        open_remote_folder_book(&open, &manifest, kind, session, "x").err().unwrap()
    };
    assert_eq!(refused(Ok(0), "quark", 2), "remote image-folder manifest is incomplete");
    assert_eq!(refused(Ok(0), "smb", 9), "remote image-folder manifest is incomplete");
    assert_eq!(refused(Err("locked".to_string()), "quark", 2), "locked");
    assert_eq!(refused(Ok(1), "smb", 2), "local-only source is not eligible for remote scan");
}

// ------------------------------------------------------------------
// Open books
// ------------------------------------------------------------------

#[test]
fn books_are_read_under_their_handles_until_they_are_closed() {
    let mut books: Sessions<&str> = Sessions::new();
    let first = register_book(&mut books, "reader one", "One".into(), 3);
    let second = register_book(&mut books, "reader two", "Two".into(), 4);
    assert_eq!((first.handle, second.handle), (1, 2));
    assert_eq!((second.title.as_str(), second.page_count), ("Two", 4));
    assert_eq!(book_reader(&books, 1), Ok(&"reader one"));
    close_book(&mut books, 1);
    assert_eq!(
        book_reader(&books, 1).unwrap_err(),
        "无效的书句柄: 1".to_string()
    );
    assert_eq!(book_reader(&books, 2), Ok(&"reader two"));
    close_book(&mut books, 7);
    let third = register_book(&mut books, "reader three", "Three".into(), 5);
    assert_eq!(third.handle, 3);
    assert_eq!(books.last_given(), 3);
    assert_eq!(local_cache_ns("/a.cbz"), "local|/a.cbz");
    assert_eq!(folder_cover_path(&Some("c.jpg".into())), "c.jpg");
    assert_eq!(folder_cover_path(&None), "");
}

// ------------------------------------------------------------------
// Opening
// ------------------------------------------------------------------

fn run(provider: Provider, strategy: &str, results: &[StepResult]) -> Vec<OpenAction> {
    let mut book = OpenBook::begin(provider, "o", "/p", strategy);
    let mut actions = vec![book.action];
    for result in results {
        book.step(*result);
        actions.push(book.action);
    }
    actions
}

#[test]
fn strategies_have_their_names() {
    assert_eq!(parse_strategy("download"), OpenStrategy::Download);
    assert_eq!(parse_strategy("stream"), OpenStrategy::Stream);
    assert_eq!(parse_strategy("anything"), OpenStrategy::Auto);
    let book = OpenBook::begin(Provider::Cloud115Cookie, "115web:0", "pick", "auto");
    assert_eq!(book.cache_ns, "115|115web:0|pick");
    assert!(book.shows_progress());
    assert!(!OpenBook::begin(Provider::Quark, "o", "p", "stream").shows_progress());
}

#[test]
fn forced_downloads_never_stream() {
    for provider in [Provider::WebDav, Provider::Sftp, Provider::Baidu, Provider::Quark] {
        assert_eq!(
            run(provider, "download", &[StepResult::Failed]),
            vec![OpenAction::Download, OpenAction::Fail]
        );
        assert_eq!(
            run(provider, "download", &[StepResult::Yes, StepResult::Yes]),
            vec![
                OpenAction::Download,
                OpenAction::OpenDownloaded,
                OpenAction::Finish
            ]
        );
    }
}

#[test]
fn webdav_streams_before_it_downloads() {
    assert_eq!(
        run(
            Provider::WebDav,
            "auto",
            &[StepResult::No, StepResult::Yes, StepResult::Failed, StepResult::Yes]
        ),
        vec![
            OpenAction::ProbeCache,
            OpenAction::ProbeRange,
            OpenAction::OpenStream,
            OpenAction::Download,
            OpenAction::OpenDownloaded
        ]
    );
    assert_eq!(
        run(Provider::WebDav, "auto", &[StepResult::Yes, StepResult::Yes]),
        vec![
            OpenAction::ProbeCache,
            OpenAction::OpenCached,
            OpenAction::Finish
        ]
    );
    assert_eq!(
        run(Provider::WebDav, "stream", &[StepResult::No, StepResult::No, StepResult::Failed]),
        vec![
            OpenAction::ProbeCache,
            OpenAction::ProbeRange,
            OpenAction::ReadWhole,
            OpenAction::Fail
        ]
    );
}

#[test]
fn sftp_downloads_before_it_streams() {
    assert_eq!(
        run(Provider::Sftp, "auto", &[StepResult::Failed, StepResult::Yes]),
        vec![
            OpenAction::Download,
            OpenAction::OpenStream,
            OpenAction::Finish
        ]
    );
    assert_eq!(
        run(Provider::Sftp, "stream", &[StepResult::No, StepResult::Failed]),
        vec![
            OpenAction::ProbeCache,
            OpenAction::OpenStream,
            OpenAction::Fail
        ]
    );
}

#[test]
fn clouds_without_ranges_are_refused_or_downloaded() {
    assert_eq!(
        run(Provider::Quark, "stream", &[StepResult::No, StepResult::No]),
        vec![
            OpenAction::ProbeCache,
            OpenAction::ProbeRange,
            OpenAction::Refuse
        ]
    );
    assert_eq!(
        run(Provider::Quark, "auto", &[StepResult::No, StepResult::No]),
        vec![
            OpenAction::ProbeCache,
            OpenAction::ProbeRange,
            OpenAction::Download
        ]
    );
    assert_eq!(
        run(Provider::Baidu, "stream", &[StepResult::No, StepResult::No, StepResult::Yes]),
        vec![
            OpenAction::ProbeCache,
            OpenAction::ProbeRange,
            OpenAction::Fetch,
            OpenAction::OpenFetched
        ]
    );
    assert_eq!(
        run(Provider::Cloud115, "auto", &[StepResult::Failed, StepResult::No]),
        vec![
            OpenAction::Download,
            OpenAction::ProbeRange,
            OpenAction::Refuse
        ]
    );
    let quark = OpenBook::begin(Provider::Quark, "o", "p", "stream");
    assert_eq!(
        quark.no_range_text(),
        "夸克直链不支持 Range，请改用整本下载策略"
    );
    let app = OpenBook::begin(Provider::Cloud115, "o", "p", "stream");
    assert_eq!(app.no_range_text(), "115 直链不支持 Range，请改用整本下载策略");
}

#[test]
fn opening_always_ends() {
    let results = [StepResult::Yes, StepResult::No, StepResult::Failed];
    for provider in [
        Provider::WebDav,
        Provider::Sftp,
        Provider::Baidu,
        Provider::Cloud115,
        Provider::Cloud115Cookie,
        Provider::Quark,
    ] {
        for strategy in ["auto", "download", "stream"] {
            for number in 0..3usize.pow(7) {
                let mut book = OpenBook::begin(provider, "o", "p", strategy);
                let mut rest = number;
                for _ in 0..7 {
                    book.step(results[rest % 3]);
                    rest /= 3;
                }
                assert!(matches!(
                    book.action,
                    OpenAction::Finish | OpenAction::Fail | OpenAction::Refuse
                ));
            }
        }
    }
}

#[test]
fn documents_are_named_by_path_or_by_file() {
    let none: Option<String> = None;
    assert_eq!(document_name(Provider::WebDav, "/a.cbz", &Some("b".into())), "/a.cbz");
    assert_eq!(document_name(Provider::Quark, "fid", &Some("b.cbz".into())), "b.cbz");
    assert_eq!(document_name(Provider::Cloud115Cookie, "fid", &none), "file.cbz");
    assert_eq!(cached_document_name(&none), "file.cbz");
    assert_eq!(cached_document_name(&Some("x.zip".into())), "x.zip");
}

#[test]
fn cached_books_are_looked_for_by_their_kind() {
    let open = sessions();
    let book = open_cached_remote_book(&open, "115", 4, "pick").ok().unwrap();
    assert_eq!(book.provider, Provider::Cloud115Cookie);
    assert_eq!(book.cache_ns, "115|115web:0|pick");
    assert_eq!(
        open_cached_remote_book(&open, "ftp", 1, "p").err().unwrap(),
        "未知远程书源类型: ftp"
    );
    assert_eq!(
        open_cached_remote_book(&open, "sftp", 1, "p").err().unwrap(),
        "无效的 SFTP 会话: 1"
    );
}

#[test]
fn covers_never_download_whole_books() {
    let yes = StepResult::Yes;
    let no = StepResult::No;
    assert_eq!(cover_step(Provider::WebDav, CoverAction::ReadCover, no), CoverAction::ProbeRaw);
    assert_eq!(cover_step(Provider::Quark, CoverAction::ReadCover, no), CoverAction::ResolveName);
    assert_eq!(cover_step(Provider::Sftp, CoverAction::ProbeRaw, no), CoverAction::OpenStream);
    assert_eq!(cover_step(Provider::Baidu, CoverAction::ProbeRaw, no), CoverAction::ProbeRange);
    assert_eq!(cover_step(Provider::Baidu, CoverAction::ProbeRange, no), CoverAction::Refuse);
    assert_eq!(cover_step(Provider::Baidu, CoverAction::OpenRaw, yes), CoverAction::Store);
    assert_eq!(cover_step(Provider::Baidu, CoverAction::Store, no), CoverAction::Finish);
    assert_eq!(cover_lookup_path(&Some("/raw/a".into()), "/a"), "/raw/a");
    assert_eq!(cover_lookup_path(&None, "/a"), "/a");
}

// ------------------------------------------------------------------
// Covers of earlier versions
// ------------------------------------------------------------------

const PAGE: u32 = 0;
const W: u32 = 4;
const H: u32 = 4;

struct Fixture {
    kind: &'static str,
    family2: bool,
    expected_authority: &'static str,
    dto: LegacyCoverLocalLookupDto,
}

fn base_dto(kind: &str) -> LegacyCoverLocalLookupDto {
    LegacyCoverLocalLookupDto {
        kind: kind.to_string(),
        url: String::new(),
        host: String::new(),
        port: 22,
        app_key: String::new(),
        app_id: String::new(),
        root_id: String::new(),
        root: String::new(),
        logical_path: "/books/demo.cbz".to_string(),
        page: PAGE,
        width: W,
        height: H,
        crop: String::new(),
    }
}

fn fixtures() -> Vec<Fixture> {
    let mut webdav = base_dto("webdav");
    webdav.url = "https://dav.example.com/dav".to_string();
    let mut sftp22 = base_dto("sftp");
    sftp22.host = "nas.local".to_string();
    sftp22.port = 22;
    let mut sftp_custom = base_dto("sftp");
    sftp_custom.host = "nas.local".to_string();
    sftp_custom.port = 2222;
    let mut baidu = base_dto("baidu");
    baidu.app_key = "appkey".to_string();
    let mut c115 = base_dto("115");
    c115.app_id = "appid".to_string();
    let fixture = |kind, family2, expected_authority, dto| Fixture {
        kind,
        family2,
        expected_authority,
        dto,
    };
    vec![
        fixture("webdav", false, "https://dav.example.com", webdav),
        fixture("sftp(22)", false, "nas.local", sftp22),
        fixture("sftp(2222)", false, "nas.local:2222", sftp_custom),
        fixture("baidu", false, "baidu:appkey:/", baidu),
        fixture("115", false, "115:appid:0", c115),
        fixture("115web", true, "115web:0", base_dto("115web")),
        fixture("quark", true, "quark:0", base_dto("quark")),
    ]
}

/// Where the download of a fixture lies while it is there.
fn raw_path(fixture: &Fixture) -> String {
    let name = if fixture.family2 {
        "provider-returned-name.cbz"
    } else {
        "demo.cbz"
    };
    format!("/raw/{}/{name}", fixture.kind)
}

fn cover_file(key: &str) -> (String, Vec<u8>) {
    let rgba = vec![7u8; (W * H * 4) as usize];
    (cover_cache_key(key, PAGE, W, H, ""), encode_cover(W, H, &rgba))
}

fn current(fixture: &Fixture, raw_present: bool) -> String {
    if raw_present {
        raw_path(fixture)
    } else {
        fixture.dto.logical_path.clone()
    }
}

fn lookup(fixture: &Fixture, raw_present: bool, files: &Vec<(String, Vec<u8>)>) -> bool {
    let raw = if raw_present {
        Some(raw_path(fixture))
    } else {
        None
    };
    let candidate = if fixture.family2 {
        String::new()
    } else {
        raw_path(fixture)
    };
    read_legacy_cover_local(&fixture.dto, &raw, &candidate, files).is_some()
}

#[test]
fn d2_ca4_authority_literals_are_frozen() {
    for fixture in fixtures() {
        let authority = legacy_cover_authority(&fixture.dto)
            .unwrap_or_else(|| panic!("authority must derive for {}", fixture.kind));
        assert_eq!(
            authority, fixture.expected_authority,
            "authority literal changed for {}",
            fixture.kind
        );
    }
}

#[test]
fn d2_ca1_ca2_sessionless_lookup_reads_existing_caches() {
    for fixture in fixtures() {
        let files = vec![cover_file(&current(&fixture, true))];
        let raw = Some(raw_path(&fixture));
        let hit = read_legacy_cover_local(&fixture.dto, &raw, "", &files).expect("sessionless hit");
        assert_eq!(hit.width, W);
        assert_eq!(hit.height, H);
        assert_eq!(hit.rgba.len(), (W * H * 4) as usize);
    }
}

#[test]
fn d2_ca_state_transition_matrix() {
    let mut failures: Vec<String> = Vec::new();
    for fixture in fixtures() {
        for (write_present, read_present) in
            [(true, true), (false, false), (true, false), (false, true)]
        {
            let files = vec![cover_file(&current(&fixture, write_present))];
            let hit = lookup(&fixture, read_present, &files);
            let unrecoverable = fixture.family2 && write_present && !read_present;
            let expected = !unrecoverable;
            if hit != expected {
                failures.push(format!(
                    "{} write_raw_present={write_present} read_raw_present={read_present}",
                    fixture.kind
                ));
            }
        }
    }
    assert!(failures.is_empty(), "{failures:?}");
}

#[test]
fn d2_ca_state3_unrecoverable_for_family2_is_a_clean_miss() {
    for fixture in fixtures().into_iter().filter(|f| f.family2) {
        let files = vec![cover_file(&raw_path(&fixture))];
        assert!(
            lookup(&fixture, true, &files),
            "the historical raw-key cover must really exist"
        );
        assert!(
            !lookup(&fixture, false, &files),
            "{} must be a clean MISS when the historical raw filename is gone",
            fixture.kind
        );
    }
}

#[test]
fn d2_ca3_miss_is_side_effect_free() {
    for (index, fixture) in fixtures().into_iter().enumerate() {
        let files: Vec<(String, Vec<u8>)> = Vec::new();
        assert!(!lookup(&fixture, false, &files), "fixture {index} must miss");
        assert!(files.is_empty());
    }
}

#[test]
fn d2_r5_local_lookup_never_falls_back_to_provider() {
    let mut unknown = base_dto("unknown-provider");
    unknown.url = "https://dav.example.com/dav".to_string();
    assert!(read_legacy_cover_local(&unknown, &None, "", &Vec::new()).is_none());
    assert!(legacy_cover_keys("unknown-provider", "/a", &None, "/raw").is_none());
}

#[test]
fn addresses_that_name_no_origin_have_no_covers() {
    let mut lookup = base_dto("webdav");
    lookup.url = "not a url".to_string();
    let files = vec![cover_file("/books/demo.cbz")];
    assert!(read_legacy_cover_local(&lookup, &None, "", &files).is_none());
}
