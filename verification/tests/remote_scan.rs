use rch::remote_scan::failure::{
    cover_error_worth_escalating, cover_job_failure_decision, cover_open_reason, cover_page_reason,
    cover_reason, cover_reasons, cover_retryable_reasons, error_code, long_retry_is_retryable,
    long_retry_not_before, provider_failure_code, retryable_provider_code, safe_malformed_code,
    CoverFailureDecision, COVER_REASON_BYTES_LIMIT, COVER_REASON_DECODE,
    COVER_REASON_DOCUMENT_OPEN, COVER_REASON_NATIVE_LIB_MISSING, COVER_REASON_PAGE_RENDER,
    COVER_REASON_PARTIAL_DECODE, COVER_REASON_PDF_BYTES_LIMIT, COVER_REASON_PIXELS,
    COVER_REASON_READ_BUDGET, COVER_REASON_SIZE_MISSING, LONG_RETRY_DELAY_MS,
};
use rch::remote_scan::fetch::{
    admit_cover_image, admit_dimensions, cover_cache_paths, cover_image_dimensions,
    cover_page_scan_limit, cover_quality_profile, cover_read_windows, cover_source_info,
    decode_failure, document_route, folder_image, parse_bool_setting, parse_cover_page,
    parse_cover_profile, plan_cover_fetch, require_range_reads, top_band, CoverImage,
    CoverSourceRow, FolderImageRow, PageScan, PageStep, ReadBudget, ReadStep, WindowFetch,
    WindowRead, WindowStep, COVER_FETCH_LIMIT_BYTES, COVER_HEAD_BYTES, COVER_HEAD_MAX_BYTES,
    COVER_PAGE_SCAN_LIMIT, COVER_PDF_MAX_BYTES, COVER_PDF_PAGE_SCAN_LIMIT,
    COVER_READ_BUDGET_MS, DEFAULT_COVER_PROFILE, REMOTE_COVER_HEIGHT, REMOTE_COVER_WIDTH,
};
use rch::remote_scan::job::{
    begin_handing_covers_on, check_scan_request, check_scan_root, compensation_session, consume_result,
    durable_scan_status, effective_scan_mode, finish_step, initial_scan_path,
    parse_initial_listing, persist_terminal, plan_scan, rehydrated_routes, scan_cover_key,
    scan_request, staged_cover_status, wants_initial_listing, Admission, FinishAction,
    FinishEvent, InitialListingEntry, RemoteScanMode, RemoteScanStatus, ScanJobs, StoredScan,
    StoredStatusRow,
};
use rch::remote_scan::model::{
    canonical_child_path, normalize_path, CoverJobState, RemoteAssetKind, RemoteScanError,
};
use rch::remote_scan::progress::{
    count_cover_jobs, durable_cover_progress, refresh_cover_progress, refresh_status_counts,
    CoverJobRow, DependencyRow, RemoteScanStatusDto, StoredCounts,
};
use rch::remote_scan::sink::{
    directory_checkpoint, enqueue_cover, stage_directory, CoverNext, CoverStep, StageNext,
    StageStep,
};
use rch::remote_scan::worker::{
    budget_identity, check_session_ready, cover_route_for_job, cover_worker_step,
    reconcile_report, remaining_jobs, session_token, wake_cover_worker_for_source, worker_owner,
    CompensationReport, CoverRoute, CoverWorkers, GapReport, WorkerAction, WorkerEvent,
};

fn png(width: u32, height: u32) -> Vec<u8> {
    let image = image::RgbaImage::from_fn(width, height, |x, y| {
        image::Rgba([(x % 251) as u8, (y % 241) as u8, ((x + y) % 239) as u8, 255])
    });
    let mut encoded = std::io::Cursor::new(Vec::new());
    image::DynamicImage::ImageRgba8(image)
        .write_to(&mut encoded, image::ImageFormat::Png)
        .unwrap();
    encoded.into_inner()
}

fn decision(error: &RemoteScanError, attempt: i64) -> CoverFailureDecision {
    cover_job_failure_decision(error, attempt)
}

// ------------------------------------------------------------------
// Paths and modes
// ------------------------------------------------------------------

#[test]
fn initial_scan_path_preserves_configured_root_and_defaults_to_root() {
    assert_eq!(initial_scan_path("/books"), "/books");
    assert_eq!(initial_scan_path("books"), "/books");
    assert_eq!(initial_scan_path(""), "/");
    assert_eq!(initial_scan_path("/"), "/");
}

#[test]
fn canonical_paths_have_single_slashes() {
    assert_eq!(normalize_path("//a///b/"), "/a/b");
    assert_eq!(canonical_child_path("/", "a"), "/a");
    assert_eq!(canonical_child_path("/a", "\\b/"), "/a/b");
}

#[test]
fn failed_persisted_scan_forces_a_new_full_scan() {
    assert_eq!(effective_scan_mode("incremental", None, false, false), "full");
    assert_eq!(
        effective_scan_mode("incremental", Some("Failed"), true, false),
        "full"
    );
    assert_eq!(
        effective_scan_mode("incremental", Some("Cancelled"), true, false),
        "full"
    );
    assert_eq!(
        effective_scan_mode("incremental", Some("Succeeded"), true, false),
        "incremental"
    );
    assert_eq!(
        effective_scan_mode("incremental", Some("Running"), true, false),
        "full"
    );
    assert_eq!(
        effective_scan_mode("incremental", Some("Failed"), true, true),
        "full"
    );
}

#[test]
fn successful_legacy_state_without_full_baseline_forces_full_scan() {
    assert_eq!(
        effective_scan_mode("incremental", Some("Succeeded"), false, false),
        "full"
    );
    assert_eq!(
        effective_scan_mode("full", Some("Succeeded"), false, false),
        "full"
    );
}

// ------------------------------------------------------------------
// Settings and selections
// ------------------------------------------------------------------

#[test]
fn remote_cover_setting_defaults_on_and_accepts_persisted_boolean_values() {
    assert!(parse_bool_setting(None));
    assert!(parse_bool_setting(Some("true".into())));
    assert!(parse_bool_setting(Some("1".into())));
    assert!(parse_bool_setting(Some("\"true\"".into())));
    assert!(!parse_bool_setting(Some("false".into())));
    assert!(!parse_bool_setting(Some("0".into())));
    assert!(!parse_bool_setting(Some("\"false\"".into())));
    assert!(parse_bool_setting(Some("unexpected".into())));
}

#[test]
fn scan_cover_profile_follows_cover_quality_setting() {
    assert_eq!(cover_quality_profile(Some("low".into())), "170x240@1");
    assert_eq!(cover_quality_profile(Some("high".into())), "510x720@1");
    assert_eq!(
        cover_quality_profile(Some("medium".into())),
        DEFAULT_COVER_PROFILE
    );
    assert_eq!(cover_quality_profile(None), DEFAULT_COVER_PROFILE);
}

#[test]
fn profiles_and_pages_are_read_from_their_texts() {
    assert_eq!(parse_cover_profile("170x240@1"), (170, 240));
    assert_eq!(parse_cover_profile("170x0@1"), (340, 480));
    assert_eq!(parse_cover_profile("nonsense"), (340, 480));
    assert_eq!(parse_cover_page("default"), 0);
    assert_eq!(parse_cover_page("page:7|crop:|asset:"), 7);
}

#[test]
fn opaque_provider_cover_cache_keeps_a_provider_id_alias() {
    assert_eq!(
        cover_cache_paths("/series/book.cbz", Some("opaque-fid".into())),
        vec!["/series/book.cbz", "opaque-fid"]
    );
    assert_eq!(
        cover_cache_paths("/series/book.cbz", Some("/series/book.cbz".into())),
        vec!["/series/book.cbz"]
    );
}

// ------------------------------------------------------------------
// Reading covers
// ------------------------------------------------------------------

#[test]
fn range_unavailable_remains_placeholder_without_whole_book_fallback() {
    assert_eq!(
        require_range_reads(false).unwrap_err(),
        RemoteScanError::RangeUnavailable
    );
    assert!(require_range_reads(true).is_ok());
}

#[test]
fn cover_window_ladder_is_bounded_and_never_gives_up_early() {
    let small = 8 * 1024 * 1024;
    assert_eq!(cover_read_windows(small), Some(vec![small]));

    let medium = 40 * 1024 * 1024;
    assert_eq!(
        cover_read_windows(medium),
        Some(vec![COVER_HEAD_BYTES, medium])
    );

    let large = 100 * 1024 * 1024;
    assert_eq!(
        cover_read_windows(large),
        Some(vec![COVER_HEAD_BYTES, COVER_HEAD_MAX_BYTES, large])
    );

    assert_eq!(
        cover_read_windows(COVER_FETCH_LIMIT_BYTES),
        Some(vec![
            COVER_HEAD_BYTES,
            COVER_HEAD_MAX_BYTES,
            COVER_FETCH_LIMIT_BYTES,
        ])
    );
    assert_eq!(cover_read_windows(COVER_FETCH_LIMIT_BYTES + 1), None);
    assert_eq!(cover_read_windows(0), None);
}

#[test]
fn long_strip_cover_takes_the_top_band_only() {
    assert_eq!(top_band(800, 1200, 340, 480), None);

    let (part, whole) = top_band(800, 20_000, 340, 480).unwrap();
    let h = part as f64 / whole as f64;
    let expected = (480.0 / 340.0) / (20_000.0 / 800.0);
    let difference: f64 = h - expected;
    assert!(
        difference.abs() < 1e-9,
        "band height must match the cover aspect"
    );
    assert!(h < 0.06, "the band must come from the top, not the middle");

    assert_eq!(top_band(0, 20_000, 340, 480), None);
}

#[test]
fn oversized_single_image_is_rejected_with_a_specific_reason_without_reading() {
    let oversized = COVER_FETCH_LIMIT_BYTES + 1;
    let outcome = plan_cover_fetch(
        "/opaque-image",
        "huge.jpg",
        Some(oversized),
        "fp",
        RemoteAssetKind::ImageFile,
        Some(CoverImage {
            path: "/opaque-image".into(),
            size: Some(oversized),
            fingerprint: "fp".into(),
        }),
    );
    let error = match outcome {
        Ok(_) => panic!("too large a cover must be refused"),
        Err(error) => error,
    };
    assert_eq!(error_code(&error), COVER_REASON_BYTES_LIMIT);
}

#[test]
fn cover_plans_name_what_is_missing() {
    let no_image = plan_cover_fetch("/f", "f", None, "fp", RemoteAssetKind::ImageFolder, None);
    assert_eq!(no_image.err().unwrap(), RemoteScanError::Unsupported);
    let no_size = plan_cover_fetch("/b.cbz", "b.cbz", None, "fp", RemoteAssetKind::ArchiveFile, None);
    assert_eq!(error_code(&no_size.err().unwrap()), COVER_REASON_SIZE_MISSING);
    let pdf = plan_cover_fetch(
        "/b.PDF",
        "B.PDF",
        Some(COVER_PDF_MAX_BYTES + 1),
        "fp",
        RemoteAssetKind::ArchiveFile,
        None,
    );
    assert_eq!(error_code(&pdf.err().unwrap()), COVER_REASON_PDF_BYTES_LIMIT);
    let plan = plan_cover_fetch(
        "/b.cbz",
        "b.cbz",
        Some(10),
        "fp",
        RemoteAssetKind::ArchiveFile,
        None,
    )
    .ok()
    .unwrap();
    assert!(plan.is_archive && plan.windows.is_empty());
    assert_eq!((plan.read_path.as_str(), plan.read_size), ("/b.cbz", 10));
}

#[test]
fn documents_are_opened_by_their_names() {
    let pdf = document_route("A.PDF");
    assert_eq!((pdf.asset_kind, pdf.fast_path), ("pdf", false));
    assert_eq!(pdf.scan_limit, COVER_PDF_PAGE_SCAN_LIMIT);
    let cbz = document_route("A.CBZ");
    assert_eq!((cbz.asset_kind, cbz.fast_path), ("archive", true));
    assert_eq!(document_route("a.mobi").fast_path, false);
}

#[test]
fn truncated_window_escalates_once_and_reuses_the_prefix() {
    let full = png(400, 800);
    let first_window = 512_u64;
    assert!(
        full.len() as u64 > first_window + 1024,
        "fixture must be large enough for the first window to truncate it"
    );
    let mut fetch = WindowFetch::new(full.len() as u64, vec![first_window, full.len() as u64]);
    let mut buffer: Vec<u8> = Vec::new();
    let mut requests: Vec<(u64, u64)> = Vec::new();
    let mut decoded = false;
    for _ in 0..4 {
        match fetch.next() {
            WindowStep::Read { offset, length } => {
                requests.push((offset, length));
                let from = offset as usize;
                let to = (from + length as usize).min(full.len());
                buffer.extend_from_slice(&full[from..to]);
                match fetch.received((to - from) as u64) {
                    WindowRead::Decode { truncated } => {
                        if image::load_from_memory(&buffer).is_ok() {
                            decoded = true;
                            break;
                        }
                        assert!(fetch.decode_failed(decode_failure(truncated)).is_none());
                    }
                    WindowRead::Stop(_) => panic!("bytes were received"),
                }
            }
            WindowStep::Decode => panic!("the first window does not hold the file"),
            WindowStep::Stop(_) => panic!("the last window holds the whole file"),
        }
    }
    assert!(decoded);
    assert_eq!(requests.len(), 2, "must escalate exactly once");
    assert_eq!(requests[0], (0, first_window));
    assert_eq!(
        requests[1],
        (first_window, full.len() as u64 - first_window),
        "escalation must continue from the prefix instead of re-reading the file"
    );
}

fn drawn(bytes: &Vec<u8>) -> image::RgbaImage {
    admit_cover_image(bytes).unwrap();
    let page = image::load_from_memory(bytes).unwrap();
    let filter = image::imageops::FilterType::Triangle;
    page.resize_exact(REMOTE_COVER_WIDTH, REMOTE_COVER_HEIGHT, filter).to_rgba8()
}

#[test]
fn archive_cover_fetch_decodes_a_page_instead_of_returning_zip_bytes() {
    let image = image::RgbaImage::from_pixel(3, 4, image::Rgba([20, 40, 60, 255]));
    let mut image_bytes = std::io::Cursor::new(Vec::new());
    image::DynamicImage::ImageRgba8(image)
        .write_to(&mut image_bytes, image::ImageFormat::Png)
        .unwrap();
    let page = image_bytes.into_inner();
    let mut writer = zip::ZipWriter::new(std::io::Cursor::new(Vec::new()));
    writer.start_file("page1.png", zip::write::SimpleFileOptions::default()).unwrap();
    std::io::Write::write_all(&mut writer, &page).unwrap();
    let archive = writer.finish().unwrap().into_inner();
    let archive_len = archive.len() as u64;

    let kind = RemoteAssetKind::ArchiveFile;
    let plan = plan_cover_fetch("/opaque-fid", "book.cbz", Some(archive_len), "fp", kind, None)
        .ok()
        .unwrap();
    assert!(plan.is_archive && plan.windows.is_empty());
    assert_eq!((plan.read_path.as_str(), plan.read_size), ("/opaque-fid", archive_len));
    assert!(document_route("book.cbz").fast_path);

    let mut budget = ReadBudget::new(plan.read_size);
    let mut read: Vec<u8> = Vec::new();
    loop {
        match budget.plan(read.len() as u64, 64, 0) {
            ReadStep::Nothing => break,
            ReadStep::Refused(text) => panic!("{text}"),
            ReadStep::Fetch { length } => {
                let from = read.len();
                read.extend_from_slice(&archive[from..from + length as usize]);
                budget.record(length, length).unwrap();
            }
        }
    }
    assert_eq!(read, archive);
    assert!(admit_cover_image(&read).is_err(), "an archive is no picture");

    let mut opened = zip::ZipArchive::new(std::io::Cursor::new(read)).unwrap();
    let mut scan = PageScan::new(0, opened.len() as u32, document_route("book.cbz").scan_limit);
    let shown = match scan.next() {
        PageStep::Try(at) => {
            let mut bytes = Vec::new();
            let mut entry = opened.by_index(at as usize).unwrap();
            std::io::Read::read_to_end(&mut entry, &mut bytes).unwrap();
            drawn(&bytes)
        }
        PageStep::Stop(_) => panic!("the archive has a page"),
    };
    assert_eq!(shown.dimensions(), (340, 480));
    assert_eq!(shown.into_raw().len(), 340 * 480 * 4);
    assert!(scan.decode_failed(decode_failure(false)).is_none());
}

#[test]
fn image_folder_cover_fetch_reads_the_first_image_entry() {
    let image = image::RgbaImage::from_pixel(5, 6, image::Rgba([120, 80, 40, 255]));
    let mut image_bytes = std::io::Cursor::new(Vec::new());
    image::DynamicImage::ImageRgba8(image)
        .write_to(&mut image_bytes, image::ImageFormat::Png)
        .unwrap();
    let image_bytes = image_bytes.into_inner();
    let image_len = image_bytes.len() as u64;
    let first = CoverImage {
        path: "/folder/page1.png".into(),
        size: Some(image_len),
        fingerprint: "page-fp".into(),
    };
    let kind = RemoteAssetKind::ImageFolder;
    let plan = plan_cover_fetch("/folder", "folder", None, "folder-fp", kind, Some(first))
        .ok()
        .unwrap();
    assert_eq!(plan.read_path, "/folder/page1.png");
    assert_eq!((plan.read_fingerprint.as_str(), plan.is_archive), ("page-fp", false));
    let mut fetch = WindowFetch::new(plan.read_size, plan.windows);
    let mut buffer: Vec<u8> = Vec::new();
    match fetch.next() {
        WindowStep::Read { offset, length } => {
            let (from, to) = (offset as usize, (offset + length) as usize);
            buffer.extend_from_slice(&image_bytes[from..to]);
            assert!(matches!(
                fetch.received(length),
                WindowRead::Decode { truncated: false }
            ));
        }
        _ => panic!("the image is read first"),
    }
    assert_eq!(admit_cover_image(&buffer).ok(), Some((5, 6)));
    assert_eq!(drawn(&buffer).dimensions(), (340, 480));
}

#[test]
fn only_truncated_buffers_are_worth_a_larger_window() {
    assert!(cover_error_worth_escalating(&decode_failure(true)));
    assert!(!cover_error_worth_escalating(&decode_failure(false)));
    let mut fetch = WindowFetch::new(10, vec![10]);
    let back = fetch.decode_failed(decode_failure(false));
    assert_eq!(error_code(&back.unwrap()), COVER_REASON_DECODE);
}

#[test]
fn adapter_byte_source_stops_at_the_read_budget() {
    let budget = 64 * 1024;
    let mut source = ReadBudget::with_budget(512 * 1024 * 1024, budget);
    let mut calls = 0;
    let mut offset = 0u64;
    let mut error = None;
    for _ in 0..1000 {
        match source.plan(offset, 16 * 1024, 0) {
            ReadStep::Fetch { length } => {
                calls += 1;
                source.record(length, length).unwrap();
                offset += length;
            }
            ReadStep::Nothing => panic!("the archive goes on"),
            ReadStep::Refused(text) => {
                error = Some(text);
                break;
            }
        }
    }
    let error = error.expect("a spent budget must be reported");
    assert!(error.contains("cover-read-budget"));
    assert!(calls <= 8, "at most a few reads, not {calls}");
    let mapped = cover_open_reason(&error);
    assert_eq!(error_code(&mapped), COVER_REASON_READ_BUDGET);
}

#[test]
fn read_budget_ends_at_the_end_of_the_archive_and_in_time() {
    let mut budget = ReadBudget::new(100);
    assert!(matches!(budget.plan(100, 1, 0), ReadStep::Nothing));
    assert!(matches!(budget.plan(0, 0, 0), ReadStep::Nothing));
    assert!(matches!(
        budget.plan(90, 50, 0),
        ReadStep::Fetch { length: 10 }
    ));
    assert!(matches!(
        budget.plan(0, 1, COVER_READ_BUDGET_MS + 1),
        ReadStep::Refused(_)
    ));
    assert_eq!(
        budget.record(5, 6),
        Err("remote range response exceeded requested length".to_string())
    );
}

#[test]
fn image_headers_declare_their_dimensions() {
    let bytes = png(5, 6);
    assert_eq!(cover_image_dimensions(&bytes), Ok((5, 6)));
    assert_eq!(admit_cover_image(&bytes), Ok((5, 6)));
    let text = b"not an image".to_vec();
    assert_eq!(
        error_code(&admit_cover_image(&text).unwrap_err()),
        COVER_REASON_DECODE
    );
    assert_eq!(admit_dimensions((8000, 8000)), Ok((8000, 8000)));
    assert_eq!(
        error_code(&admit_dimensions((8001, 8000)).unwrap_err()),
        COVER_REASON_PIXELS
    );
}

#[test]
fn cover_falls_back_to_the_first_decodable_page() {
    let pages: Vec<Vec<u8>> = vec![
        b"<!DOCTYPE html><html>not an image</html>".to_vec(),
        b"BM\x36\x00\x00\x00".to_vec(),
        png(4, 6),
    ];
    let mut scan = PageScan::new(0, pages.len() as u32, COVER_PAGE_SCAN_LIMIT);
    let mut found = None;
    for _ in 0..8 {
        match scan.next() {
            PageStep::Try(page) => match admit_cover_image(&pages[page as usize]) {
                Ok(size) => {
                    found = Some((page, size));
                    break;
                }
                Err(error) => assert!(scan.decode_failed(error).is_none()),
            },
            PageStep::Stop(_) => break,
        }
    }
    assert_eq!(found, Some((2, (4, 6))));

    let broken: Vec<Vec<u8>> = vec![b"<html>".to_vec(), b"not an image".to_vec()];
    let mut scan = PageScan::new(0, broken.len() as u32, COVER_PAGE_SCAN_LIMIT);
    let mut stopped = None;
    for _ in 0..8 {
        match scan.next() {
            PageStep::Try(page) => {
                let error = admit_cover_image(&broken[page as usize]).unwrap_err();
                assert!(scan.decode_failed(error).is_none());
            }
            PageStep::Stop(error) => {
                stopped = Some(error);
                break;
            }
        }
    }
    assert_eq!(error_code(&stopped.unwrap()), COVER_REASON_DECODE);
}

#[test]
fn a_page_that_is_too_large_ends_the_search() {
    let mut scan = PageScan::new(0, 3, COVER_PAGE_SCAN_LIMIT);
    let back = scan.decode_failed(cover_reason(COVER_REASON_PIXELS));
    assert_eq!(error_code(&back.unwrap()), COVER_REASON_PIXELS);
    assert_eq!(
        error_code(&scan.render_failed("cover-read-budget exceeded")),
        COVER_REASON_READ_BUDGET
    );
    assert!(matches!(
        PageScan::new(4, 3, 3).next(),
        PageStep::Stop(error) if error_code(&error) == COVER_REASON_PAGE_RENDER
    ));
}

#[test]
fn pdf_cover_scan_limit_is_tighter_than_other_archives() {
    assert_eq!(cover_page_scan_limit("pdf"), COVER_PDF_PAGE_SCAN_LIMIT);
    assert_eq!(cover_page_scan_limit("archive"), COVER_PAGE_SCAN_LIMIT);
    assert!(COVER_PDF_PAGE_SCAN_LIMIT < COVER_PAGE_SCAN_LIMIT);
}

#[test]
fn folders_show_their_pages_in_natural_order() {
    let image = |name: &str, size: i64| FolderImageRow {
        path: format!("/f/{name}"),
        name: name.into(),
        size: Some(size),
        fingerprint: Some(format!("fp-{name}")),
    };
    let images = vec![image("10.jpg", 3), image("2.jpg", 2), image("1.jpg", 1)];
    assert_eq!(folder_image(&images, 0).unwrap().path, "/f/1.jpg");
    assert_eq!(folder_image(&images, 1).unwrap().path, "/f/2.jpg");
    assert_eq!(folder_image(&images, 2).unwrap().size, Some(3));
    let row = CoverSourceRow {
        name: "f".into(),
        asset_kind: "ImageFolder".into(),
        size: None,
        fingerprint: Some("fp".into()),
    };
    let info = cover_source_info(None, Some(row), Vec::new(), images, 1).unwrap();
    assert_eq!(info.asset_kind, RemoteAssetKind::ImageFolder);
    assert_eq!(info.image_path.unwrap().path, "/f/2.jpg");
    assert!(cover_source_info(None, None, Vec::new(), Vec::new(), 0).is_none());
}

// ------------------------------------------------------------------
// Failures
// ------------------------------------------------------------------

#[test]
fn cover_failure_codes_stay_inside_the_safe_allowlist() {
    for code in cover_reasons() {
        assert_eq!(safe_malformed_code(code), code);
    }
    assert_eq!(safe_malformed_code("HTTP 403 token=secret"), "malformed");
    assert_eq!(
        error_code(&RemoteScanError::MalformedResponse(
            "https://cdn.example.com/x?sign=abc".into()
        )),
        "malformed"
    );
    assert_eq!(
        error_code(&cover_reason(COVER_REASON_PARTIAL_DECODE)),
        COVER_REASON_PARTIAL_DECODE
    );
}

#[test]
fn archive_open_failures_separate_missing_native_lib_from_document_errors() {
    let missing = "无法加载 pdfium 动态库，请将 pdfium.dll 放在 RCH.exe 同目录。bind failed";
    assert_eq!(
        error_code(&cover_open_reason(missing)),
        COVER_REASON_NATIVE_LIB_MISSING
    );

    let broken = "invalid zip directory: offset out of range";
    assert_eq!(
        error_code(&cover_open_reason(broken)),
        COVER_REASON_DOCUMENT_OPEN
    );

    let classified = format!("{:?}", cover_open_reason(missing));
    assert!(!classified.contains("放在 RCH.exe") && !classified.contains("bind failed"));
}

#[test]
fn pages_that_cannot_be_had_are_told_apart() {
    assert_eq!(
        error_code(&cover_page_reason("Cover-Read-Budget exceeded: 1/1 bytes")),
        COVER_REASON_READ_BUDGET
    );
    assert_eq!(
        error_code(&cover_page_reason("bad page")),
        COVER_REASON_PAGE_RENDER
    );
}

#[test]
fn fixable_cover_failures_earn_a_long_retry_episode() {
    for code in cover_retryable_reasons() {
        assert!(cover_reasons().contains(&code));
    }
    for (message, expected) in [
        ("429 too many requests", "provider:rateLimited"),
        ("request timed out", "provider:timeout"),
        ("401 unauthorized", "provider:unauthorized"),
        ("403 Forbidden", "provider:forbidden"),
    ] {
        assert_eq!(provider_failure_code(message), expected);
        assert!(retryable_provider_code(expected));
    }

    for code in cover_retryable_reasons() {
        assert!(long_retry_is_retryable(&cover_reason(code)), "{code}");
    }
    assert!(long_retry_is_retryable(&RemoteScanError::Provider(
        "429 too many requests".into()
    )));
    assert!(long_retry_is_retryable(&RemoteScanError::Provider(
        "request timed out".into()
    )));
    assert!(long_retry_is_retryable(&RemoteScanError::TransientNetwork(
        "network".into()
    )));

    for terminal in [
        COVER_REASON_DOCUMENT_OPEN,
        COVER_REASON_PAGE_RENDER,
        COVER_REASON_DECODE,
        COVER_REASON_SIZE_MISSING,
    ] {
        assert!(!long_retry_is_retryable(&cover_reason(terminal)), "{terminal}");
    }
    assert!(!long_retry_is_retryable(&RemoteScanError::Provider(
        "404 not found".into()
    )));
    assert!(!long_retry_is_retryable(&RemoteScanError::Unsupported));
}

#[test]
fn a_long_retry_is_due_after_its_delay() {
    let error = RemoteScanError::TransientNetwork("x".into());
    assert_eq!(
        long_retry_not_before(&error, CoverJobState::Failed, 1_000),
        Some(1_000 + LONG_RETRY_DELAY_MS)
    );
    assert_eq!(
        long_retry_not_before(&error, CoverJobState::RetryWait, 1_000),
        None
    );
    assert_eq!(
        long_retry_not_before(&RemoteScanError::Unsupported, CoverJobState::Failed, 1_000),
        None
    );
}

#[test]
fn rg_a_decision_rate_limited_prefers_server_retry_after() {
    let d = decision(
        &RemoteScanError::RateLimited {
            retry_after_ms: Some(7_000),
        },
        2,
    );
    assert_eq!(d.state, CoverJobState::RetryWait);
    assert_eq!(d.retry_after_ms, Some(7_000), "server value must win over 4s");
}

#[test]
fn rg_a_decision_rate_limited_without_retry_after_uses_exponential() {
    for (attempt, expected_ms) in [(0_i64, 1_000_u64), (1, 2_000), (2, 4_000)] {
        let d = decision(
            &RemoteScanError::RateLimited {
                retry_after_ms: None,
            },
            attempt,
        );
        assert_eq!(d.state, CoverJobState::RetryWait);
        assert_eq!(d.retry_after_ms, Some(expected_ms), "attempt {attempt}");
    }
}

#[test]
fn rg_a_decision_transient_uses_the_same_bounded_exponential() {
    let d = decision(&RemoteScanError::TransientNetwork("x".into()), 1);
    assert_eq!(d.state, CoverJobState::RetryWait);
    assert_eq!(d.retry_after_ms, Some(2_000));
    let r = decision(
        &RemoteScanError::RateLimited {
            retry_after_ms: None,
        },
        1,
    );
    assert_eq!(d.retry_after_ms, r.retry_after_ms);
}

#[test]
fn rg_a_decision_non_retryable_never_enters_retry_bucket() {
    let forbidden = decision(&RemoteScanError::Forbidden, 0);
    assert_eq!(forbidden.state, CoverJobState::Blocked);
    assert_eq!(forbidden.retry_after_ms, None);

    let unauthorized = decision(&RemoteScanError::Unauthorized, 0);
    assert_eq!(unauthorized.state, CoverJobState::Blocked);
    assert_eq!(unauthorized.retry_after_ms, None);

    let method_not_allowed = decision(
        &RemoteScanError::HttpStatus {
            stage: "range_probe".into(),
            status: 405,
        },
        0,
    );
    assert_eq!(method_not_allowed.state, CoverJobState::Failed);
    assert_eq!(method_not_allowed.retry_after_ms, None);

    for state in [
        forbidden.state,
        unauthorized.state,
        method_not_allowed.state,
    ] {
        assert_ne!(state, CoverJobState::RetryWait);
    }
}

#[test]
fn rg_a_decision_reachable_delays_stay_within_the_defensive_cap() {
    for attempt in [0_i64, 1, 2] {
        let d = decision(&RemoteScanError::TransientNetwork("x".into()), attempt);
        let delay = d
            .retry_after_ms
            .expect("reachable attempts must carry a delay");
        assert!(
            delay <= 1024 * 1_000,
            "delay {delay} must stay within the defensive cap"
        );
    }
    for attempt in [3_i64, 10, 11, 64] {
        let d = decision(&RemoteScanError::TransientNetwork("x".into()), attempt);
        assert_eq!(
            d.retry_after_ms, None,
            "attempt {attempt} must be terminal (cap must not be reachable)"
        );
        assert_eq!(d.state, CoverJobState::Failed);
    }
}

#[test]
fn rg_a_decision_attempt_three_is_terminal_and_unchanged() {
    let transient = decision(&RemoteScanError::TransientNetwork("x".into()), 3);
    assert_eq!(transient.state, CoverJobState::Failed);
    assert_eq!(transient.retry_after_ms, None);

    let limited = decision(
        &RemoteScanError::RateLimited {
            retry_after_ms: Some(9_000),
        },
        3,
    );
    assert_eq!(
        limited.state,
        CoverJobState::Failed,
        "even a server Retry-After must not extend the short budget"
    );
    assert_eq!(limited.retry_after_ms, None);
}

#[test]
fn rg_a_decision_other_categories_map_as_before() {
    assert_eq!(
        decision(&RemoteScanError::RangeUnavailable, 0).state,
        CoverJobState::Unsupported
    );
    assert_eq!(
        decision(&RemoteScanError::Unsupported, 0).state,
        CoverJobState::Unsupported
    );
    assert_eq!(
        decision(&RemoteScanError::Cancelled, 0).state,
        CoverJobState::Cancelled
    );
}

#[test]
fn rg_a_decision_is_pure_and_deterministic() {
    let error = RemoteScanError::RateLimited {
        retry_after_ms: None,
    };
    let a = decision(&error, 2);
    let b = decision(&error, 2);
    assert_eq!(a.state, b.state);
    assert_eq!(a.error_code, b.error_code);
    assert_eq!(a.retry_after_ms, b.retry_after_ms);
    let negative = decision(&error, -5);
    assert_eq!(negative.retry_after_ms, Some(1_000));
}

#[test]
fn classifies_safely_and_never_leaks_provider_text() {
    assert_eq!(provider_failure_code("HTTP 404 Not Found"), "provider:notFound");
    assert_eq!(provider_failure_code("403 Forbidden"), "provider:forbidden");
    assert_eq!(
        provider_failure_code("429 too many requests"),
        "provider:rateLimited"
    );
    assert_eq!(provider_failure_code("request timed out"), "provider:timeout");
    assert_eq!(
        provider_failure_code("image decode failed"),
        "provider:decodeFailed"
    );
    assert_eq!(provider_failure_code("封面缺失"), "provider:noCover");
    assert_eq!(
        provider_failure_code("https://secret.example/x?token=abc failed"),
        "provider:other"
    );
}

#[test]
fn every_error_has_its_stored_code() {
    for (error, code) in [
        (RemoteScanError::Unauthorized, "authExpired"),
        (RemoteScanError::Forbidden, "forbidden"),
        (RemoteScanError::NotFound, "notFound"),
        (
            RemoteScanError::RateLimited {
                retry_after_ms: None,
            },
            "rateLimited",
        ),
        (RemoteScanError::TransientNetwork("x".into()), "transient"),
        (RemoteScanError::RangeUnavailable, "rangeUnavailable"),
        (RemoteScanError::Cancelled, "cancelled"),
        (RemoteScanError::Unsupported, "unsupported"),
        (RemoteScanError::Io("x".into()), "storage"),
    ] {
        assert_eq!(error_code(&error), code);
    }
}

// ------------------------------------------------------------------
// Progress
// ------------------------------------------------------------------

#[test]
fn durable_progress_counts_live_canonical_dependencies_only() {
    let row = |key: &str, status: &str, live: bool| DependencyRow {
        book_key: key.into(),
        status: status.into(),
        live,
    };
    let rows = vec![
        row("quark|s1|/live", "partial_ready", true),
        row("quark|s1|/live", "cache_alias", true),
        row("quark|s1|/gone", "placeholder", false),
    ];
    assert_eq!(durable_cover_progress(&rows), (1, 1));
}

fn cover_job(asset: &str, state: &str, updated_at: i64) -> CoverJobRow {
    CoverJobRow {
        asset_id: asset.into(),
        state: state.into(),
        updated_at,
        content_revision: "c".into(),
        selection_revision: "default".into(),
        profile: "340x480@1".into(),
        error_code: String::new(),
    }
}

#[test]
fn only_the_current_job_of_an_asset_is_counted() {
    let rows = vec![
        cover_job("a", "failed", 1),
        cover_job("a", "ready", 2),
        cover_job("b", "pending", 1),
        cover_job("c", "no such state", 1),
    ];
    let (counts, ready, distinct) = count_cover_jobs(&rows);
    assert_eq!((counts.ready, counts.pending), (1, 1));
    assert_eq!((counts.failed, counts.other), (0, 1));
    assert_eq!(ready.len(), 1);
    assert_eq!(ready[0].asset_id, "a");
    assert_eq!(distinct, 3);
}

fn running_status() -> RemoteScanStatusDto {
    RemoteScanStatusDto::begin(
        "s".into(),
        "running".into(),
        "full".into(),
        3,
        None,
        None,
        None,
    )
}

#[test]
fn discovery_is_complete_only_after_every_listing() {
    let stored = |completed: i64| StoredCounts {
        published_directories: 2,
        staged_directories: 1,
        completed_directories: completed,
        indexed_books: 4,
        staged_books: 0,
        jobs: vec![cover_job("a", "ready", 1)],
        view_revision: 9,
    };
    let mut status = running_status();
    refresh_status_counts(&mut status, stored(2));
    assert!(!status.discovery_complete);
    assert_eq!(status.listing_phase, "scanning");
    status.status = "complete".into();
    refresh_status_counts(&mut status, stored(1));
    assert!(!status.discovery_complete);
    refresh_status_counts(&mut status, stored(2));
    assert!(status.discovery_complete);
    assert_eq!((status.total, status.processed), (4, 1));
    assert_eq!(status.view_revision, 9);
}

#[test]
fn staged_books_stand_for_pending_ones() {
    let mut status = running_status();
    let inputs = refresh_status_counts(
        &mut status,
        StoredCounts {
            published_directories: 0,
            staged_directories: 1,
            completed_directories: 0,
            indexed_books: 0,
            staged_books: 5,
            jobs: Vec::new(),
            view_revision: 0,
        },
    );
    assert_eq!(status.pending_books, 5);
    assert_eq!(inputs.staged_pending, Some(5));
}

#[test]
fn staged_covers_raise_the_total_until_books_are_counted() {
    let counts = |indexed_books: i64, staged_books: u64| StoredCounts {
        published_directories: 0,
        staged_directories: 0,
        completed_directories: 0,
        indexed_books,
        staged_books,
        jobs: Vec::new(),
        view_revision: 0,
    };
    let mut status = running_status();
    status.total = 3;
    refresh_cover_progress(&mut status, Some(7), counts(0, 0));
    assert_eq!(status.total, 7);
    refresh_cover_progress(&mut status, Some(2), counts(0, 0));
    assert_eq!(status.total, 7);
    refresh_cover_progress(&mut status, None, counts(4, 2));
    assert_eq!((status.total, status.discovered_books), (4, 4));
    status.processed = 3;
    status.error_code = Some("x".into());
    begin_handing_covers_on(&mut status);
    assert_eq!((status.processed, status.error_code), (0, None));
}

#[test]
fn canonical_paths_stay_as_they_are() {
    for path in ["", "/", "a", "//a///b/", "/漫画/卷 1", "./a"] {
        let once = normalize_path(path);
        assert_eq!(normalize_path(&once), once);
        assert_eq!(canonical_child_path(path, "x"), normalize_path(&format!("{once}/x")));
    }
    assert_eq!(canonical_child_path("/a/b", "/c/"), "/a/b/c");
    assert_eq!(canonical_child_path("/", ""), "/");
}

// ------------------------------------------------------------------
// Jobs
// ------------------------------------------------------------------

fn request(mode: &str) -> rch::remote_scan::job::StartConfig {
    scan_request("webdav".into(), "s".into(), 7, "books".into(), mode, true)
}

#[test]
fn requests_are_checked_before_anything_starts() {
    assert!(check_scan_request(&request("FULL")).is_ok());
    assert_eq!(
        check_scan_request(&request("partial")),
        Err("invalid scan mode".to_string())
    );
    let mut local = request("full");
    local.source_type = "smb".into();
    assert_eq!(
        check_scan_request(&local),
        Err("source is local-only".to_string())
    );
    assert_eq!(
        check_scan_root(None),
        Err("source proof unavailable".to_string())
    );
    assert_eq!(
        check_scan_root(Some(false)),
        Err("source root changed".to_string())
    );
    assert!(check_scan_root(Some(true)).is_ok());
}

#[test]
fn a_source_has_one_job_at_a_time() {
    let mut jobs = ScanJobs::new();
    assert!(matches!(
        jobs.answer_request("s", false),
        Admission::Proceed { recover: true }
    ));
    let config = request("incremental");
    let stored = StoredScan {
        generation: 4,
        checkpoint: Some("/x".into()),
        status: "Succeeded".into(),
    };
    let plan = plan_scan(&config, false, Some(stored), true);
    assert_eq!((plan.generation, plan.mode.as_str()), (5, "incremental"));
    assert!(plan.incremental && plan.force_recheck);
    assert_eq!(plan.root, "/books");
    let dto = jobs.enter(config, &plan);
    assert_eq!(dto.job_id, "remote-scan-1");
    assert_eq!(dto.status, "running");
    match jobs.answer_request("s", false) {
        Admission::Running(running) => assert_eq!(running.job_id, "remote-scan-1"),
        Admission::Proceed { .. } => panic!("the job runs"),
    }
    assert!(!jobs.jobs[0].cancelled);
    assert!(matches!(
        jobs.answer_request("s", true),
        Admission::Proceed { recover: false }
    ));
    assert!(jobs.jobs[0].cancelled);
}

#[test]
fn jobs_are_paused_cancelled_and_resumed_by_their_source() {
    let mut jobs = ScanJobs::new();
    assert_eq!(
        jobs.remote_scan_pause("s"),
        Err("scan job not found".to_string())
    );
    let plan = plan_scan(&request("full"), false, None, false);
    assert_eq!(plan.generation, 1);
    jobs.enter(request("full"), &plan);
    assert_eq!(jobs.remote_scan_pause("s"), Ok(0));
    assert_eq!(jobs.jobs[0].status.status, "paused");
    assert_eq!(jobs.jobs[0].status.error_code.as_deref(), Some("paused"));
    assert_eq!(jobs.remote_scan_cancel("s"), Ok(0));
    assert_eq!(jobs.jobs[0].status.status, "cancelled");
    assert_eq!(jobs.remote_scan_resume("s").ok().unwrap().session, 7);
    assert!(matches!(
        jobs.answer_request("s", false),
        Admission::Proceed { recover: false }
    ));
    assert_eq!(jobs.enter(request("full"), &plan).job_id, "remote-scan-2");
    assert_eq!(jobs.remote_scan_pause("s"), Ok(0));
    match jobs.answer_request("s", false) {
        Admission::Running(paused) => assert_eq!(paused.job_id, "remote-scan-2"),
        Admission::Proceed { .. } => panic!("a paused job answers by itself"),
    }
    assert!(jobs.remote_scan_resume("t").is_err());
}

#[test]
fn a_full_scan_is_complete_only_with_its_proof() {
    let covers = consume_result(true, false);
    let mut status = running_status();
    let ended = FinishEvent::Ended {
        failure: None,
        cancelled: false,
    };
    assert!(finish_step(&mut status, ended) == FinishAction::Publish);
    let published = FinishEvent::Published { ok: true };
    assert!(finish_step(&mut status, published) == FinishAction::ConsumeCovers);
    let consumed = FinishEvent::Consumed {
        covers,
        cancelled: false,
        now_ms: 5,
    };
    assert!(finish_step(&mut status, consumed) == FinishAction::RecordBaseline);
    assert_eq!(status.status, "running");
    let lost = FinishEvent::Baseline {
        recorded: false,
        covers,
        now_ms: 5,
    };
    assert!(finish_step(&mut status, lost) == FinishAction::Store);
    assert_eq!(status.error_code.as_deref(), Some("scanBaselineStorage"));
    let recorded = FinishEvent::Baseline {
        recorded: true,
        covers,
        now_ms: 5,
    };
    assert!(finish_step(&mut status, recorded) == FinishAction::Store);
    assert_eq!(status.status, "complete");
    assert_eq!(status.last_success_at, Some(5));
}

#[test]
fn what_is_not_published_is_discarded() {
    let mut status = running_status();
    let failed = FinishEvent::Ended {
        failure: Some(RemoteScanError::Forbidden),
        cancelled: false,
    };
    assert!(finish_step(&mut status, failed) == FinishAction::DiscardAndStore);
    assert_eq!(status.error_code.as_deref(), Some("forbidden"));
    let mut status = running_status();
    let lost = FinishEvent::Published { ok: false };
    assert!(finish_step(&mut status, lost) == FinishAction::DiscardAndStore);
    assert_eq!(status.error_code.as_deref(), Some("storage"));
    status.status = "paused".into();
    let ended = FinishEvent::Ended {
        failure: None,
        cancelled: true,
    };
    assert!(finish_step(&mut status, ended) == FinishAction::Leave);
    assert_eq!(status.status, "paused");
}

#[test]
fn covers_that_wait_are_named_in_the_result() {
    let mut status = running_status();
    status.mode = "incremental".into();
    let paused = FinishEvent::Consumed {
        covers: consume_result(false, false),
        cancelled: false,
        now_ms: 1,
    };
    assert!(finish_step(&mut status, paused) == FinishAction::Store);
    assert_eq!(status.error_code.as_deref(), Some("coverFetchPaused"));
    let failed = FinishEvent::Consumed {
        covers: consume_result(true, true),
        cancelled: false,
        now_ms: 1,
    };
    assert!(finish_step(&mut status, failed) == FinishAction::Store);
    assert_eq!(status.error_code.as_deref(), Some("coverStorage"));
    assert_eq!(staged_cover_status(Some(CoverJobState::Ready)), "partial_ready");
    assert_eq!(staged_cover_status(Some(CoverJobState::Failed)), "queued");
    assert_eq!(staged_cover_status(None), "queued");
}

#[test]
fn stored_scans_show_no_success_without_a_baseline() {
    let row = || StoredStatusRow {
        status: "Succeeded".into(),
        mode: "Incremental".into(),
        generation: 3,
        checkpoint: None,
        last_success_at: Some(8),
        error_code: None,
    };
    let shown = durable_scan_status("s".into(), row(), None, false, Some((4, 2)));
    assert_eq!(shown.status, "degraded");
    assert_eq!(shown.mode, "full");
    assert_eq!(shown.error_code.as_deref(), Some("fullScanRequired"));
    assert_eq!((shown.total, shown.processed), (0, 0));
    let shown = durable_scan_status("s".into(), row(), None, true, Some((4, 2)));
    assert_eq!(shown.status, "complete");
    assert_eq!(shown.mode, "incremental");
    assert_eq!((shown.total, shown.processed), (4, 2));
}

#[test]
fn terminal_states_are_stored_by_their_names() {
    let mut status = running_status();
    assert_eq!(persist_terminal(&status).status, RemoteScanStatus::Running);
    assert_eq!(compensation_session(&status, Some(4)), None);
    status.status = "complete".into();
    let state = persist_terminal(&status);
    assert_eq!(state.status, RemoteScanStatus::Succeeded);
    assert_eq!(state.mode, RemoteScanMode::Snapshot);
    assert_eq!(compensation_session(&status, Some(4)), Some(4));
    assert_eq!(compensation_session(&status, Some(0)), None);
    status.status = "degraded".into();
    assert_eq!(persist_terminal(&status).status, RemoteScanStatus::Failed);
}

#[test]
fn listings_of_callers_seed_a_new_scan_only() {
    assert!(wants_initial_listing(&Some("[]".into()), false));
    assert!(!wants_initial_listing(&Some("[]".into()), true));
    assert!(!wants_initial_listing(&Some("  ".into()), false));
    assert!(!wants_initial_listing(&None, false));
    let seeded = parse_initial_listing(&vec![InitialListingEntry {
        name: "a.cbz".into(),
        path: "fid".into(),
        logical_path: None,
        is_dir: false,
        size: Some(3),
        mtime: None,
        asset_kind: RemoteAssetKind::ArchiveFile,
    }]);
    assert_eq!(seeded[0].0.logical_path, "fid");
    assert_eq!(seeded[0].1, "fid");
}

#[test]
fn the_newest_route_of_a_path_counts() {
    let rows = vec![
        ("/a".to_string(), "new".to_string()),
        ("/b".to_string(), "b".to_string()),
        ("/a".to_string(), "old".to_string()),
    ];
    assert_eq!(rehydrated_routes(&rows), rows[..2].to_vec());
    let key = scan_cover_key("s".into(), "a".into(), "c".into(), "p".into());
    assert_eq!(key.selection_revision, "default");
}

// ------------------------------------------------------------------
// Taking in directories
// ------------------------------------------------------------------

#[test]
fn replaced_scans_write_nothing() {
    assert!(matches!(
        stage_directory(StageStep::Prove, Some(false)),
        StageNext::Stop(RemoteScanError::Cancelled)
    ));
    assert!(matches!(
        enqueue_cover(CoverStep::Prove, Some(false)),
        CoverNext::Stop(RemoteScanError::Cancelled)
    ));
}

#[test]
fn directories_are_staged_shown_and_remembered() {
    let mut step = StageStep::Prove;
    let mut done = vec![step];
    for _ in 0..8 {
        match stage_directory(step, Some(true)) {
            StageNext::Go(next) => {
                step = next;
                done.push(step);
            }
            StageNext::Done => break,
            StageNext::Stop(_) => panic!("no step failed"),
        }
    }
    assert_eq!(
        done,
        vec![
            StageStep::Prove,
            StageStep::Stage,
            StageStep::Preview,
            StageStep::Checkpoint
        ]
    );
    for (step, code) in [
        (StageStep::Prove, "source_proof_lookup_failed"),
        (StageStep::Stage, "manifest_commit_failed"),
        (StageStep::Preview, "preview_commit_failed"),
        (StageStep::Checkpoint, "checkpoint_commit_failed"),
    ] {
        match stage_directory(step, None) {
            StageNext::Stop(error) => assert_eq!(error, RemoteScanError::Io(code.into())),
            _ => panic!("{code}"),
        }
    }
    let state = directory_checkpoint("s".into(), 3, "a//b/", true);
    assert_eq!(state.checkpoint.as_deref(), Some("/a/b"));
    assert_eq!(state.mode, RemoteScanMode::Incremental);
}

#[test]
fn covers_are_queued_and_the_worker_is_woken() {
    let mut step = CoverStep::SourceType;
    let mut count = 1;
    let mut woken = false;
    for _ in 0..8 {
        match enqueue_cover(step, Some(true)) {
            CoverNext::Go(next) => {
                step = next;
                count += 1;
            }
            CoverNext::Wake => {
                woken = true;
                break;
            }
            CoverNext::Stop(_) => panic!("no step failed"),
        }
    }
    assert!(woken);
    assert_eq!((count, step), (5, CoverStep::Queue));
    for (step, code) in [
        (CoverStep::SourceType, "source_lookup_failed"),
        (CoverStep::Prove, "source_proof_lookup_failed"),
        (CoverStep::Stage, "cover_dependency_stage_failed"),
        (CoverStep::Fingerprint, "source_identity_lookup_failed"),
        (CoverStep::Queue, "cover_queue_commit_failed"),
    ] {
        match enqueue_cover(step, None) {
            CoverNext::Stop(error) => assert_eq!(error, RemoteScanError::Io(code.into())),
            _ => panic!("{code}"),
        }
    }
}

// ------------------------------------------------------------------
// Workers
// ------------------------------------------------------------------

#[test]
fn source_wake_drains_pending_without_duplicating_the_worker() {
    let mut workers = CoverWorkers::new();
    let key = workers.wake_remote_cover_worker("wake-a-source", 42);
    assert_eq!(key.as_deref(), Some("wake-a-source:42"));
    assert!(
        workers.wake_remote_cover_worker("wake-a-source", 42).is_none(),
        "no duplicate worker may be spawned by a second wake"
    );
}

#[test]
fn exited_worker_is_restarted_by_a_source_wake() {
    let mut workers = CoverWorkers::new();
    let key = workers.wake_remote_cover_worker("wake-b-source", 42).unwrap();
    workers.finished(&key);
    assert!(workers.wake_remote_cover_worker("wake-b-source", 42).is_some());
}

#[test]
fn pending_without_a_session_survives_until_a_session_is_attached() {
    assert_eq!(
        wake_cover_worker_for_source("wake-c-source", true, None),
        None,
        "without a session the coordinator must not spawn a worker"
    );
    assert_eq!(
        wake_cover_worker_for_source("wake-c-source", true, Some(42)),
        Some(("wake-c-source".to_string(), 42))
    );
    assert_eq!(wake_cover_worker_for_source(" ", true, Some(42)), None);
    assert_eq!(wake_cover_worker_for_source("s", false, Some(42)), None);
}

#[test]
fn repeated_source_wakes_do_not_duplicate_consumption() {
    let mut workers = CoverWorkers::new();
    let mut started = 0;
    for _ in 0..5 {
        if workers.wake_remote_cover_worker("wake-d-source", 42).is_some() {
            started += 1;
        }
    }
    assert_eq!(started, 1);
    assert!(workers.wake_remote_cover_worker("wake-d-source", 43).is_some());
}

#[test]
fn a_worker_goes_from_the_setting_to_a_ready_cover() {
    assert!(matches!(
        cover_worker_step(WorkerEvent::Setting {
            fetch_enabled: false
        }),
        WorkerAction::Exit
    ));
    assert!(matches!(
        cover_worker_step(WorkerEvent::Setting {
            fetch_enabled: true
        }),
        WorkerAction::Claim { lease_ms: 600_000 }
    ));
    assert!(matches!(
        cover_worker_step(WorkerEvent::Claimed {
            demand_kind: "background".into(),
            idle_ms: Some(1)
        }),
        WorkerAction::ReleaseAndSleep { ms: 2_000 }
    ));
    assert!(matches!(
        cover_worker_step(WorkerEvent::Claimed {
            demand_kind: "visible".into(),
            idle_ms: Some(1)
        }),
        WorkerAction::LookupRoute
    ));
    assert!(matches!(
        cover_worker_step(WorkerEvent::NoRoute),
        WorkerAction::Mark {
            state: CoverJobState::Failed,
            code: "route_missing"
        }
    ));
    match cover_worker_step(WorkerEvent::BudgetReserved {
        provider_id: "unknown".into(),
        source_type: "quark".into(),
    }) {
        WorkerAction::OpenAdapter { source_type } => assert_eq!(source_type, "quark"),
        _ => panic!("the session is opened"),
    }
    assert!(matches!(
        cover_worker_step(WorkerEvent::AdapterReady {
            profile: "170x240@1".into(),
            selection: "page:2|crop:|asset:".into()
        }),
        WorkerAction::Fetch {
            width: 170,
            height: 240,
            page: 2
        }
    ));
    assert!(matches!(
        cover_worker_step(WorkerEvent::Fetched {
            profile: "340x480@1".into(),
            selection: "default".into()
        }),
        WorkerAction::Store { by_path: true }
    ));
    assert!(matches!(
        cover_worker_step(WorkerEvent::Cached { stored: true }),
        WorkerAction::MarkReady
    ));
    assert!(matches!(
        cover_worker_step(WorkerEvent::MarkedReady { accepted: true }),
        WorkerAction::Again
    ));
}

#[test]
fn a_worker_waits_no_longer_than_it_may() {
    assert!(matches!(
        cover_worker_step(WorkerEvent::NothingDue {
            next_retry_at: Some(1_000_000),
            now_ms: 0
        }),
        WorkerAction::Sleep { ms: 30_000 }
    ));
    assert!(matches!(
        cover_worker_step(WorkerEvent::NothingDue {
            next_retry_at: None,
            now_ms: 0
        }),
        WorkerAction::Exit
    ));
    assert!(matches!(
        cover_worker_step(WorkerEvent::BudgetExhausted {
            deadline: 0,
            now_ms: 10
        }),
        WorkerAction::ReleaseAndSleep { ms: 1 }
    ));
    match cover_worker_step(WorkerEvent::FetchFailed {
        error: RemoteScanError::TransientNetwork("x".into()),
        attempt: 3,
        now_ms: 100,
    }) {
        WorkerAction::RecordFailure {
            state,
            error_code,
            not_before,
        } => {
            assert_eq!(state, CoverJobState::Failed);
            assert_eq!(error_code.as_deref(), Some("transient"));
            assert_eq!(not_before, Some(100 + LONG_RETRY_DELAY_MS));
        }
        _ => panic!("the failure is recorded"),
    }
}

#[test]
fn sessions_are_checked_and_reports_add_up() {
    assert_eq!(check_session_ready(" ", 1), Err("书源无效".to_string()));
    assert_eq!(
        check_session_ready("s", 0),
        Err("登录状态已失效".to_string())
    );
    assert_eq!(check_session_ready(" s ", 1), Ok("s".to_string()));
    assert_eq!(session_token(false, 1), Err("书源不存在".to_string()));
    assert_eq!(
        session_token(true, u64::MAX),
        Err("登录状态已失效".to_string())
    );
    assert_eq!(session_token(true, 9), Ok(9));
    let compensation = CompensationReport {
        compensation_promoted: 2,
        blocker_cleared: 1,
        truncated: false,
        claimable_work: false,
    };
    assert_eq!(remaining_jobs(10, &compensation), 7);
    assert_eq!(remaining_jobs(2, &compensation), 0);
    let gap = GapReport {
        jobs_created: 4,
        truncated: true,
    };
    let report = reconcile_report(true, true, &compensation, Some(gap));
    assert_eq!((report.compensation_promoted, report.jobs_created), (2, 4));
    assert!(report.binding_available && report.claimable && report.truncated);
    let report = reconcile_report(false, true, &compensation, None);
    assert_eq!(report.compensation_promoted, 0);
    assert!(!report.binding_available);
}

#[test]
fn routes_and_accounts_are_chosen_in_order() {
    let route = |path: &str| CoverRoute {
        logical_path: path.into(),
        provider_id: "quark".into(),
        provider_file_id: None,
    };
    let chosen = cover_route_for_job(Some(route("/new")), Some(route("/old"))).unwrap();
    assert_eq!(chosen.logical_path, "/new");
    assert!(cover_route_for_job(None, None).is_none());
    assert_eq!(budget_identity(Some("cred".into()), Some("id".into()), "s"), "cred");
    assert_eq!(budget_identity(Some("".into()), Some("id".into()), "s"), "id");
    assert_eq!(budget_identity(None, None, "s"), "s");
    assert_eq!(worker_owner("s", 7), "cover:s:7");
}
