use rch::api::remote_cover::{
    failed_covers_requeued, failed_retry,
    begin_cover_request, cover_state_query, demanded_state, kind_name, profile_key,
    rebound_route, remote_cover_read, remote_cover_request, remote_cover_reset_to_current_profile,
    remote_cover_retry, remote_cover_retry_failed, remote_cover_state, remote_directory_view,
    route_revision, route_session_matches, selection_key, CatalogCoverState, CatalogEntry,
    CatalogEntryKind, CatalogView, CoverBlobRecord, CoverJobRecord, CoverProfileDto,
    CoverRequestFacts, CoverReset, CoverSelectionDto, CoverTables, CoverVariantRecord, EpochRow,
    IndexRow, PreviewRow, QueuedCover, RouteRevision, RouteStep,
};
use rch::remote_scan::model::CoverJobState;

// ------------------------------------------------------------------
// Keys
// ------------------------------------------------------------------

fn selection(page: u32, explicit: Option<&str>, revision: &str) -> CoverSelectionDto {
    CoverSelectionDto {
        page,
        crop: None,
        explicit_asset_id: explicit.map(str::to_owned),
        revision: revision.into(),
    }
}

fn profile() -> CoverProfileDto {
    CoverProfileDto {
        width: 170,
        height: 240,
        decoder_version: 1,
    }
}

#[test]
fn profiles_and_selections_have_keys() {
    assert_eq!(profile_key(&profile()), "170x240@1");
    assert_eq!(selection_key(&selection(3, None, "")), "page:3|crop:|asset:");
    assert_eq!(
        selection_key(&selection(3, Some(" x "), " ")),
        "page:3|crop:|asset:x"
    );
    assert_eq!(selection_key(&selection(3, None, "default")), "default");
    assert_eq!(
        selection_key(&selection(3, Some("x"), "default")),
        "default|asset:x"
    );
    let mut cropped = selection(0, None, "");
    cropped.crop = Some("0,0,1,1".into());
    assert_eq!(selection_key(&cropped), "page:0|crop:0,0,1,1|asset:");
}

#[test]
fn representatives_have_covers_of_their_own() {
    for revision in ["", "default"] {
        assert_ne!(
            selection_key(&selection(0, Some("a"), revision)),
            selection_key(&selection(0, Some("b"), revision))
        );
    }
}

// ------------------------------------------------------------------
// Views
// ------------------------------------------------------------------

fn cover_state(state: &str) -> CatalogCoverState {
    CatalogCoverState {
        state: state.into(),
        revision: 4,
        ready: state == "ready",
        error_code: Some("e".into()),
        retry_at: Some(9),
        is_previous_revision: true,
    }
}

#[test]
fn views_show_every_entry() {
    let view = CatalogView {
        source_id: "s".into(),
        logical_path: "/".into(),
        revision: 7,
        listing_complete: true,
        has_more: false,
        entries: vec![CatalogEntry {
            asset_id: "a".into(),
            logical_path: "/a".into(),
            provider_path: None,
            name: "a".into(),
            kind: CatalogEntryKind::ImageFolder,
            size: Some(3),
            representative_asset_id: Some("r".into()),
            cover: cover_state("ready"),
        }],
    };
    let shown = remote_directory_view(&view);
    assert_eq!((shown.revision, shown.entries.len()), (7, 1));
    assert_eq!(shown.entries[0].asset_kind, "ImageFolder");
    assert_eq!(shown.entries[0].cover.state, "ready");
    assert!(shown.entries[0].cover.is_previous_revision);
    assert_eq!(kind_name(CatalogEntryKind::PlainDir), "PlainDir");
}

#[test]
fn states_are_shown_only_where_they_are_recorded() {
    let query = cover_state_query(" s ", "a", &selection(0, None, "default"), &profile()).unwrap();
    assert_eq!((query.source_id.as_str(), query.profile.as_str()), ("s", "170x240@1"));
    let state = cover_state("pending");
    let other = cover_state_query("s", "b", &selection(0, None, "default"), &profile()).unwrap();
    assert!(remote_cover_state(&query, &vec![other], &state).is_none());
    let same = cover_state_query("s", "a", &selection(5, None, "default"), &profile()).unwrap();
    let shown = remote_cover_state(&query, &vec![same], &state).unwrap();
    assert_eq!(shown.state, "pending");
    assert!(cover_state_query("", "a", &selection(0, None, ""), &profile()).is_none());
    assert!(cover_state_query("s", " ", &selection(0, None, ""), &profile()).is_none());
}

#[test]
fn queued_covers_and_cached_ones() {
    let job = QueuedCover {
        state: CoverJobState::RetryWait,
        updated_at: 5,
        error_code: None,
        next_attempt_at: Some(6),
    };
    let shown = demanded_state(&job);
    assert_eq!((shown.state.as_str(), shown.ready), ("retry_wait", false));
    assert_eq!((shown.revision, shown.retry_at), (5, Some(6)));
    let (image, missing) = remote_cover_read(Some((vec![1, 2, 3, 4], 1, 1)));
    assert_eq!(image.unwrap().rgba, vec![1, 2, 3, 4]);
    assert!(!missing);
    assert!(remote_cover_read(None).1);
}

// ------------------------------------------------------------------
// Requests
// ------------------------------------------------------------------

fn route(epoch: &str) -> RouteRevision {
    RouteRevision {
        logical_path: "/a".into(),
        source_fingerprint: "f".into(),
        generation: 2,
        session_epoch: epoch.into(),
        provider_id: "quark".into(),
        provider_file_id: Some("fid".into()),
    }
}

fn index_row(id: &str, parent: Option<&str>, entry_type: &str) -> IndexRow {
    IndexRow {
        id: id.into(),
        parent_id: parent.map(str::to_owned),
        entry_type: entry_type.into(),
        content_fingerprint: Some("content".into()),
        deleted: false,
    }
}

fn facts() -> CoverRequestFacts {
    CoverRequestFacts {
        source_type: Some("quark".into()),
        fingerprint: Some("f".into()),
        running: None,
        previews: Vec::new(),
        route: Some(route("e1")),
        epochs: vec![EpochRow {
            generation: 2,
            session_epoch: "e1".into(),
            session_token: 5,
        }],
        index: vec![
            index_row("a", Some("d"), "file"),
            index_row("r", Some("p"), "file"),
            index_row("d", None, "dir"),
        ],
    }
}

#[test]
fn requests_need_a_session_and_a_route() {
    let mut known = facts();
    assert_eq!(
        begin_cover_request(&known, "a", 0).err().unwrap(),
        "登录状态已失效"
    );
    assert!(matches!(
        begin_cover_request(&known, "a", 5),
        Ok(RouteStep::Bound(_))
    ));
    assert!(matches!(
        begin_cover_request(&known, "a", 6),
        Ok(RouteStep::Rebind(_))
    ));
    assert!(!route_session_matches(&known, &route("e1"), u64::MAX));
    known.route = None;
    assert_eq!(
        begin_cover_request(&known, "a", 5).err().unwrap(),
        "资源尚未完成索引"
    );
}

#[test]
fn previews_of_the_running_scan_come_first() {
    let mut known = facts();
    known.running = Some(3);
    known.previews = vec![PreviewRow {
        asset_id: "a".into(),
        logical_path: "/fresh".into(),
        source_fingerprint: "f".into(),
        generation: 3,
        session_epoch: "e3".into(),
        provider_file_id: None,
        parent_asset_id: None,
        entry_type: "file".into(),
        content_fingerprint: None,
    }];
    let found = route_revision(&known, "a").ok().unwrap();
    assert_eq!((found.logical_path.as_str(), found.generation), ("/fresh", 3));
    assert_eq!(found.provider_id, "quark");
    known.fingerprint = Some("changed".into());
    let found = route_revision(&known, "a").ok().unwrap();
    assert_eq!(found.logical_path, "/a");
}

#[test]
fn a_rebound_route_must_belong_to_the_session() {
    let known = facts();
    let lost = |r: Result<RouteRevision, String>| r.err().unwrap();
    assert_eq!(
        lost(rebound_route(&known, "a", 5, route("e1"), Err("x".into()))),
        "登录状态已失效"
    );
    assert_eq!(
        lost(rebound_route(&known, "a", 6, route("e1"), Ok(false))),
        "登录状态已失效"
    );
    assert!(rebound_route(&known, "a", 5, route("e1"), Ok(false)).is_ok());
    let found = rebound_route(&known, "a", 5, route("stale"), Ok(true)).ok().unwrap();
    assert_eq!(found.session_epoch, "e1");
    let mut gone = facts();
    gone.route = None;
    assert_eq!(
        lost(rebound_route(&gone, "a", 5, route("e1"), Ok(true))),
        "资源尚未完成索引"
    );
}

#[test]
fn requests_are_queued_under_what_is_shown() {
    let known = facts();
    let demand = remote_cover_request(
        &known,
        &route("e1"),
        "s",
        "a",
        &selection(0, Some("r"), "default"),
        &profile(),
    )
    .ok()
    .unwrap();
    assert_eq!(demand.key.content_revision, "content");
    assert_eq!(demand.key.selection_revision, "default|asset:r");
    assert_eq!(demand.key.profile, "170x240@1");
    assert_eq!(demand.provider.as_deref(), Some("quark"));
    assert_eq!(demand.register, Some(("/a".to_string(), "fid".to_string())));
    assert_eq!(demand.representative, Some(("p".to_string(), "r".to_string())));
    let folder = remote_cover_request(
        &known,
        &route("e1"),
        "s",
        "d",
        &selection(0, Some("r"), ""),
        &profile(),
    )
    .ok()
    .unwrap();
    assert_eq!(folder.representative, Some(("d".to_string(), "r".to_string())));
}

#[test]
fn requests_for_what_is_gone_are_refused() {
    let refused = |known: &CoverRequestFacts, asset: &str, explicit: Option<&str>| {
        remote_cover_request(
            known,
            &route("e1"),
            "s",
            asset,
            &selection(0, explicit, ""),
            &profile(),
        )
        .err()
        .unwrap()
    };
    let mut known = facts();
    assert_eq!(refused(&known, "none", None), "远程资源已失效");
    assert_eq!(refused(&known, "a", Some("none")), "自定义封面资源已失效");
    known.fingerprint = Some("changed".into());
    assert_eq!(refused(&known, "a", None), "书源配置已变更");
}

// ------------------------------------------------------------------
// Retries
// ------------------------------------------------------------------

#[test]
fn retries_name_their_assets() {
    assert_eq!(remote_cover_retry_failed(" s ").as_deref(), Some("s"));
    assert_eq!(remote_cover_retry_failed("  "), None);
    let retry = failed_retry("s".into(), Some("low".into()));
    assert_eq!((retry.source_id.as_str(), retry.profile.as_str()), ("s", "170x240@1"));
    let none = failed_covers_requeued(&retry, 0);
    assert!(none.notice.is_none() && !none.wake && none.requeued == 0);
    let some = failed_covers_requeued(&retry, 3);
    let notice = some.notice.unwrap();
    assert_eq!((notice.source_id.as_str(), notice.asset_id), ("s", None));
    assert!(some.wake && some.requeued == 3);
    let ids = || vec!["a".to_string(), "b".to_string()];
    let refused = |session, known, open| {
        remote_cover_retry("s".into(), session, known, open, ids(), 1).err().unwrap()
    };
    assert_eq!(refused(0, true, true), "登录状态已失效");
    assert_eq!(refused(1, false, true), "书源不存在");
    assert_eq!(refused(1, true, false), "登录状态已失效");
    let plan = remote_cover_retry("s".into(), 1, true, true, ids(), 8).ok().unwrap();
    assert!(plan.sql.ends_with(" AND asset_id IN (?,?)"));
    assert_eq!((plan.now, plan.asset_ids), (8, ids()));
    let all = remote_cover_retry("s".into(), 1, true, true, Vec::new(), 8).ok().unwrap();
    assert!(plan.sql.starts_with(&all.sql));
}

// ------------------------------------------------------------------
// Reset
// ------------------------------------------------------------------

fn job(key: &str, profile: &str, state: CoverJobState) -> CoverJobRecord {
    CoverJobRecord {
        job_key: key.into(),
        source_id: "reset-contract".into(),
        profile: profile.into(),
        state,
        attempt: 3,
        error_code: Some("x".into()),
        next_attempt_at: Some(4),
        lease_owner: None,
        lease_until: None,
        long_retry_pending: false,
        long_retry_consumed: true,
        long_retry_not_before: None,
        updated_at: 1_000,
    }
}

fn variant(asset: &str, profile: &str, blob: Option<&str>) -> CoverVariantRecord {
    CoverVariantRecord {
        source_id: "reset-contract".into(),
        asset_id: asset.into(),
        profile: profile.into(),
        blob_key: blob.map(str::to_owned),
    }
}

fn blob(key: &str, path: &str) -> CoverBlobRecord {
    CoverBlobRecord {
        blob_key: key.into(),
        relative_path: path.into(),
    }
}

fn tables() -> CoverTables {
    let current = "170x240@1";
    let other = "340x480@1";
    CoverTables {
        jobs: vec![
            job("keep-ready", current, CoverJobState::Ready),
            job("requeue-me", current, CoverJobState::Failed),
            job("stay-blocked", current, CoverJobState::Blocked),
            job("other-ready", other, CoverJobState::Ready),
            job("other-failed", other, CoverJobState::Failed),
        ],
        variants: vec![
            variant("keep-ready", current, Some("kept")),
            variant("other-ready", other, Some("orphan")),
            variant("shared", other, Some("kept")),
        ],
        blobs: vec![blob("kept", "k.cover"), blob("orphan", "o.cover")],
        refs: Vec::new(),
    }
}

fn state_of(reset: &CoverReset, key: &str) -> (CoverJobState, i64) {
    let found = reset.tables.jobs.iter().find(|j| j.job_key == key).unwrap();
    (found.state, found.attempt)
}

#[test]
fn reset_purges_other_profiles_and_requeues_terminal_failures() {
    let reset = remote_cover_reset_to_current_profile(&tables(), "170x240@1", 2_000);
    assert_eq!(reset.report.profile, "170x240@1");
    assert!(reset.report.purged_jobs >= 2);
    assert!(reset.report.requeued_jobs >= 1);
    assert!(reset.tables.jobs.iter().all(|j| j.profile == "170x240@1"));
    assert_eq!(state_of(&reset, "requeue-me"), (CoverJobState::Pending, 0));
    assert_eq!(state_of(&reset, "stay-blocked").0, CoverJobState::Blocked);
    assert_eq!(state_of(&reset, "keep-ready").0, CoverJobState::Ready);
    assert_eq!(reset.files, vec!["o.cover"]);
    assert_eq!(reset.report.purged_blobs, 1);
    assert_eq!(reset.report.purged_variants, 2);
    assert_eq!(reset.report.sources, 1);
    assert_eq!(reset.sources, vec!["reset-contract"]);
}

#[test]
fn a_second_reset_changes_nothing() {
    let once = remote_cover_reset_to_current_profile(&tables(), "170x240@1", 2_000);
    let twice = remote_cover_reset_to_current_profile(&once.tables, "170x240@1", 3_000);
    assert_eq!(twice.report.purged_jobs, 0);
    assert_eq!(twice.report.purged_variants, 0);
    assert_eq!(twice.report.purged_blobs, 0);
    assert_eq!(twice.report.requeued_jobs, 0);
    assert_eq!(twice.tables.jobs.len(), once.tables.jobs.len());
}
